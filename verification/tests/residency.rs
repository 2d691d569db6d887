use polyorama::ids::SourceId;
use polyorama::residency::{DemandPriority, ResourceState, Runtime, TileDemand};
use polyorama::runtime::{DecodeEvent, TileKey};

fn key(x: u32) -> TileKey {
    TileKey { source: SourceId(1), level: 0, x, y: 0 }
}

fn demand(x: u32, generation: u64) -> TileDemand {
    TileDemand { key: key(x), priority: DemandPriority::Visible, generation }
}

#[test]
fn stale_generation_is_rejected() {
    let mut runtime = Runtime::new();
    runtime.reconcile(&vec![demand(0, 1)], 0);
    assert_eq!(runtime.take_external_request(), Some((key(0), 1)));
    assert_eq!(runtime.state(key(0)), ResourceState::Decoding);
    runtime.invalidate();
    assert_eq!(runtime.generation(), 2);
    let accepted = runtime.accept_event(DecodeEvent::Completed {
        key: key(0),
        generation: 1,
        scalar_u16_le: vec![0; 2],
        decode_ms_bits: 1.0f64.to_bits(),
    });
    assert!(!accepted);
    assert_eq!(runtime.metrics.stale_discarded, 1);
    assert_eq!(runtime.state(key(0)), ResourceState::Decoding);
    assert!(runtime.pop_decoded().is_none());
}

#[test]
fn failed_resource_is_terminal_until_explicit_invalidation_policy_changes() {
    let mut runtime = Runtime::new();
    let tile = demand(0, runtime.generation());
    runtime.reconcile(&vec![tile], 0);
    runtime.take_external_request();
    runtime.accept_event(DecodeEvent::Failed {
        key: tile.key,
        generation: tile.generation,
        message: "fixture decode failure".into(),
    });
    let misses_before = runtime.metrics.cache_misses;

    runtime.reconcile(&vec![tile], 0);

    assert_eq!(runtime.state(tile.key), ResourceState::Failed);
    assert_eq!(runtime.metrics.cache_misses, misses_before);
    assert_eq!(runtime.metrics.failed, 1);
}

#[test]
fn completed_decodes_wait_for_upload_and_become_resident() {
    let mut runtime = Runtime::new();
    runtime.reconcile(&vec![demand(0, 1), demand(1, 1), TileDemand { priority: DemandPriority::Prefetch, ..demand(2, 1) }], 3);
    assert_eq!(runtime.metrics.total_demands, 6);
    assert_eq!(runtime.metrics.duplicate_demands_removed, 3);
    assert_eq!(runtime.metrics.visible_demands, 2);
    assert_eq!(runtime.metrics.prefetch_demands, 1);
    assert_eq!(runtime.metrics.cache_misses, 3);
    assert_eq!(runtime.metrics.queued, 3);
    assert_eq!(runtime.take_external_request(), Some((key(0), 1)));
    assert_eq!(runtime.metrics.queued, 2);
    assert_eq!(runtime.metrics.in_flight, 1);
    assert_eq!(runtime.metrics.worker_queue_depth, 3);
    let accepted = runtime.accept_event(DecodeEvent::Completed {
        key: key(0),
        generation: 1,
        scalar_u16_le: vec![0; 8],
        decode_ms_bits: 2.0f64.to_bits(),
    });
    assert!(accepted);
    assert_eq!(runtime.state(key(0)), ResourceState::Decoded);
    assert_eq!(runtime.pending_decoded_bytes(), 8);
    assert!(runtime.pop_decoded().is_some());
    runtime.mark_resident(key(0));
    assert_eq!(runtime.state(key(0)), ResourceState::Resident);
    runtime.reconcile(&vec![demand(0, 1)], 0);
    assert_eq!(runtime.metrics.cache_hits, 1);
    assert_eq!(runtime.state(key(9)), ResourceState::Missing);
}
