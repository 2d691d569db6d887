use std::collections::VecDeque;

use polyorama::ids::SourceId;
use polyorama::runtime::{
    compress_tile, decode, samples_le_bytes, take_upload_budget, DecodeEvent, TileCache, TileKey,
    TILE_SIZE,
};

fn key(x: u32) -> TileKey {
    TileKey { source: SourceId(1), level: 0, x, y: 0 }
}

fn completed(x: u32, bytes: usize) -> DecodeEvent {
    DecodeEvent::Completed { key: key(x), generation: 1, scalar_u16_le: vec![0; bytes], decode_ms_bits: 1.0f64.to_bits() }
}

#[test]
fn cache_evicts_deterministically_within_budget() {
    let mut cache = TileCache::new(20);
    cache.insert(key(0), 10);
    cache.insert(key(1), 10);
    let evicted = cache.insert(key(2), 10);
    assert_eq!(evicted, vec![key(0)]);
    assert!(cache.used() <= cache.budget());
}

#[test]
fn one_tile_key_has_one_shared_residency_entry() {
    let mut cache = TileCache::new(20);
    assert!(cache.insert(key(0), 10).is_empty());
    assert!(cache.insert(key(0), 10).is_empty());
    assert_eq!(cache.used(), 10);
    assert!(cache.contains(key(0)));
    assert_eq!(cache.evictions, 0);
}

#[test]
fn recently_used_tiles_survive_eviction() {
    let mut cache = TileCache::new(20);
    cache.insert(key(0), 10);
    cache.insert(key(1), 10);
    assert!(cache.contains(key(0)));
    let evicted = cache.insert(key(2), 10);
    assert_eq!(evicted, vec![key(1)]);
    assert!(cache.contains(key(0)));
    assert!(!cache.contains(key(1)));
    assert_eq!(cache.evictions, 1);
}

#[test]
fn an_oversized_tile_stays_resident_alone() {
    let mut cache = TileCache::new(20);
    cache.insert(key(0), 5);
    cache.insert(key(1), 5);
    let evicted = cache.insert(key(2), 50);
    assert_eq!(evicted, vec![key(0), key(1)]);
    assert_eq!(cache.used(), 50);
    assert!(cache.contains(key(2)));
}

#[test]
fn per_frame_upload_budget_is_respected() {
    let mut queue = VecDeque::from((0..3).map(|x| completed(x, 10)).collect::<Vec<_>>());
    let selected = take_upload_budget(&mut queue, 20);
    assert_eq!(selected.len(), 2);
    assert_eq!(queue.len(), 1);
}

#[test]
fn the_first_upload_is_taken_even_over_budget() {
    let mut queue = VecDeque::from(vec![completed(0, 50), completed(1, 1)]);
    let selected = take_upload_budget(&mut queue, 20);
    assert_eq!(selected.len(), 1);
    assert_eq!(queue.len(), 1);
    let mut empty: VecDeque<DecodeEvent> = VecDeque::new();
    assert!(take_upload_budget(&mut empty, 20).is_empty());
}

#[test]
fn compressed_payload_decodes_to_scalar_tile() {
    let samples: Vec<u16> = (0..TILE_SIZE * TILE_SIZE).map(|i| (i % 65_521) as u16).collect();
    let event = decode(compress_tile(key(0), 1, &samples));
    match event {
        DecodeEvent::Completed { scalar_u16_le, generation, .. } => {
            assert_eq!(scalar_u16_le.len(), (TILE_SIZE * TILE_SIZE * 2) as usize);
            assert_eq!(scalar_u16_le, samples_le_bytes(&samples));
            assert_eq!(generation, 1);
        }
        _ => panic!("decode failed"),
    }
}

#[test]
fn samples_are_little_endian() {
    assert_eq!(samples_le_bytes(&[0x1234, 0x00ff]), vec![0x34, 0x12, 0xff, 0x00]);
}

#[test]
fn truncated_payload_fails_to_decode() {
    let request = polyorama::runtime::DecodeRequest { key: key(3), generation: 4, compressed_lz4: vec![1, 2] };
    match decode(request) {
        DecodeEvent::Failed { key: failed, generation, message } => {
            assert_eq!(failed, key(3));
            assert_eq!(generation, 4);
            assert_eq!(message, "expected another byte, found none");
        }
        _ => panic!("a truncated payload decoded"),
    }
}
