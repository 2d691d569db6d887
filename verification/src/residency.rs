//! The residency of demanded tiles: which tiles are queued, being decoded,
//! decoded, resident or failed, which decode results are stale, and the
//! counters that describe it.
use std::collections::VecDeque;
use vstd::prelude::*;

use crate::runtime::{DecodeEvent, EventView, TileKey, event_views, upload_bytes};

verus! {

/// Where a demanded tile is on its way to the screen.
#[derive(Clone, Copy, Debug, PartialEq, Eq, Structural)]
pub enum ResourceState {
    Missing,
    Queued,
    Decoding,
    Decoded,
    Resident,
    Failed,
}

/// Whether a tile is demanded for the visible view or ahead of it.
#[derive(Clone, Copy, Debug, PartialEq, Eq, Structural)]
pub enum DemandPriority {
    Visible,
    Prefetch,
}

/// A tile that a view needs, in the generation it was demanded in.
#[derive(Clone, Copy, Debug, PartialEq, Eq, Structural)]
pub struct TileDemand {
    pub key: TileKey,
    pub priority: DemandPriority,
    pub generation: u64,
}

/// A tracked tile: its state and the generation it was requested in.
#[derive(Clone, Copy, Debug, PartialEq, Eq, Structural)]
pub struct ResourceEntry {
    pub key: TileKey,
    pub state: ResourceState,
    pub generation: u64,
}

/// The counters of demand reconciliation and decoding.
#[derive(Clone, Copy, Debug, PartialEq, Eq, Structural)]
pub struct RuntimeCounters {
    pub total_demands: usize,
    pub visible_demands: usize,
    pub prefetch_demands: usize,
    pub duplicate_demands_removed: usize,
    pub cache_hits: u64,
    pub cache_misses: u64,
    pub queued: usize,
    pub in_flight: usize,
    pub completed: u64,
    pub failed: u64,
    pub stale_discarded: u64,
    pub worker_queue_depth: usize,
}

/// `i` is the first entry of `key`.
pub open spec fn is_first_resource(entries: Seq<ResourceEntry>, key: TileKey, i: int) -> bool {
    &&& 0 <= i < entries.len()
    &&& entries[i].key == key
    &&& forall|j: int| 0 <= j < i ==> entries[j].key != key
}

/// The position of the entry of `key`, if the tile is tracked.
pub open spec fn resource_index(entries: Seq<ResourceEntry>, key: TileKey) -> Option<int> {
    if exists|i: int| 0 <= i < entries.len() && entries[i].key == key {
        Some(choose|i: int| is_first_resource(entries, key, i))
    } else {
        None
    }
}

/// The state of `key`: that of its entry, or missing.
pub open spec fn state_of(entries: Seq<ResourceEntry>, key: TileKey) -> ResourceState {
    match resource_index(entries, key) {
        Some(i) => entries[i].state,
        None => ResourceState::Missing,
    }
}

/// The entry of `key` with its state set to `state`, where the tile is
/// tracked.
pub open spec fn with_state(entries: Seq<ResourceEntry>, key: TileKey, state: ResourceState) -> Seq<ResourceEntry> {
    match resource_index(entries, key) {
        Some(i) => entries.update(i, ResourceEntry { state, ..entries[i] }),
        None => entries,
    }
}

/// The entry of `key` replaced by `entry`, or `entry` appended.
pub open spec fn with_entry(entries: Seq<ResourceEntry>, entry: ResourceEntry) -> Seq<ResourceEntry> {
    match resource_index(entries, entry.key) {
        Some(i) => entries.update(i, entry),
        None => entries.push(entry),
    }
}

/// How many entries are in `state`.
pub open spec fn count_state(entries: Seq<ResourceEntry>, state: ResourceState) -> nat
    decreases entries.len(),
{
    if entries.len() == 0 {
        0
    } else {
        count_state(entries.drop_last(), state) + if entries.last().state == state {
            1nat
        } else {
            0nat
        }
    }
}

/// How many demands are for the visible view.
pub open spec fn count_visible(demands: Seq<TileDemand>) -> nat
    decreases demands.len(),
{
    if demands.len() == 0 {
        0
    } else {
        count_visible(demands.drop_last()) + if demands.last().priority == DemandPriority::Visible {
            1nat
        } else {
            0nat
        }
    }
}

/// The failure message of `key`, recorded last.
pub open spec fn with_failure(failures: Seq<(TileKey, Seq<char>)>, key: TileKey, message: Seq<char>) -> Seq<(TileKey, Seq<char>)> {
    if exists|i: int| 0 <= i < failures.len() && failures[i].0 == key {
        let i = choose|i: int| 0 <= i < failures.len() && failures[i].0 == key;
        failures.update(i, (key, message))
    } else {
        failures.push((key, message))
    }
}

/// The residency of tiles and what the decoder returned.
pub struct Runtime {
    generation: u64,
    resources: Vec<ResourceEntry>,
    requests: VecDeque<(TileKey, u64)>,
    decoded: VecDeque<DecodeEvent>,
    failures: Vec<(TileKey, String)>,
    pub metrics: RuntimeCounters,
}

/// The model of the runtime: the current generation, the tracked tiles, the
/// tiles waiting for a decode request (with the generation they were demanded
/// in), the decoded events waiting for upload, the failure messages, and the
/// counters.
#[verifier::ext_equal]
pub struct RuntimeView {
    pub generation: u64,
    pub resources: Seq<ResourceEntry>,
    pub requests: Seq<(TileKey, u64)>,
    pub decoded: Seq<EventView>,
    pub failures: Seq<(TileKey, Seq<char>)>,
    pub metrics: RuntimeCounters,
}

pub open spec fn failure_views(failures: Seq<(TileKey, String)>) -> Seq<(TileKey, Seq<char>)> {
    failures.map_values(|f: (TileKey, String)| (f.0, f.1@))
}

impl View for Runtime {
    type V = RuntimeView;

    closed spec fn view(&self) -> RuntimeView {
        RuntimeView {
            generation: self.generation,
            resources: self.resources@,
            requests: self.requests@,
            decoded: event_views(self.decoded@),
            failures: failure_views(self.failures@),
            metrics: self.metrics,
        }
    }
}

/// Each tile is tracked at most once, and each failure is recorded once.
pub open spec fn runtime_valid(view: RuntimeView) -> bool {
    &&& forall|i: int, j: int|
        0 <= i < view.resources.len() && 0 <= j < view.resources.len() && i != j
            ==> #[trigger] view.resources[i].key != #[trigger] view.resources[j].key
    &&& forall|i: int, j: int|
        0 <= i < view.failures.len() && 0 <= j < view.failures.len() && i != j
            ==> #[trigger] view.failures[i].0 != #[trigger] view.failures[j].0
}

/// The counters with the queue depths of `entries`.
pub open spec fn with_depths(metrics: RuntimeCounters, entries: Seq<ResourceEntry>) -> RuntimeCounters {
    RuntimeCounters {
        queued: count_state(entries, ResourceState::Queued) as usize,
        in_flight: count_state(entries, ResourceState::Decoding) as usize,
        worker_queue_depth: (count_state(entries, ResourceState::Queued) + count_state(
            entries,
            ResourceState::Decoding,
        )) as usize,
        ..metrics
    }
}

/// The key and generation of an event.
pub open spec fn event_key(event: EventView) -> (TileKey, u64) {
    match event {
        EventView::Completed { key, generation, .. } => (key, generation),
        EventView::Failed { key, generation, .. } => (key, generation),
    }
}

/// An event is stale when it belongs to an earlier generation, or to another
/// request of its tile than the one tracked.
pub open spec fn is_stale(view: RuntimeView, event: EventView) -> bool {
    let (key, generation) = event_key(event);
    generation != view.generation || match resource_index(view.resources, key) {
        Some(i) => view.resources[i].generation != generation,
        None => false,
    }
}

/// One demand reconciled: a tracked tile that is not failed is a hit; a failed
/// one is left alone; any other is a miss, queued and requested.
pub open spec fn reconcile_step(view: RuntimeView, demand: TileDemand) -> RuntimeView {
    let state = state_of(view.resources, demand.key);
    if state == ResourceState::Failed {
        view
    } else if state != ResourceState::Missing {
        RuntimeView {
            metrics: RuntimeCounters { cache_hits: (view.metrics.cache_hits + 1) as u64, ..view.metrics },
            ..view
        }
    } else {
        RuntimeView {
            resources: with_entry(
                view.resources,
                ResourceEntry {
                    key: demand.key,
                    state: ResourceState::Queued,
                    generation: demand.generation,
                },
            ),
            requests: view.requests.push((demand.key, demand.generation)),
            metrics: RuntimeCounters {
                cache_misses: (view.metrics.cache_misses + 1) as u64,
                ..view.metrics
            },
            ..view
        }
    }
}

/// The demands reconciled in order.
pub open spec fn reconciled(view: RuntimeView, demands: Seq<TileDemand>) -> RuntimeView
    decreases demands.len(),
{
    if demands.len() == 0 {
        view
    } else {
        reconcile_step(reconciled(view, demands.drop_last()), demands.last())
    }
}


/// Each tile has at most one entry.
pub open spec fn keys_distinct(entries: Seq<ResourceEntry>) -> bool {
    forall|i: int, j: int|
        0 <= i < entries.len() && 0 <= j < entries.len() && i != j ==> #[trigger] entries[i].key
            != #[trigger] entries[j].key
}

proof fn lemma_has_first_resource(entries: Seq<ResourceEntry>, key: TileKey, k: int)
    requires
        0 <= k < entries.len(),
        entries[k].key == key,
    ensures
        exists|i: int| is_first_resource(entries, key, i),
    decreases k,
{
    if exists|j: int| 0 <= j < k && entries[j].key == key {
        let j = choose|j: int| 0 <= j < k && entries[j].key == key;
        lemma_has_first_resource(entries, key, j);
    } else {
        assert(is_first_resource(entries, key, k));
    }
}

proof fn lemma_resource_index_is_first(entries: Seq<ResourceEntry>, key: TileKey)
    requires
        resource_index(entries, key) is Some,
    ensures
        is_first_resource(entries, key, resource_index(entries, key)->0),
{
    let k = choose|k: int| 0 <= k < entries.len() && entries[k].key == key;
    lemma_has_first_resource(entries, key, k);
}

proof fn lemma_resource_index_at(entries: Seq<ResourceEntry>, key: TileKey, i: int)
    requires
        is_first_resource(entries, key, i),
    ensures
        resource_index(entries, key) == Some(i),
{
    let k = choose|k: int| is_first_resource(entries, key, k);
    assert(is_first_resource(entries, key, k));
    if k < i {
        assert(entries[k].key != key);
    } else if i < k {
        assert(entries[i].key != key);
    }
}

/// Where each tile is tracked depends on the keys alone.
proof fn lemma_resource_index_same_keys(a: Seq<ResourceEntry>, b: Seq<ResourceEntry>, key: TileKey)
    requires
        a.len() == b.len(),
        forall|j: int| 0 <= j < a.len() ==> #[trigger] a[j].key == b[j].key,
    ensures
        resource_index(a, key) == resource_index(b, key),
{
    if resource_index(a, key) is Some {
        lemma_resource_index_is_first(a, key);
        let i = resource_index(a, key)->0;
        assert(a[i].key == b[i].key);
        assert forall|j: int| 0 <= j < i implies b[j].key != key by {
            assert(a[j].key == b[j].key);
        }
        assert(is_first_resource(b, key, i));
        lemma_resource_index_at(b, key, i);
    } else {
        assert forall|j: int| 0 <= j < b.len() implies b[j].key != key by {
            assert(a[j].key == b[j].key);
        }
    }
}

/// Setting a state keeps every key, and so the other tiles' states.
proof fn lemma_with_state(entries: Seq<ResourceEntry>, key: TileKey, state: ResourceState, other: TileKey)
    ensures
        with_state(entries, key, state).len() == entries.len(),
        forall|j: int| 0 <= j < entries.len() ==> #[trigger] with_state(entries, key, state)[j].key == entries[j].key,
        keys_distinct(entries) ==> keys_distinct(with_state(entries, key, state)),
        other != key ==> state_of(with_state(entries, key, state), other) == state_of(entries, other),
        resource_index(entries, key) is Some ==> state_of(with_state(entries, key, state), key) == state,
{
    let updated = with_state(entries, key, state);
    if resource_index(entries, key) is Some {
        lemma_resource_index_is_first(entries, key);
    }
    assert forall|j: int| 0 <= j < entries.len() implies #[trigger] updated[j].key == entries[j].key by {}
    lemma_resource_index_same_keys(entries, updated, other);
    lemma_resource_index_same_keys(entries, updated, key);
    if resource_index(entries, other) is Some {
        lemma_resource_index_is_first(entries, other);
    }
    if keys_distinct(entries) {
        assert forall|i: int, j: int|
            0 <= i < updated.len() && 0 <= j < updated.len() && i != j implies #[trigger] updated[i].key
            != #[trigger] updated[j].key by {
            assert(updated[i].key == entries[i].key);
            assert(updated[j].key == entries[j].key);
        }
    }
}

/// Replacing or appending the entry of a tile keeps each tile tracked once
/// and the other tiles' states.
proof fn lemma_with_entry(entries: Seq<ResourceEntry>, entry: ResourceEntry, other: TileKey)
    requires
        keys_distinct(entries),
    ensures
        keys_distinct(with_entry(entries, entry)),
        other != entry.key ==> state_of(with_entry(entries, entry), other) == state_of(entries, other),
        state_of(with_entry(entries, entry), entry.key) == entry.state,
        resource_index(with_entry(entries, entry), entry.key) is Some,
{
    let updated = with_entry(entries, entry);
    if resource_index(entries, entry.key) is Some {
        lemma_resource_index_is_first(entries, entry.key);
        let i = resource_index(entries, entry.key)->0;
        assert forall|j: int| 0 <= j < entries.len() implies #[trigger] updated[j].key == entries[j].key by {}
        lemma_resource_index_same_keys(entries, updated, other);
        lemma_resource_index_same_keys(entries, updated, entry.key);
        if resource_index(entries, other) is Some {
            lemma_resource_index_is_first(entries, other);
        }
        assert forall|a: int, b: int|
            0 <= a < updated.len() && 0 <= b < updated.len() && a != b implies #[trigger] updated[a].key
            != #[trigger] updated[b].key by {
            assert(updated[a].key == entries[a].key);
            assert(updated[b].key == entries[b].key);
        }
    } else {
        let n = entries.len() as int;
        assert(forall|j: int| 0 <= j < n ==> entries[j].key != entry.key);
        assert forall|a: int, b: int|
            0 <= a < updated.len() && 0 <= b < updated.len() && a != b implies #[trigger] updated[a].key
            != #[trigger] updated[b].key by {
            if a < n && b < n {
                assert(updated[a] == entries[a]);
                assert(updated[b] == entries[b]);
            } else if a < n {
                assert(updated[a] == entries[a]);
            } else if b < n {
                assert(updated[b] == entries[b]);
            }
        }
        assert(is_first_resource(updated, entry.key, n));
        lemma_resource_index_at(updated, entry.key, n);
        if resource_index(entries, other) is Some {
            lemma_resource_index_is_first(entries, other);
            let k = resource_index(entries, other)->0;
            assert(is_first_resource(updated, other, k));
            lemma_resource_index_at(updated, other, k);
        } else if other != entry.key {
            assert forall|j: int| 0 <= j < updated.len() implies updated[j].key != other by {
                if j < n {
                    assert(updated[j] == entries[j]);
                }
            }
        }
    }
}

/// Reconciling keeps each tile tracked once, and a tile that failed stays
/// failed: demanding it again neither requeues nor counts it.
pub proof fn lemma_failed_is_terminal(view: RuntimeView, demands: Seq<TileDemand>, key: TileKey)
    requires
        keys_distinct(view.resources),
    ensures
        keys_distinct(reconciled(view, demands).resources),
        state_of(view.resources, key) == ResourceState::Failed ==> state_of(
            reconciled(view, demands).resources,
            key,
        ) == ResourceState::Failed,
    decreases demands.len(),
{
    if demands.len() > 0 {
        lemma_failed_is_terminal(view, demands.drop_last(), key);
        let before = reconciled(view, demands.drop_last());
        let demand = demands.last();
        let entry = ResourceEntry {
            key: demand.key,
            state: ResourceState::Queued,
            generation: demand.generation,
        };
        lemma_with_entry(before.resources, entry, key);
    }
}

/// One demand reconciled leaves the demanded tile tracked, and keeps each
/// tile tracked once and each tracked tile tracked.
proof fn lemma_step_tracks(view: RuntimeView, demand: TileDemand, key: TileKey)
    requires
        keys_distinct(view.resources),
    ensures
        keys_distinct(reconcile_step(view, demand).resources),
        state_of(reconcile_step(view, demand).resources, demand.key) != ResourceState::Missing,
        state_of(view.resources, key) != ResourceState::Missing ==> state_of(
            reconcile_step(view, demand).resources,
            key,
        ) != ResourceState::Missing,
{
    let entry = ResourceEntry { key: demand.key, state: ResourceState::Queued, generation: demand.generation };
    lemma_with_entry(view.resources, entry, key);
}

/// After reconciling demands, each demanded tile is tracked, and each tile
/// tracked before still is.
proof fn lemma_demanded_tracked(view: RuntimeView, demands: Seq<TileDemand>)
    requires
        keys_distinct(view.resources),
    ensures
        keys_distinct(reconciled(view, demands).resources),
        forall|k: int|
            0 <= k < demands.len() ==> state_of(reconciled(view, demands).resources, #[trigger] demands[k].key)
                != ResourceState::Missing,
        forall|key: TileKey|
            state_of(view.resources, key) != ResourceState::Missing ==> #[trigger] state_of(
                reconciled(view, demands).resources,
                key,
            ) != ResourceState::Missing,
    decreases demands.len(),
{
    if demands.len() > 0 {
        let rest = demands.drop_last();
        let before = reconciled(view, rest);
        let last = demands.last();
        lemma_demanded_tracked(view, rest);
        lemma_step_tracks(before, last, last.key);
        assert forall|key: TileKey| state_of(view.resources, key) != ResourceState::Missing implies #[trigger] state_of(
            reconciled(view, demands).resources,
            key,
        ) != ResourceState::Missing by {
            assert(state_of(before.resources, key) != ResourceState::Missing);
            lemma_step_tracks(before, last, key);
        }
        assert forall|k: int| 0 <= k < demands.len() implies state_of(
            reconciled(view, demands).resources,
            #[trigger] demands[k].key,
        ) != ResourceState::Missing by {
            if k < demands.len() - 1 {
                assert(rest[k] == demands[k]);
                assert(state_of(before.resources, rest[k].key) != ResourceState::Missing);
                lemma_step_tracks(before, last, demands[k].key);
            }
        }
    }
}

/// Demands of tracked tiles change neither the tracked tiles, nor the
/// request queue, nor the misses.
proof fn lemma_tracked_demands_request_nothing(view: RuntimeView, demands: Seq<TileDemand>)
    requires
        forall|k: int| 0 <= k < demands.len() ==> state_of(view.resources, #[trigger] demands[k].key)
            != ResourceState::Missing,
    ensures
        reconciled(view, demands).resources == view.resources,
        reconciled(view, demands).requests == view.requests,
        reconciled(view, demands).metrics.cache_misses == view.metrics.cache_misses,
    decreases demands.len(),
{
    if demands.len() > 0 {
        let rest = demands.drop_last();
        assert forall|k: int| 0 <= k < rest.len() implies state_of(view.resources, #[trigger] rest[k].key)
            != ResourceState::Missing by {
            assert(rest[k] == demands[k]);
        }
        lemma_tracked_demands_request_nothing(view, rest);
        assert(state_of(view.resources, demands[demands.len() - 1].key) != ResourceState::Missing);
    }
}

/// Reconciling one demand: a tile that is queued, decoding, decoded or
/// resident counts a cache hit and changes neither the tracked tiles nor the
/// request queue nor the misses; a failed tile counts nothing and changes
/// nothing; a missing tile counts a miss, is tracked as queued, and is
/// requested once, at the back of the queue, in the demand's generation.
pub proof fn lemma_reconcile_one(view: RuntimeView, demand: TileDemand, duplicates: usize, other: TileKey)
    requires
        runtime_valid(view),
        view.metrics.cache_hits < u64::MAX,
        view.metrics.cache_misses < u64::MAX,
        duplicates < usize::MAX,
    ensures
        ({
            let after = after_reconcile(view, seq![demand], duplicates);
            let state = state_of(view.resources, demand.key);
            &&& (state == ResourceState::Queued || state == ResourceState::Decoding || state
                == ResourceState::Decoded || state == ResourceState::Resident) ==> {
                &&& after.metrics.cache_hits == view.metrics.cache_hits + 1
                &&& after.metrics.cache_misses == view.metrics.cache_misses
                &&& after.resources == view.resources
                &&& after.requests == view.requests
            }
            &&& state == ResourceState::Failed ==> {
                &&& after.metrics.cache_hits == view.metrics.cache_hits
                &&& after.metrics.cache_misses == view.metrics.cache_misses
                &&& after.resources == view.resources
                &&& after.requests == view.requests
            }
            &&& state == ResourceState::Missing ==> {
                &&& after.metrics.cache_hits == view.metrics.cache_hits
                &&& after.metrics.cache_misses == view.metrics.cache_misses + 1
                &&& state_of(after.resources, demand.key) == ResourceState::Queued
                &&& other != demand.key ==> state_of(after.resources, other) == state_of(view.resources, other)
                &&& after.requests == view.requests.push((demand.key, demand.generation))
            }
            &&& after.generation == view.generation
            &&& after.decoded == view.decoded
            &&& after.failures == view.failures
        }),
{
    let demands = seq![demand];
    assert(demands.drop_last() =~= Seq::<TileDemand>::empty());
    assert(demands.last() == demand);
    let counted = RuntimeView {
        metrics: RuntimeCounters {
            total_demands: (demands.len() + duplicates) as usize,
            duplicate_demands_removed: duplicates,
            visible_demands: count_visible(demands) as usize,
            prefetch_demands: (demands.len() - count_visible(demands)) as usize,
            ..view.metrics
        },
        ..view
    };
    assert(reconciled(counted, demands.drop_last()) == counted);
    assert(reconciled(counted, demands) == reconcile_step(counted, demand));
    let entry = ResourceEntry { key: demand.key, state: ResourceState::Queued, generation: demand.generation };
    lemma_with_entry(view.resources, entry, other);
}

/// Reconciling the same demands a second time requests nothing more: every
/// demanded tile is tracked after the first pass, and the second counts no
/// miss and leaves the tracked tiles and the request queue as the first left
/// them.
pub proof fn lemma_reconcile_again(
    view: RuntimeView,
    demands: Seq<TileDemand>,
    first_duplicates: usize,
    second_duplicates: usize,
)
    requires
        runtime_valid(view),
    ensures
        ({
            let once = after_reconcile(view, demands, first_duplicates);
            let twice = after_reconcile(once, demands, second_duplicates);
            &&& forall|k: int|
                0 <= k < demands.len() ==> state_of(once.resources, #[trigger] demands[k].key)
                    != ResourceState::Missing
            &&& twice.resources == once.resources
            &&& twice.requests == once.requests
            &&& twice.metrics.cache_misses == once.metrics.cache_misses
        }),
{
    let once = after_reconcile(view, demands, first_duplicates);
    let counted = RuntimeView {
        metrics: RuntimeCounters {
            total_demands: (demands.len() + first_duplicates) as usize,
            duplicate_demands_removed: first_duplicates,
            visible_demands: count_visible(demands) as usize,
            prefetch_demands: (demands.len() - count_visible(demands)) as usize,
            ..view.metrics
        },
        ..view
    };
    lemma_demanded_tracked(counted, demands);
    assert(once.resources == reconciled(counted, demands).resources);
    let recounted = RuntimeView {
        metrics: RuntimeCounters {
            total_demands: (demands.len() + second_duplicates) as usize,
            duplicate_demands_removed: second_duplicates,
            visible_demands: count_visible(demands) as usize,
            prefetch_demands: (demands.len() - count_visible(demands)) as usize,
            ..once.metrics
        },
        ..once
    };
    lemma_tracked_demands_request_nothing(recounted, demands);
}

fn find_resource(entries: &Vec<ResourceEntry>, key: TileKey) -> (r: Option<usize>)
    ensures
        match r {
            Some(i) => resource_index(entries@, key) == Some(i as int) && i < entries.len(),
            None => resource_index(entries@, key) is None,
        },
{
    let mut i: usize = 0;
    while i < entries.len()
        invariant
            0 <= i <= entries.len(),
            forall|j: int| 0 <= j < i ==> entries@[j].key != key,
        decreases entries.len() - i,
    {
        if entries[i].key == key {
            proof {
                assert(is_first_resource(entries@, key, i as int));
                lemma_resource_index_at(entries@, key, i as int);
            }
            return Some(i);
        }
        i = i + 1;
    }
    None
}

fn set_state(entries: &mut Vec<ResourceEntry>, key: TileKey, state: ResourceState)
    ensures
        final(entries)@ == with_state(old(entries)@, key, state),
{
    match find_resource(entries, key) {
        Some(i) => {
            let entry = entries[i];
            entries.set(i, ResourceEntry { state, ..entry });
        },
        None => {},
    }
}

fn put_entry(entries: &mut Vec<ResourceEntry>, entry: ResourceEntry)
    ensures
        final(entries)@ == with_entry(old(entries)@, entry),
{
    match find_resource(entries, entry.key) {
        Some(i) => {
            entries.set(i, entry);
        },
        None => {
            entries.push(entry);
        },
    }
}

proof fn lemma_count_bounded(entries: Seq<ResourceEntry>, state: ResourceState)
    ensures
        count_state(entries, state) <= entries.len(),
    decreases entries.len(),
{
    if entries.len() > 0 {
        lemma_count_bounded(entries.drop_last(), state);
    }
}

proof fn lemma_waiting_bounded(entries: Seq<ResourceEntry>)
    ensures
        count_state(entries, ResourceState::Queued) + count_state(entries, ResourceState::Decoding)
            <= entries.len(),
    decreases entries.len(),
{
    if entries.len() > 0 {
        lemma_waiting_bounded(entries.drop_last());
    }
}

fn count_in(entries: &Vec<ResourceEntry>, state: ResourceState) -> (r: usize)
    ensures
        r == count_state(entries@, state),
{
    let mut count: usize = 0;
    let mut i: usize = 0;
    while i < entries.len()
        invariant
            0 <= i <= entries.len(),
            count == count_state(entries@.subrange(0, i as int), state),
        decreases entries.len() - i,
    {
        proof {
            assert(entries@.subrange(0, i as int + 1).drop_last() =~= entries@.subrange(0, i as int));
            lemma_count_bounded(entries@.subrange(0, i as int), state);
        }
        if entries[i].state == state {
            count = count + 1;
        }
        i = i + 1;
    }
    proof {
        assert(entries@.subrange(0, entries@.len() as int) =~= entries@);
    }
    count
}

fn visible_count(demands: &Vec<TileDemand>) -> (r: usize)
    ensures
        r == count_visible(demands@),
        r <= demands.len(),
{
    let mut count: usize = 0;
    let mut i: usize = 0;
    while i < demands.len()
        invariant
            0 <= i <= demands.len(),
            count == count_visible(demands@.subrange(0, i as int)),
            count <= i,
        decreases demands.len() - i,
    {
        proof {
            assert(demands@.subrange(0, i as int + 1).drop_last() =~= demands@.subrange(0, i as int));
        }
        match demands[i].priority {
            DemandPriority::Visible => {
                count = count + 1;
            },
            DemandPriority::Prefetch => {},
        }
        i = i + 1;
    }
    proof {
        assert(demands@.subrange(0, demands@.len() as int) =~= demands@);
    }
    count
}


/// The failure keys are distinct.
pub open spec fn failure_keys_distinct(failures: Seq<(TileKey, Seq<char>)>) -> bool {
    forall|i: int, j: int|
        0 <= i < failures.len() && 0 <= j < failures.len() && i != j ==> #[trigger] failures[i].0
            != #[trigger] failures[j].0
}

fn record_failure(failures: &mut Vec<(TileKey, String)>, key: TileKey, message: String)
    requires
        failure_keys_distinct(failure_views(old(failures)@)),
    ensures
        failure_views(final(failures)@) == with_failure(failure_views(old(failures)@), key, message@),
        failure_keys_distinct(failure_views(final(failures)@)),
{
    let ghost before = failure_views(failures@);
    let mut i: usize = 0;
    while i < failures.len()
        invariant
            0 <= i <= failures.len(),
            before == failure_views(failures@),
            before == failure_views(old(failures)@),
            failure_keys_distinct(before),
            forall|j: int| 0 <= j < i ==> before[j].0 != key,
        decreases failures.len() - i,
    {
        if failures[i].0 == key {
            proof {
                assert(before[i as int].0 == key);
            }
            failures.set(i, (key, message));
            proof {
                let k = choose|k: int| 0 <= k < before.len() && before[k].0 == key;
                if k != i {
                    assert(before[k].0 != before[i as int].0);
                }
                assert(failure_views(failures@) =~= before.update(i as int, (key, message@)));
                let after = failure_views(failures@);
                assert forall|a: int, b: int|
                    0 <= a < after.len() && 0 <= b < after.len() && a != b implies #[trigger] after[a].0
                    != #[trigger] after[b].0 by {
                    assert(before[a].0 != before[b].0);
                }
            }
            return;
        }
        i = i + 1;
    }
    failures.push((key, message));
    proof {
        assert(failure_views(failures@) =~= before.push((key, message@)));
        let after = failure_views(failures@);
        assert forall|a: int, b: int|
            0 <= a < after.len() && 0 <= b < after.len() && a != b implies #[trigger] after[a].0
            != #[trigger] after[b].0 by {
            if a < before.len() && b < before.len() {
                assert(before[a].0 != before[b].0);
            }
        }
    }
}

/// The bytes waiting for upload in the decoded events from `k` on.
pub open spec fn pending_bytes(events: Seq<EventView>) -> int
    decreases events.len(),
{
    if events.len() == 0 {
        0
    } else {
        pending_bytes(events.drop_last()) + upload_bytes(events.last())
    }
}

/// Zero counters.
pub open spec fn zero_counters() -> RuntimeCounters {
    RuntimeCounters {
        total_demands: 0,
        visible_demands: 0,
        prefetch_demands: 0,
        duplicate_demands_removed: 0,
        cache_hits: 0,
        cache_misses: 0,
        queued: 0,
        in_flight: 0,
        completed: 0,
        failed: 0,
        stale_discarded: 0,
        worker_queue_depth: 0,
    }
}

/// The view after reconciling `demands`, of which `duplicates` more were
/// removed as duplicates: the demand counters set, each demand reconciled,
/// and the queue depths counted.
pub open spec fn after_reconcile(view: RuntimeView, demands: Seq<TileDemand>, duplicates: usize) -> RuntimeView {
    let counted = RuntimeView {
        metrics: RuntimeCounters {
            total_demands: (demands.len() + duplicates) as usize,
            duplicate_demands_removed: duplicates,
            visible_demands: count_visible(demands) as usize,
            prefetch_demands: (demands.len() - count_visible(demands)) as usize,
            ..view.metrics
        },
        ..view
    };
    let done = reconciled(counted, demands);
    RuntimeView { metrics: with_depths(done.metrics, done.resources), ..done }
}

/// The view after accepting a fresh `event`: a completed decode makes its
/// tile decoded and waits for upload; a failure is recorded and makes its
/// tile failed. The queue depths are counted again.
pub open spec fn after_event(view: RuntimeView, event: EventView) -> RuntimeView {
    let (key, _) = event_key(event);
    let next = match event {
        EventView::Completed { .. } => RuntimeView {
            resources: with_state(view.resources, key, ResourceState::Decoded),
            decoded: view.decoded.push(event),
            metrics: RuntimeCounters { completed: (view.metrics.completed + 1) as u64, ..view.metrics },
            ..view
        },
        EventView::Failed { message, .. } => RuntimeView {
            resources: with_state(view.resources, key, ResourceState::Failed),
            failures: with_failure(view.failures, key, message),
            metrics: RuntimeCounters { failed: (view.metrics.failed + 1) as u64, ..view.metrics },
            ..view
        },
    };
    RuntimeView { metrics: with_depths(next.metrics, next.resources), ..next }
}

impl Runtime {
    /// The invariant of the runtime.
    pub closed spec fn well_formed(&self) -> bool {
        runtime_valid(self@)
    }

    /// A runtime in its first generation, tracking nothing.
    pub fn new() -> (r: Self)
        ensures
            r.well_formed(),
            r@.generation == 1,
            r@.resources == Seq::<ResourceEntry>::empty(),
            r@.requests == Seq::<(TileKey, u64)>::empty(),
            r@.decoded == Seq::<EventView>::empty(),
            r@.failures == Seq::<(TileKey, Seq<char>)>::empty(),
            r@.metrics == zero_counters(),
    {
        let r = Runtime {
            generation: 1,
            resources: Vec::new(),
            requests: VecDeque::new(),
            decoded: VecDeque::new(),
            failures: Vec::new(),
            metrics: RuntimeCounters {
                total_demands: 0,
                visible_demands: 0,
                prefetch_demands: 0,
                duplicate_demands_removed: 0,
                cache_hits: 0,
                cache_misses: 0,
                queued: 0,
                in_flight: 0,
                completed: 0,
                failed: 0,
                stale_discarded: 0,
                worker_queue_depth: 0,
            },
        };
        proof {
            assert(r@.decoded =~= Seq::<EventView>::empty());
            assert(r@.failures =~= Seq::<(TileKey, Seq<char>)>::empty());
        }
        r
    }

    /// The current generation; results of earlier ones are stale.
    pub fn generation(&self) -> (r: u64)
        ensures
            r == self@.generation,
    {
        self.generation
    }

    /// Starts a new generation.
    pub fn invalidate(&mut self)
        requires
            old(self).well_formed(),
            old(self)@.generation < u64::MAX,
        ensures
            final(self).well_formed(),
            final(self)@ == (RuntimeView { generation: (old(self)@.generation + 1) as u64, ..old(self)@ }),
    {
        self.generation = self.generation + 1;
    }

    /// The state of a tile.
    pub fn state(&self, key: TileKey) -> (r: ResourceState)
        ensures
            r == state_of(self@.resources, key),
    {
        match find_resource(&self.resources, key) {
            Some(i) => self.resources[i].state,
            None => ResourceState::Missing,
        }
    }

    /// Reconciles the demands of a frame, `duplicates` more having been
    /// removed as duplicates: counts them, then in order counts a tracked tile
    /// as a hit, leaves a failed one alone, and queues and requests any other
    /// as a miss; then counts the queue depths.
    pub fn reconcile(&mut self, demands: &Vec<TileDemand>, duplicates: usize)
        requires
            old(self).well_formed(),
            demands.len() + duplicates <= usize::MAX,
            old(self)@.metrics.cache_hits + demands.len() <= u64::MAX,
            old(self)@.metrics.cache_misses + demands.len() <= u64::MAX,
        ensures
            final(self).well_formed(),
            final(self)@ == after_reconcile(old(self)@, demands@, duplicates),
    {
        let visible = visible_count(demands);
        self.metrics.total_demands = demands.len() + duplicates;
        self.metrics.duplicate_demands_removed = duplicates;
        self.metrics.visible_demands = visible;
        self.metrics.prefetch_demands = demands.len() - visible;
        let ghost counted = self@;
        proof {
            assert(counted =~= RuntimeView {
                metrics: RuntimeCounters {
                    total_demands: (demands@.len() + duplicates) as usize,
                    duplicate_demands_removed: duplicates,
                    visible_demands: count_visible(demands@) as usize,
                    prefetch_demands: (demands@.len() - count_visible(demands@)) as usize,
                    ..old(self)@.metrics
                },
                ..old(self)@
            });
            assert(demands@.subrange(0, 0) =~= Seq::<TileDemand>::empty());
        }
        let mut i: usize = 0;
        while i < demands.len()
            invariant
                0 <= i <= demands.len(),
                runtime_valid(self@),
                self@ == reconciled(counted, demands@.subrange(0, i as int)),
                self@.metrics.cache_hits <= counted.metrics.cache_hits + i,
                self@.metrics.cache_misses <= counted.metrics.cache_misses + i,
                counted.metrics.cache_hits + demands.len() <= u64::MAX,
                counted.metrics.cache_misses + demands.len() <= u64::MAX,
            decreases demands.len() - i,
        {
            let ghost before = self@;
            let demand = demands[i];
            proof {
                assert(demands@.subrange(0, i as int + 1).drop_last() =~= demands@.subrange(0, i as int));
                assert(demands@.subrange(0, i as int + 1).last() == demand);
            }
            let state = match find_resource(&self.resources, demand.key) {
                Some(k) => self.resources[k].state,
                None => ResourceState::Missing,
            };
            match state {
                ResourceState::Failed => {},
                ResourceState::Missing => {
                    self.metrics.cache_misses = self.metrics.cache_misses + 1;
                    let entry = ResourceEntry {
                        key: demand.key,
                        state: ResourceState::Queued,
                        generation: demand.generation,
                    };
                    proof {
                        lemma_with_entry(before.resources, entry, demand.key);
                    }
                    put_entry(&mut self.resources, entry);
                    self.requests.push_back((demand.key, demand.generation));
                },
                _ => {
                    self.metrics.cache_hits = self.metrics.cache_hits + 1;
                },
            }
            proof {
                assert(self@ =~= reconcile_step(before, demand));
            }
            i = i + 1;
        }
        proof {
            assert(demands@.subrange(0, demands@.len() as int) =~= demands@);
        }
        self.update_depths();
        proof {
            assert(self@ =~= after_reconcile(old(self)@, demands@, duplicates));
        }
    }

    /// Takes the oldest tile waiting for a decode request, with the generation
    /// it was demanded in, and marks it as decoding.
    pub fn take_external_request(&mut self) -> (r: Option<(TileKey, u64)>)
        requires
            old(self).well_formed(),
        ensures
            final(self).well_formed(),
            old(self)@.requests.len() == 0 ==> r is None && final(self)@ == old(self)@,
            old(self)@.requests.len() > 0 ==> {
                let (key, generation) = old(self)@.requests[0];
                let resources = with_state(old(self)@.resources, key, ResourceState::Decoding);
                &&& r == Some(old(self)@.requests[0])
                &&& final(self)@ == (RuntimeView {
                    requests: old(self)@.requests.subrange(1, old(self)@.requests.len() as int),
                    resources,
                    metrics: with_depths(old(self)@.metrics, resources),
                    ..old(self)@
                })
            },
    {
        let request = match self.requests.pop_front() {
            Some(request) => request,
            None => {
                return None;
            },
        };
        proof {
            lemma_with_state(self.resources@, request.0, ResourceState::Decoding, request.0);
        }
        set_state(&mut self.resources, request.0, ResourceState::Decoding);
        self.update_depths();
        proof {
            let (key, generation) = old(self)@.requests[0];
            let resources = with_state(old(self)@.resources, key, ResourceState::Decoding);
            assert(self@ =~= RuntimeView {
                requests: old(self)@.requests.subrange(1, old(self)@.requests.len() as int),
                resources,
                metrics: with_depths(old(self)@.metrics, resources),
                ..old(self)@
            });
        }
        Some(request)
    }

    /// Accepts what a decode gave. A stale result is only counted. A completed
    /// decode makes its tile decoded and waits for upload; a failure is
    /// recorded and makes its tile failed. Returns whether a completed decode
    /// was accepted.
    pub fn accept_event(&mut self, event: DecodeEvent) -> (accepted: bool)
        requires
            old(self).well_formed(),
            old(self)@.metrics.stale_discarded < u64::MAX,
            old(self)@.metrics.completed < u64::MAX,
            old(self)@.metrics.failed < u64::MAX,
        ensures
            final(self).well_formed(),
            is_stale(old(self)@, event@) ==> !accepted && final(self)@ == (RuntimeView {
                metrics: RuntimeCounters {
                    stale_discarded: (old(self)@.metrics.stale_discarded + 1) as u64,
                    ..old(self)@.metrics
                },
                ..old(self)@
            }),
            !is_stale(old(self)@, event@) ==> accepted == (event@ is Completed) && final(self)@
                == after_event(old(self)@, event@),
    {
        let (key, generation) = match &event {
            DecodeEvent::Completed { key, generation, .. } => (*key, *generation),
            DecodeEvent::Failed { key, generation, .. } => (*key, *generation),
        };
        let stale = generation != self.generation || match find_resource(&self.resources, key) {
            Some(k) => self.resources[k].generation != generation,
            None => false,
        };
        if stale {
            self.metrics.stale_discarded = self.metrics.stale_discarded + 1;
            proof {
                assert(self@ =~= RuntimeView {
                    metrics: RuntimeCounters {
                        stale_discarded: (old(self)@.metrics.stale_discarded + 1) as u64,
                        ..old(self)@.metrics
                    },
                    ..old(self)@
                });
            }
            return false;
        }
        let completed = match &event {
            DecodeEvent::Completed { .. } => true,
            DecodeEvent::Failed { .. } => false,
        };
        let ghost event_view = event@;
        if completed {
            proof {
                lemma_with_state(self.resources@, key, ResourceState::Decoded, key);
            }
            set_state(&mut self.resources, key, ResourceState::Decoded);
            self.metrics.completed = self.metrics.completed + 1;
            let ghost waiting = self.decoded@;
            self.decoded.push_back(event);
            proof {
                assert(event_views(self.decoded@) =~= event_views(waiting).push(event_view));
            }
        } else {
            match event {
                DecodeEvent::Failed { message, .. } => {
                    record_failure(&mut self.failures, key, message);
                },
                DecodeEvent::Completed { .. } => {},
            }
            proof {
                lemma_with_state(self.resources@, key, ResourceState::Failed, key);
            }
            set_state(&mut self.resources, key, ResourceState::Failed);
            self.metrics.failed = self.metrics.failed + 1;
        }
        self.update_depths();
        proof {
            assert(self@ =~= after_event(old(self)@, event_view));
        }
        completed
    }

    /// Takes the oldest decoded event waiting for upload.
    pub fn pop_decoded(&mut self) -> (r: Option<DecodeEvent>)
        requires
            old(self).well_formed(),
        ensures
            final(self).well_formed(),
            old(self)@.decoded.len() == 0 ==> r is None && final(self)@ == old(self)@,
            old(self)@.decoded.len() > 0 ==> {
                &&& r is Some
                &&& r->0@ == old(self)@.decoded[0]
                &&& final(self)@ == (RuntimeView {
                    decoded: old(self)@.decoded.subrange(1, old(self)@.decoded.len() as int),
                    ..old(self)@
                })
            },
    {
        let r = self.decoded.pop_front();
        proof {
            assert(self@ =~= RuntimeView {
                decoded: event_views(self.decoded@),
                ..old(self)@
            });
            if old(self)@.decoded.len() > 0 {
                assert(event_views(self.decoded@) =~= old(self)@.decoded.subrange(
                    1,
                    old(self)@.decoded.len() as int,
                ));
            }
        }
        r
    }

    /// Marks a tracked tile as resident on the GPU.
    pub fn mark_resident(&mut self, key: TileKey)
        requires
            old(self).well_formed(),
        ensures
            final(self).well_formed(),
            final(self)@ == (RuntimeView {
                resources: with_state(old(self)@.resources, key, ResourceState::Resident),
                ..old(self)@
            }),
    {
        proof {
            lemma_with_state(self.resources@, key, ResourceState::Resident, key);
        }
        set_state(&mut self.resources, key, ResourceState::Resident);
        proof {
            assert(self@ =~= RuntimeView {
                resources: with_state(old(self)@.resources, key, ResourceState::Resident),
                ..old(self)@
            });
        }
    }

    /// The bytes of the decoded tiles waiting for upload.
    pub fn pending_decoded_bytes(&self) -> (r: usize)
        requires
            pending_bytes(self@.decoded) <= usize::MAX,
        ensures
            r == pending_bytes(self@.decoded),
    {
        let ghost all = self@.decoded;
        let mut total: usize = 0;
        let mut i: usize = 0;
        while i < self.decoded.len()
            invariant
                0 <= i <= self.decoded@.len(),
                all == event_views(self.decoded@),
                pending_bytes(all) <= usize::MAX,
                total == pending_bytes(all.subrange(0, i as int)),
            decreases self.decoded@.len() - i,
        {
            proof {
                assert(all.subrange(0, i as int + 1).drop_last() =~= all.subrange(0, i as int));
                lemma_pending_prefix(all, i as int + 1);
            }
            let bytes = match &self.decoded[i] {
                DecodeEvent::Completed { scalar_u16_le, .. } => scalar_u16_le.len(),
                DecodeEvent::Failed { .. } => 0,
            };
            total = total + bytes;
            i = i + 1;
        }
        proof {
            assert(all.subrange(0, all.len() as int) =~= all);
        }
        total
    }

    fn update_depths(&mut self)
        ensures
            final(self)@ == (RuntimeView {
                metrics: with_depths(old(self)@.metrics, old(self)@.resources),
                ..old(self)@
            }),
    {
        let queued = count_in(&self.resources, ResourceState::Queued);
        let in_flight = count_in(&self.resources, ResourceState::Decoding);
        proof {
            lemma_waiting_bounded(self.resources@);
            assert(self.resources@.len() == self.resources.len());
        }
        let depth = queued + in_flight;
        self.metrics.queued = queued;
        self.metrics.in_flight = in_flight;
        self.metrics.worker_queue_depth = depth;
    }
}

proof fn lemma_pending_prefix(events: Seq<EventView>, k: int)
    requires
        0 <= k <= events.len(),
    ensures
        pending_bytes(events.subrange(0, k)) <= pending_bytes(events),
    decreases events.len() - k,
{
    if k < events.len() {
        lemma_pending_prefix(events, k + 1);
        assert(events.subrange(0, k + 1).drop_last() =~= events.subrange(0, k));
        assert(upload_bytes(events[k]) >= 0);
    } else {
        assert(events.subrange(0, k) =~= events);
    }
}


} // verus!
