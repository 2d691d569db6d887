//! Tile payloads and their decoding, the per-frame upload budget, and the
//! least-recently-used residency cache of decoded tiles.
use std::collections::VecDeque;
use vstd::prelude::*;

use crate::ids::SourceId;

verus! {

/// The side of a full tile, in samples.
pub const TILE_SIZE: u32 = 256;

/// The byte budget of the residency cache unless configured otherwise.
pub const DEFAULT_CACHE_BUDGET: usize = 64 * 1024 * 1024;

/// The bytes that may be uploaded per frame unless configured otherwise.
pub const DEFAULT_UPLOAD_BUDGET: usize = 4 * 1024 * 1024;

/// One tile of an image source at a pyramid level.
#[derive(Clone, Copy, Debug, PartialEq, Eq, Hash, PartialOrd, Ord, Structural)]
pub struct TileKey {
    pub source: SourceId,
    pub level: u8,
    pub x: u32,
    pub y: u32,
}

/// A tile to decode: its LZ4 payload with the uncompressed size prepended.
#[derive(Debug)]
pub struct DecodeRequest {
    pub key: TileKey,
    pub generation: u64,
    pub compressed_lz4: Vec<u8>,
}

/// What decoding a tile gave: its samples as little-endian `u16` bytes, with
/// the time it took (the bit pattern of an `f64` count of milliseconds), or
/// why it failed.
#[derive(Debug)]
pub enum DecodeEvent {
    Completed { key: TileKey, generation: u64, scalar_u16_le: Vec<u8>, decode_ms_bits: u64 },
    Failed { key: TileKey, generation: u64, message: String },
}

pub enum EventView {
    Completed { key: TileKey, generation: u64, scalar_u16_le: Seq<u8>, decode_ms_bits: u64 },
    Failed { key: TileKey, generation: u64, message: Seq<char> },
}

impl View for DecodeEvent {
    type V = EventView;

    open spec fn view(&self) -> EventView {
        match self {
            DecodeEvent::Completed { key, generation, scalar_u16_le, decode_ms_bits } =>
                EventView::Completed {
                key: *key,
                generation: *generation,
                scalar_u16_le: scalar_u16_le@,
                decode_ms_bits: *decode_ms_bits,
            },
            DecodeEvent::Failed { key, generation, message } => EventView::Failed {
                key: *key,
                generation: *generation,
                message: message@,
            },
        }
    }
}

/// The views of a sequence of events, in order.
pub open spec fn event_views(events: Seq<DecodeEvent>) -> Seq<EventView> {
    events.map_values(|e: DecodeEvent| e@)
}

/// The samples as bytes, each little-endian.
pub open spec fn le_bytes(samples: Seq<u16>) -> Seq<u8> {
    Seq::new(
        2 * samples.len(),
        |i: int|
            if i % 2 == 0 {
                (samples[i / 2] % 256) as u8
            } else {
                (samples[i / 2] / 256) as u8
            },
    )
}

/// What `lz4_flex::compress_prepend_size` makes of the bytes.
pub uninterp spec fn lz4_compressed(input: Seq<u8>) -> Seq<u8>;

/// What `lz4_flex::decompress_size_prepended` makes of the bytes: the
/// decompressed bytes, or the text of the error.
pub uninterp spec fn lz4_decompressed(input: Seq<u8>) -> Result<Seq<u8>, Seq<char>>;

/// Calls `lz4_flex::compress_prepend_size`. Claimed: the result is a function
/// of the input alone, and `lz4_flex::decompress_size_prepended` gives the
/// input back from it, as the crate documents the pair. The input's length
/// must fit the `u32` that is prepended.
#[verifier::external_body]
fn lz4_compress(input: &[u8]) -> (r: Vec<u8>)
    requires
        input@.len() <= u32::MAX,
    ensures
        r@ == lz4_compressed(input@),
        lz4_decompressed(r@) is Ok && lz4_decompressed(r@)->Ok_0 == input@,
{
    lz4_flex::compress_prepend_size(input)
}

/// Calls `lz4_flex::decompress_size_prepended` and turns its error into its
/// text. Claimed: the result is a function of the input alone, and an input
/// too short to hold the size gives the crate's "expected another byte" error.
/// Not stated: that the allocation of the announced size succeeds.
#[verifier::external_body]
fn lz4_decompress(input: &[u8]) -> (r: Result<Vec<u8>, String>)
    ensures
        r is Ok ==> lz4_decompressed(input@) is Ok && lz4_decompressed(input@)->Ok_0 == r->Ok_0@,
        r is Err ==> lz4_decompressed(input@) is Err && lz4_decompressed(input@)->Err_0 == r->Err_0@,
        input@.len() < 4 ==> r is Err && r->Err_0@ == "expected another byte, found none"@,
{
    match lz4_flex::decompress_size_prepended(input) {
        Ok(bytes) => Ok(bytes),
        Err(error) => Err(error.to_string()),
    }
}

/// The samples as little-endian bytes.
pub fn samples_le_bytes(samples: &[u16]) -> (r: Vec<u8>)
    requires
        2 * samples@.len() <= usize::MAX,
    ensures
        r@ == le_bytes(samples@),
{
    let mut bytes: Vec<u8> = Vec::new();
    let mut i: usize = 0;
    while i < samples.len()
        invariant
            0 <= i <= samples@.len(),
            2 * samples@.len() <= usize::MAX,
            bytes@ =~= le_bytes(samples@.subrange(0, i as int)),
        decreases samples@.len() - i,
    {
        let sample = samples[i];
        bytes.push((sample % 256) as u8);
        bytes.push((sample / 256) as u8);
        proof {
            let next = samples@.subrange(0, i as int + 1);
            assert forall|j: int| 0 <= j < 2 * i + 2 implies #[trigger] bytes@[j] == le_bytes(
                next,
            )[j] by {
                if j < 2 * i {
                    assert(le_bytes(samples@.subrange(0, i as int))[j] == le_bytes(next)[j]);
                }
            }
            assert(bytes@ =~= le_bytes(next));
        }
        i = i + 1;
    }
    assert(samples@.subrange(0, samples@.len() as int) =~= samples@);
    bytes
}

/// The decode request for a tile whose samples are `samples`: their
/// little-endian bytes, compressed with their size prepended. Decoding the
/// payload gives those bytes back.
pub fn compress_tile(key: TileKey, generation: u64, samples: &[u16]) -> (r: DecodeRequest)
    requires
        2 * samples@.len() <= u32::MAX,
    ensures
        r.key == key,
        r.generation == generation,
        r.compressed_lz4@ == lz4_compressed(le_bytes(samples@)),
        lz4_decompressed(r.compressed_lz4@) == Ok::<Seq<u8>, Seq<char>>(le_bytes(samples@)),
{
    let bytes = samples_le_bytes(samples);
    DecodeRequest { key, generation, compressed_lz4: lz4_compress(bytes.as_slice()) }
}

/// The event that decoding `request` gives: its decompressed bytes, or the
/// decompression error's text. The decode time is left at zero for the caller
/// that measures it.
pub fn decode(request: DecodeRequest) -> (r: DecodeEvent)
    ensures
        r@ == (match lz4_decompressed(request.compressed_lz4@) {
            Ok(bytes) => EventView::Completed {
                key: request.key,
                generation: request.generation,
                scalar_u16_le: bytes,
                decode_ms_bits: 0,
            },
            Err(message) => EventView::Failed {
                key: request.key,
                generation: request.generation,
                message,
            },
        }),
{
    match lz4_decompress(request.compressed_lz4.as_slice()) {
        Ok(scalar_u16_le) => DecodeEvent::Completed {
            key: request.key,
            generation: request.generation,
            scalar_u16_le,
            decode_ms_bits: 0,
        },
        Err(message) => DecodeEvent::Failed {
            key: request.key,
            generation: request.generation,
            message,
        },
    }
}

/// The bytes an event uploads: a completed tile's bytes, nothing for a
/// failure.
pub open spec fn upload_bytes(event: EventView) -> int {
    match event {
        EventView::Completed { scalar_u16_le, .. } => scalar_u16_le.len() as int,
        EventView::Failed { .. } => 0,
    }
}

/// How many events from `start` on are taken, `used` bytes being taken
/// already: the first always, then each while the total stays within budget.
pub open spec fn upload_end(events: Seq<EventView>, start: int, used: int, budget: int) -> int
    decreases events.len() - start,
{
    if start < 0 || start >= events.len() {
        start
    } else if start > 0 && used + upload_bytes(events[start]) > budget {
        start
    } else {
        upload_end(events, start + 1, used + upload_bytes(events[start]), budget)
    }
}

proof fn lemma_upload_end_bounds(events: Seq<EventView>, start: int, used: int, budget: int)
    requires
        0 <= start <= events.len(),
    ensures
        start <= upload_end(events, start, used, budget) <= events.len(),
    decreases events.len() - start,
{
    if start < events.len() && !(start > 0 && used + upload_bytes(events[start]) > budget) {
        lemma_upload_end_bounds(events, start + 1, used + upload_bytes(events[start]), budget);
    }
}

fn event_bytes(event: &DecodeEvent) -> (r: usize)
    ensures
        r == upload_bytes(event@),
{
    match event {
        DecodeEvent::Completed { scalar_u16_le, .. } => scalar_u16_le.len(),
        DecodeEvent::Failed { .. } => 0,
    }
}

/// Takes decoded events from the front of the queue for one frame: always the
/// first, then each following one while the bytes taken stay within
/// `byte_budget`.
pub fn take_upload_budget(queue: &mut VecDeque<DecodeEvent>, byte_budget: usize) -> (r: Vec<DecodeEvent>)
    ensures
        event_views(r@) == event_views(old(queue)@).subrange(
            0,
            upload_end(event_views(old(queue)@), 0, 0, byte_budget as int),
        ),
        event_views(final(queue)@) == event_views(old(queue)@).subrange(
            upload_end(event_views(old(queue)@), 0, 0, byte_budget as int),
            old(queue)@.len() as int,
        ),
{
    let ghost all = event_views(queue@);
    let ghost n = all.len() as int;
    let mut used: usize = 0;
    let mut output: Vec<DecodeEvent> = Vec::new();
    proof {
        lemma_upload_end_bounds(all, 0, 0, byte_budget as int);
        assert(event_views(output@) =~= all.subrange(0, 0));
        assert(event_views(queue@) =~= all.subrange(0, n));
    }
    while queue.len() > 0
        invariant_except_break
            upload_end(all, output@.len() as int, used as int, byte_budget as int) == upload_end(
                all,
                0,
                0,
                byte_budget as int,
            ),
        invariant
            n == all.len(),
            output@.len() + queue@.len() == n,
            output@.len() == 0 ==> used == 0,
            event_views(output@) == all.subrange(0, output@.len() as int),
            event_views(queue@) == all.subrange(output@.len() as int, n),
        ensures
            output@.len() == upload_end(all, 0, 0, byte_budget as int),
        decreases queue@.len(),
    {
        let k = output.len();
        assert(all.subrange(k as int, n)[0] == all[k as int]);
        assert(event_views(queue@)[0] == queue@[0]@);
        let bytes = event_bytes(&queue[0]);
        if k > 0 && (used > byte_budget || bytes > byte_budget - used) {
            break;
        }
        let ghost before_queue = queue@;
        let ghost before_output = output@;
        let next = queue.pop_front();
        match next {
            Some(event) => {
                used = used + bytes;
                output.push(event);
                proof {
                    assert(event_views(output@) =~= all.subrange(0, k as int + 1));
                    assert(event_views(before_queue) == all.subrange(k as int, n));
                    assert forall|j: int| 0 <= j < queue@.len() implies #[trigger] event_views(
                        queue@,
                    )[j] == all[k + 1 + j] by {
                        assert(queue@[j] == before_queue[j + 1]);
                        assert(event_views(before_queue)[j + 1] == all[k + 1 + j]);
                    }
                    assert(event_views(queue@) =~= all.subrange(k as int + 1, n));
                }
            },
            None => {},
        }
    }
    output
}


/// One resident tile: its size in bytes and when it was last used.
#[derive(Clone, Copy, Debug, PartialEq, Eq, Structural)]
pub struct CacheEntry {
    pub key: TileKey,
    pub bytes: usize,
    pub touched: u64,
}

/// The bytes of all the entries.
pub open spec fn total_bytes(entries: Seq<CacheEntry>) -> int
    decreases entries.len(),
{
    if entries.len() == 0 {
        0
    } else {
        total_bytes(entries.drop_last()) + entries.last().bytes
    }
}

/// `i` is the first entry of `key`.
pub open spec fn is_first_entry(entries: Seq<CacheEntry>, key: TileKey, i: int) -> bool {
    &&& 0 <= i < entries.len()
    &&& entries[i].key == key
    &&& forall|j: int| 0 <= j < i ==> entries[j].key != key
}

/// The position of the entry of `key`, if it is resident.
pub open spec fn entry_index(entries: Seq<CacheEntry>, key: TileKey) -> Option<int> {
    if exists|i: int| 0 <= i < entries.len() && entries[i].key == key {
        Some(choose|i: int| is_first_entry(entries, key, i))
    } else {
        None
    }
}

/// `i` is the least recently used entry other than `keep`.
pub open spec fn is_oldest(entries: Seq<CacheEntry>, keep: TileKey, i: int) -> bool {
    &&& 0 <= i < entries.len()
    &&& entries[i].key != keep
    &&& forall|j: int|
        0 <= j < entries.len() && entries[j].key != keep ==> entries[i].touched
            <= #[trigger] entries[j].touched
}

/// The least recently used entry other than `keep`.
pub open spec fn oldest(entries: Seq<CacheEntry>, keep: TileKey) -> int {
    choose|i: int| is_oldest(entries, keep, i)
}

/// Evicting least recently used entries other than `keep` while more than
/// one entry is resident and the bytes exceed the budget: the keys evicted,
/// in order, the entries left and their bytes.
pub open spec fn evict(entries: Seq<CacheEntry>, used: int, budget: int, keep: TileKey) -> (Seq<TileKey>, Seq<CacheEntry>, int)
    decreases entries.len(),
{
    if used > budget && entries.len() > 1 && exists|j: int|
        0 <= j < entries.len() && entries[j].key != keep {
        let victim = oldest(entries, keep);
        if 0 <= victim < entries.len() {
            let rest = evict(entries.remove(victim), used - entries[victim].bytes, budget, keep);
            (seq![entries[victim].key] + rest.0, rest.1, rest.2)
        } else {
            (Seq::empty(), entries, used)
        }
    } else {
        (Seq::empty(), entries, used)
    }
}

/// The entries and their bytes once `key` is resident with `bytes`, used at
/// `touched`: its entry replaced, or appended.
pub open spec fn with_entry(entries: Seq<CacheEntry>, used: int, key: TileKey, bytes: usize, touched: u64) -> (Seq<CacheEntry>, int) {
    let entry = CacheEntry { key, bytes, touched };
    match entry_index(entries, key) {
        Some(i) => (entries.update(i, entry), used - entries[i].bytes + bytes),
        None => (entries.push(entry), used + bytes),
    }
}

/// Each tile has at most one entry, entries were used at distinct times no
/// later than the clock, and `used` is the bytes of the entries.
pub open spec fn cache_valid(entries: Seq<CacheEntry>, used: int, clock: u64) -> bool {
    &&& used == total_bytes(entries)
    &&& forall|i: int, j: int|
        0 <= i < entries.len() && 0 <= j < entries.len() && i != j ==> #[trigger] entries[i].key
            != #[trigger] entries[j].key && entries[i].touched != entries[j].touched
    &&& forall|i: int| 0 <= i < entries.len() ==> #[trigger] entries[i].touched <= clock
}

proof fn lemma_has_first_entry(entries: Seq<CacheEntry>, key: TileKey, k: int)
    requires
        0 <= k < entries.len(),
        entries[k].key == key,
    ensures
        exists|i: int| is_first_entry(entries, key, i),
    decreases k,
{
    if exists|j: int| 0 <= j < k && entries[j].key == key {
        let j = choose|j: int| 0 <= j < k && entries[j].key == key;
        lemma_has_first_entry(entries, key, j);
    } else {
        assert(is_first_entry(entries, key, k));
    }
}

proof fn lemma_entry_index_is_first(entries: Seq<CacheEntry>, key: TileKey)
    requires
        entry_index(entries, key) is Some,
    ensures
        is_first_entry(entries, key, entry_index(entries, key)->0),
{
    let k = choose|k: int| 0 <= k < entries.len() && entries[k].key == key;
    lemma_has_first_entry(entries, key, k);
}

proof fn lemma_total_remove(entries: Seq<CacheEntry>, i: int)
    requires
        0 <= i < entries.len(),
    ensures
        total_bytes(entries.remove(i)) == total_bytes(entries) - entries[i].bytes,
        total_bytes(entries.remove(i)) >= 0,
    decreases entries.len(),
{
    let n = entries.len() as int;
    if i == n - 1 {
        assert(entries.remove(i) =~= entries.drop_last());
        lemma_total_nonneg(entries.drop_last());
    } else {
        lemma_total_remove(entries.drop_last(), i);
        assert(entries.remove(i).drop_last() =~= entries.drop_last().remove(i));
        assert(entries.remove(i).last() == entries.last());
    }
}

proof fn lemma_total_nonneg(entries: Seq<CacheEntry>)
    ensures
        total_bytes(entries) >= 0,
    decreases entries.len(),
{
    if entries.len() > 0 {
        lemma_total_nonneg(entries.drop_last());
    }
}

proof fn lemma_total_update(entries: Seq<CacheEntry>, i: int, entry: CacheEntry)
    requires
        0 <= i < entries.len(),
    ensures
        total_bytes(entries.update(i, entry)) == total_bytes(entries) - entries[i].bytes
            + entry.bytes,
    decreases entries.len(),
{
    let n = entries.len() as int;
    if i == n - 1 {
        assert(entries.update(i, entry).drop_last() =~= entries.drop_last());
    } else {
        lemma_total_update(entries.drop_last(), i, entry);
        assert(entries.update(i, entry).drop_last() =~= entries.drop_last().update(i, entry));
    }
}

proof fn lemma_oldest_is(entries: Seq<CacheEntry>, used: int, clock: u64, keep: TileKey, i: int)
    requires
        is_oldest(entries, keep, i),
        cache_valid(entries, used, clock),
    ensures
        oldest(entries, keep) == i,
{
    let k = oldest(entries, keep);
    assert(is_oldest(entries, keep, k));
    assert(entries[k].touched <= entries[i].touched);
    assert(entries[i].touched <= entries[k].touched);
    if k != i {
        assert(entries[k].key != entries[i].key);
    }
}

/// Removing entries keeps them valid.
proof fn lemma_valid_remove(entries: Seq<CacheEntry>, used: int, clock: u64, i: int)
    requires
        cache_valid(entries, used, clock),
        0 <= i < entries.len(),
    ensures
        cache_valid(entries.remove(i), used - entries[i].bytes, clock),
{
    lemma_total_remove(entries, i);
    let rest = entries.remove(i);
    assert forall|a: int, b: int|
        0 <= a < rest.len() && 0 <= b < rest.len() && a != b implies #[trigger] rest[a].key
        != #[trigger] rest[b].key && rest[a].touched != rest[b].touched by {
        let aa = if a < i { a } else { a + 1 };
        let bb = if b < i { b } else { b + 1 };
        assert(rest[a] == entries[aa]);
        assert(rest[b] == entries[bb]);
        assert(entries[aa].key != entries[bb].key);
    }
    assert forall|a: int| 0 <= a < rest.len() implies #[trigger] rest[a].touched <= clock by {
        let aa = if a < i { a } else { a + 1 };
        assert(rest[a] == entries[aa]);
    }
}

/// Eviction stops within budget unless only `keep` is left, and never
/// evicts `keep`.
proof fn lemma_evict_outcome(entries: Seq<CacheEntry>, used: int, budget: int, keep: TileKey, clock: u64)
    requires
        cache_valid(entries, used, clock),
        entry_index(entries, keep) is Some,
    ensures
        evict(entries, used, budget, keep).2 <= budget || evict(
            entries,
            used,
            budget,
            keep,
        ).1.len() == 1,
        entry_index(evict(entries, used, budget, keep).1, keep) is Some,
        cache_valid(evict(entries, used, budget, keep).1, evict(entries, used, budget, keep).2, clock),
        evict(entries, used, budget, keep).0.len() + evict(entries, used, budget, keep).1.len()
            == entries.len(),
    decreases entries.len(),
{
    lemma_entry_index_is_first(entries, keep);
    let p = entry_index(entries, keep)->0;
    if used > budget && entries.len() > 1 && exists|j: int|
        0 <= j < entries.len() && entries[j].key != keep {
        let victim = oldest(entries, keep);
        let j0 = choose|j: int| 0 <= j < entries.len() && entries[j].key != keep;
        lemma_has_oldest(entries, keep, j0);
        assert(is_oldest(entries, keep, victim));
        let rest = entries.remove(victim);
        lemma_valid_remove(entries, used, clock, victim);
        let pp = if p < victim { p } else { p - 1 };
        assert(rest[pp] == entries[p]);
        lemma_has_first_entry(rest, keep, pp);
        lemma_evict_outcome(rest, used - entries[victim].bytes, budget, keep, clock);
    } else if !(used <= budget) && entries.len() > 1 {
        let other = if p == 0 { 1int } else { 0int };
        assert(entries[other].key != entries[p].key);
    }
}

proof fn lemma_has_oldest(entries: Seq<CacheEntry>, keep: TileKey, k: int)
    requires
        0 <= k < entries.len(),
        entries[k].key != keep,
    ensures
        exists|i: int| is_oldest(entries, keep, i),
    decreases entries.len(),
{
    let n = entries.len() as int;
    if n == 1 {
        assert(is_oldest(entries, keep, 0));
    } else {
        let init = entries.drop_last();
        let last = entries.last();
        if exists|j: int| 0 <= j < n - 1 && init[j].key != keep {
            let j = choose|j: int| 0 <= j < n - 1 && init[j].key != keep;
            lemma_has_oldest(init, keep, j);
            let i = choose|i: int| is_oldest(init, keep, i);
            if last.key == keep || init[i].touched <= last.touched {
                assert forall|m: int|
                    0 <= m < n && entries[m].key != keep implies entries[i].touched
                    <= #[trigger] entries[m].touched by {
                    if m < n - 1 {
                        assert(init[m] == entries[m]);
                    }
                }
                assert(is_oldest(entries, keep, i));
            } else {
                assert forall|m: int|
                    0 <= m < n && entries[m].key != keep implies entries[n - 1].touched
                    <= #[trigger] entries[m].touched by {
                    if m < n - 1 {
                        assert(init[m] == entries[m]);
                        assert(init[i].touched <= init[m].touched);
                    }
                }
                assert(is_oldest(entries, keep, n - 1));
            }
        } else {
            if k < n - 1 {
                assert(init[k] == entries[k]);
            }
            assert forall|m: int|
                0 <= m < n && entries[m].key != keep implies entries[n - 1].touched
                <= #[trigger] entries[m].touched by {
                if m < n - 1 {
                    assert(init[m] == entries[m]);
                }
            }
            assert(is_oldest(entries, keep, n - 1));
        }
    }
}


/// A least-recently-used cache of decoded tiles, bounded by bytes.
#[derive(Debug)]
pub struct TileCache {
    budget: usize,
    used: usize,
    clock: u64,
    entries: Vec<CacheEntry>,
    pub evictions: u64,
}

/// The budget, the bytes in use, the use clock, the resident entries in the
/// order they became resident, and how many tiles were evicted.
pub struct CacheView {
    pub budget: usize,
    pub used: usize,
    pub clock: u64,
    pub entries: Seq<CacheEntry>,
    pub evictions: u64,
}

impl View for TileCache {
    type V = CacheView;

    closed spec fn view(&self) -> CacheView {
        CacheView {
            budget: self.budget,
            used: self.used,
            clock: self.clock,
            entries: self.entries@,
            evictions: self.evictions,
        }
    }
}

fn find_entry(entries: &Vec<CacheEntry>, key: TileKey) -> (r: Option<usize>)
    ensures
        match r {
            Some(i) => entry_index(entries@, key) == Some(i as int) && i < entries.len(),
            None => entry_index(entries@, key) is None,
        },
{
    let mut i: usize = 0;
    while i < entries.len()
        invariant
            0 <= i <= entries.len(),
            forall|j: int| 0 <= j < i ==> entries@[j].key != key,
        decreases entries.len() - i,
    {
        if entries[i].key == key {
            proof {
                lemma_has_first_entry(entries@, key, i as int);
                let k = choose|k: int| is_first_entry(entries@, key, k);
                assert(is_first_entry(entries@, key, k));
                assert(is_first_entry(entries@, key, i as int));
            }
            return Some(i);
        }
        i = i + 1;
    }
    None
}

fn find_oldest(entries: &Vec<CacheEntry>, keep: TileKey) -> (r: Option<usize>)
    ensures
        match r {
            Some(i) => is_oldest(entries@, keep, i as int),
            None => forall|j: int| 0 <= j < entries@.len() ==> entries@[j].key == keep,
        },
{
    let mut best: Option<usize> = None;
    let mut i: usize = 0;
    while i < entries.len()
        invariant
            0 <= i <= entries.len(),
            match best {
                Some(b) => b < i && entries@[b as int].key != keep && forall|j: int|
                    0 <= j < i && entries@[j].key != keep ==> entries@[b as int].touched
                        <= #[trigger] entries@[j].touched,
                None => forall|j: int| 0 <= j < i ==> entries@[j].key == keep,
            },
        decreases entries.len() - i,
    {
        let entry = entries[i];
        if entry.key != keep {
            match best {
                Some(b) => {
                    if entry.touched < entries[b].touched {
                        best = Some(i);
                    }
                },
                None => {
                    best = Some(i);
                },
            }
        }
        i = i + 1;
    }
    best
}

impl TileCache {
    /// The invariant of the cache.
    pub closed spec fn well_formed(&self) -> bool {
        cache_valid(self.entries@, self.used as int, self.clock)
    }

    /// An empty cache holding at most `budget` bytes.
    pub fn new(budget: usize) -> (r: Self)
        ensures
            r.well_formed(),
            r@.budget == budget,
            r@.used == 0,
            r@.clock == 0,
            r@.entries == Seq::<CacheEntry>::empty(),
            r@.evictions == 0,
    {
        TileCache { budget, used: 0, clock: 0, entries: Vec::new(), evictions: 0 }
    }

    /// The bytes of the resident tiles.
    pub fn used(&self) -> (r: usize)
        ensures
            r == self@.used,
    {
        self.used
    }

    /// The most bytes the cache keeps, unless a single tile is larger.
    pub fn budget(&self) -> (r: usize)
        ensures
            r == self@.budget,
    {
        self.budget
    }

    /// Whether `key` is resident; if it is, it becomes the most recently used.
    pub fn contains(&mut self, key: TileKey) -> (r: bool)
        requires
            old(self).well_formed(),
            old(self)@.clock < u64::MAX,
        ensures
            final(self).well_formed(),
            r == entry_index(old(self)@.entries, key) is Some,
            final(self)@.clock == old(self)@.clock + 1,
            final(self)@.entries == (match entry_index(old(self)@.entries, key) {
                Some(i) => old(self)@.entries.update(
                    i,
                    CacheEntry { touched: (old(self)@.clock + 1) as u64, ..old(self)@.entries[i] },
                ),
                None => old(self)@.entries,
            }),
            final(self)@.used == old(self)@.used,
            final(self)@.budget == old(self)@.budget,
            final(self)@.evictions == old(self)@.evictions,
    {
        self.clock = self.clock + 1;
        match find_entry(&self.entries, key) {
            Some(i) => {
                let ghost before = self.entries@;
                let entry = self.entries[i];
                self.entries.set(i, CacheEntry { touched: self.clock, ..entry });
                proof {
                    lemma_total_update(before, i as int, self.entries@[i as int]);
                    let after = self.entries@;
                    assert forall|a: int, b: int|
                        0 <= a < after.len() && 0 <= b < after.len() && a != b implies #[trigger] after[a].key
                        != #[trigger] after[b].key && after[a].touched != after[b].touched by {
                        assert(before[a].key != before[b].key);
                    }
                }
                true
            },
            None => false,
        }
    }

    /// Makes `key` resident with `bytes`, as the most recently used tile, then
    /// evicts the least recently used other tiles while the cache is over
    /// budget and holds more than one tile. Returns the evicted keys in the
    /// order they were evicted.
    pub fn insert(&mut self, key: TileKey, bytes: usize) -> (r: Vec<TileKey>)
        requires
            old(self).well_formed(),
            old(self)@.clock < u64::MAX,
            with_entry(
                old(self)@.entries,
                old(self)@.used as int,
                key,
                bytes,
                (old(self)@.clock + 1) as u64,
            ).1 <= usize::MAX,
            old(self)@.evictions + old(self)@.entries.len() <= u64::MAX,
        ensures
            final(self).well_formed(),
            ({
                let placed = with_entry(
                    old(self)@.entries,
                    old(self)@.used as int,
                    key,
                    bytes,
                    (old(self)@.clock + 1) as u64,
                );
                let outcome = evict(placed.0, placed.1, old(self)@.budget as int, key);
                &&& r@ == outcome.0
                &&& final(self)@.entries == outcome.1
                &&& final(self)@.used == outcome.2
            }),
            final(self)@.clock == old(self)@.clock + 1,
            final(self)@.budget == old(self)@.budget,
            final(self)@.evictions == old(self)@.evictions + r@.len(),
            final(self)@.used <= final(self)@.budget || final(self)@.entries.len() == 1,
            entry_index(final(self)@.entries, key) is Some,
    {
        let ghost original = self.entries@;
        self.clock = self.clock + 1;
        let entry = CacheEntry { key, bytes, touched: self.clock };
        match find_entry(&self.entries, key) {
            Some(i) => {
                let old_bytes = self.entries[i].bytes;
                proof {
                    lemma_total_remove(original, i as int);
                }
                self.used = self.used - old_bytes;
                self.entries.set(i, entry);
                proof {
                    lemma_total_update(original, i as int, entry);
                }
            },
            None => {
                self.entries.push(entry);
                proof {
                    assert(self.entries@.drop_last() =~= original);
                }
            },
        }
        self.used = self.used + bytes;
        let ghost placed = self.entries@;
        let ghost placed_used = self.used as int;
        let ghost budget = self.budget as int;
        proof {
            let after = self.entries@;
            assert(placed == with_entry(original, old(self)@.used as int, key, bytes, self.clock).0);
            assert forall|a: int, b: int|
                0 <= a < after.len() && 0 <= b < after.len() && a != b implies #[trigger] after[a].key
                != #[trigger] after[b].key && after[a].touched != after[b].touched by {
                if a < original.len() && b < original.len() {
                    assert(original[a].key != original[b].key);
                }
                if a < original.len() {
                    assert(original[a].touched <= old(self)@.clock);
                }
                if b < original.len() {
                    assert(original[b].touched <= old(self)@.clock);
                }
                if a < original.len() && after[a].key == key {
                    lemma_entry_index_is_first(original, key);
                }
                if b < original.len() && after[b].key == key {
                    lemma_entry_index_is_first(original, key);
                }
            }
            assert forall|a: int| 0 <= a < after.len() implies #[trigger] after[a].touched
                <= self.clock by {
                if a < original.len() {
                    assert(original[a].touched <= old(self)@.clock);
                }
            }
            assert(cache_valid(after, self.used as int, self.clock));
            let p = if after.len() == original.len() + 1 {
                original.len() as int
            } else {
                entry_index(original, key)->0
            };
            assert(after[p].key == key);
            lemma_has_first_entry(after, key, p);
            lemma_evict_outcome(placed, placed_used, budget, key, self.clock);
        }
        let mut evicted: Vec<TileKey> = Vec::new();
        while self.used > self.budget && self.entries.len() > 1
            invariant_except_break
                evict(placed, placed_used, budget, key) == (
                    evicted@ + evict(self.entries@, self.used as int, budget, key).0,
                    evict(self.entries@, self.used as int, budget, key).1,
                    evict(self.entries@, self.used as int, budget, key).2,
                ),
            invariant
                budget == self.budget,
                cache_valid(self.entries@, self.used as int, self.clock),
                entry_index(self.entries@, key) is Some,
                evicted@.len() + self.entries@.len() == placed.len(),
                placed.len() <= original.len() + 1,
                old(self).evictions + original.len() <= u64::MAX,
                self.evictions == old(self).evictions + evicted@.len(),
                self.clock == old(self)@.clock + 1,
            ensures
                evict(placed, placed_used, budget, key) == (
                    evicted@,
                    self.entries@,
                    self.used as int,
                ),
            decreases self.entries@.len(),
        {
            let ghost current = self.entries@;
            let ghost current_used = self.used as int;
            match find_oldest(&self.entries, key) {
                Some(victim) => {
                    proof {
                        lemma_oldest_is(current, current_used, self.clock, key, victim as int);
                        lemma_total_remove(current, victim as int);
                        lemma_valid_remove(current, current_used, self.clock, victim as int);
                        lemma_entry_index_is_first(current, key);
                        let p = entry_index(current, key)->0;
                        let pp = if p < victim { p } else { p - 1 };
                        assert(current.remove(victim as int)[pp] == current[p]);
                        lemma_has_first_entry(current.remove(victim as int), key, pp);
                    }
                    let removed = self.entries.remove(victim);
                    self.used = self.used - removed.bytes;
                    self.evictions = self.evictions + 1;
                    evicted.push(removed.key);
                    proof {
                        assert(evicted@ =~= evicted@.drop_last() + seq![removed.key]);
                    }
                },
                None => {
                    proof {
                        lemma_entry_index_is_first(current, key);
                        let p = entry_index(current, key)->0;
                        let other = if p == 0 { 1int } else { 0int };
                        assert(current[other].key != current[p].key);
                    }
                    break;
                },
            }
        }
        evicted
    }
}

} // verus!
