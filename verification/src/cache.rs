//! Deterministic graph-shape hashing (64-bit FNV-1a over little-endian bytes).
use vstd::prelude::*;
use crate::error::{RenderGraphError, RenderGraphResult};

verus! {

/// FNV-1a 64-bit offset basis.
pub const FNV64_OFFSET_BASIS: u64 = 0xcbf29ce484222325u64;

/// FNV-1a 64-bit prime.
pub const FNV64_PRIME: u64 = 0x100000001b3u64;

/// One FNV-1a step: xor the byte in, then multiply by the prime modulo 2^64.
pub open spec fn fnv_step(hash: u64, byte: u8) -> u64 {
    vstd::wrapping::u64_specs::wrapping_mul(hash ^ (byte as u64), FNV64_PRIME)
}

/// The hash state after folding `bytes`, first to last, into `hash`.
pub open spec fn fnv_fold(hash: u64, bytes: Seq<u8>) -> u64
    decreases bytes.len(),
{
    if bytes.len() == 0 {
        hash
    } else {
        fnv_step(fnv_fold(hash, bytes.drop_last()), bytes.last())
    }
}

/// Folding a concatenation folds the first part, then the second.
pub proof fn lemma_fnv_fold_append(hash: u64, a: Seq<u8>, b: Seq<u8>)
    ensures
        fnv_fold(hash, a + b) == fnv_fold(fnv_fold(hash, a), b),
    decreases b.len(),
{
    if b.len() == 0 {
        assert(a + b =~= a);
    } else {
        assert((a + b).drop_last() =~= a + b.drop_last());
        lemma_fnv_fold_append(hash, a, b.drop_last());
    }
}

/// Deterministic hash for topology-affecting render graph inputs.
#[derive(Clone, Copy, Debug, PartialEq, Eq, Hash, PartialOrd, Ord, Structural)]
pub struct RenderGraphShapeHash(pub u64);

impl RenderGraphShapeHash {
    /// The hash of no input at all, used as the "not computed" marker.
    pub fn invalid() -> (r: Self)
        ensures
            r.0 == FNV64_OFFSET_BASIS,
    {
        RenderGraphShapeHash(FNV64_OFFSET_BASIS)
    }

    pub fn from_raw(raw: u64) -> (r: Self)
        ensures
            r.0 == raw,
    {
        RenderGraphShapeHash(raw)
    }

    pub fn raw(self) -> (r: u64)
        ensures
            r == self.0,
    {
        self.0
    }

    /// Whether the hash differs from the empty-input marker.
    pub fn is_valid(self) -> (r: bool)
        ensures
            r == (self.0 != FNV64_OFFSET_BASIS),
    {
        self.0 != FNV64_OFFSET_BASIS
    }
}

impl Default for RenderGraphShapeHash {
    fn default() -> (r: Self)
        ensures
            r.0 == 0,
    {
        RenderGraphShapeHash(0)
    }
}

/// Incremental deterministic graph-shape hash builder.
#[derive(Clone, Debug)]
pub struct RenderGraphShapeHashBuilder {
    hash: u64,
}

impl View for RenderGraphShapeHashBuilder {
    type V = u64;

    /// The running hash state.
    closed spec fn view(&self) -> u64 {
        self.hash
    }
}

impl Default for RenderGraphShapeHashBuilder {
    fn default() -> (r: Self)
        ensures
            r@ == FNV64_OFFSET_BASIS,
    {
        RenderGraphShapeHashBuilder { hash: FNV64_OFFSET_BASIS }
    }
}

impl RenderGraphShapeHashBuilder {
    pub fn new() -> (r: Self)
        ensures
            r@ == FNV64_OFFSET_BASIS,
    {
        RenderGraphShapeHashBuilder { hash: FNV64_OFFSET_BASIS }
    }

    /// Folds the eight little-endian bytes of `value` into the hash.
    pub fn append_u64(&mut self, value: u64)
        ensures
            final(self)@ == fnv_fold(old(self)@, vstd::bytes::spec_u64_to_le_bytes(value)),
    {
        let bytes = vstd::bytes::u64_to_le_bytes(value);
        self.append_bytes(bytes.as_slice());
    }

    /// Folds the four little-endian bytes of `value` into the hash.
    pub fn append_u32(&mut self, value: u32)
        ensures
            final(self)@ == fnv_fold(old(self)@, vstd::bytes::spec_u32_to_le_bytes(value)),
    {
        let bytes = vstd::bytes::u32_to_le_bytes(value);
        self.append_bytes(bytes.as_slice());
    }

    /// Folds `value` widened to 64 bits.
    pub fn append_usize(&mut self, value: usize)
        ensures
            final(self)@ == fnv_fold(old(self)@, vstd::bytes::spec_u64_to_le_bytes(value as u64)),
    {
        self.append_u64(value as u64);
    }

    /// Folds one byte, 1 for true and 0 for false.
    pub fn append_bool(&mut self, value: bool)
        ensures
            final(self)@ == fnv_step(old(self)@, if value { 1u8 } else { 0u8 }),
    {
        let byte: u8 = if value { 1 } else { 0 };
        let bytes = [byte];
        let ghost start = self.hash;
        proof {
            assert(bytes@ =~= seq![byte]);
            assert(seq![byte].drop_last() =~= Seq::<u8>::empty());
            assert(fnv_fold(start, Seq::<u8>::empty()) == start);
            assert(fnv_fold(start, seq![byte]) == fnv_step(fnv_fold(start, seq![byte].drop_last()), byte));
        }
        self.append_bytes(&bytes);
    }

    /// Folds every byte, first to last.
    pub fn append_bytes(&mut self, bytes: &[u8])
        ensures
            final(self)@ == fnv_fold(old(self)@, bytes@),
    {
        let ghost start = self.hash;
        let mut i: usize = 0;
        while i < bytes.len()
            invariant
                i <= bytes@.len(),
                self.hash == fnv_fold(start, bytes@.subrange(0, i as int)),
            decreases bytes@.len() - i,
        {
            let byte = bytes[i];
            proof {
                assert(bytes@.subrange(0, i as int + 1).drop_last() =~= bytes@.subrange(0, i as int));
            }
            self.hash = (self.hash ^ (byte as u64)).wrapping_mul(FNV64_PRIME);
            i = i + 1;
        }
        proof {
            assert(bytes@.subrange(0, i as int) =~= bytes@);
        }
    }

    pub fn finish(self) -> (r: RenderGraphShapeHash)
        ensures
            r.0 == self@,
    {
        RenderGraphShapeHash(self.hash)
    }
}

/// Default number of cache slots.
pub const DEFAULT_MAX_CACHE_ENTRIES: usize = 4;

/// One reusable cache slot: what a lookup reads of it. The built graph itself
/// is held by the caller; the slot records whether one was stored.
#[derive(Clone, Copy, Debug, PartialEq, Eq)]
pub struct RenderGraphCacheEntry {
    pub shape_hash: RenderGraphShapeHash,
    pub camera_setup_count: usize,
    pub last_used_frame: u64,
    pub has_final_graph: bool,
    pub rebuild_generation: u64,
}

/// Whether `e` can serve a lookup of `hash` with `count` camera setups.
pub open spec fn entry_hit(e: RenderGraphCacheEntry, hash: RenderGraphShapeHash, count: usize) -> bool {
    e.shape_hash == hash && e.camera_setup_count == count && e.has_final_graph
}

/// `e` emptied and claimed for a rebuild of `hash` at `tick`.
pub open spec fn rebuilt_entry(e: RenderGraphCacheEntry, hash: RenderGraphShapeHash, count: usize, tick: u64) -> RenderGraphCacheEntry {
    RenderGraphCacheEntry {
        shape_hash: hash,
        camera_setup_count: count,
        last_used_frame: tick,
        has_final_graph: false,
        rebuild_generation: if e.rebuild_generation == u64::MAX { u64::MAX } else { (e.rebuild_generation + 1) as u64 },
    }
}

/// `i` is the first slot of `s` with the smallest last-used frame.
pub open spec fn is_oldest(s: Seq<RenderGraphCacheEntry>, i: int) -> bool {
    &&& 0 <= i < s.len()
    &&& forall|j: int| 0 <= j < s.len() ==> s[i].last_used_frame <= #[trigger] s[j].last_used_frame
    &&& forall|j: int| 0 <= j < i ==> s[i].last_used_frame < #[trigger] s[j].last_used_frame
}

/// The error of a lookup with the "not computed" hash.
pub open spec fn invalid_hash_error() -> RenderGraphError {
    RenderGraphError::InvalidState { reason: "render graph cache lookup requires a valid graph-shape hash" }
}

/// Some slot of `s` can serve `hash` with `count` camera setups.
pub open spec fn has_hit(s: Seq<RenderGraphCacheEntry>, hash: RenderGraphShapeHash, count: usize) -> bool {
    exists|i: int| 0 <= i < s.len() && entry_hit(#[trigger] s[i], hash, count)
}

/// A fresh slot claimed for a build of `hash` at `tick`.
pub open spec fn fresh_entry(hash: RenderGraphShapeHash, count: usize, tick: u64) -> RenderGraphCacheEntry {
    RenderGraphCacheEntry {
        shape_hash: hash,
        camera_setup_count: count,
        last_used_frame: tick,
        has_final_graph: false,
        rebuild_generation: 1,
    }
}

/// `e` marked as holding a built graph.
pub open spec fn stored_entry(e: RenderGraphCacheEntry) -> RenderGraphCacheEntry {
    RenderGraphCacheEntry { has_final_graph: true, ..e }
}

/// `e` marked as used at `tick`.
pub open spec fn used_entry(e: RenderGraphCacheEntry, tick: u64) -> RenderGraphCacheEntry {
    RenderGraphCacheEntry { last_used_frame: tick, ..e }
}

/// The lookup reused the first slot of `before` that can serve it, marked it
/// as used at `tick`, and left every other slot as it was.
pub open spec fn hit_served(
    before: Seq<RenderGraphCacheEntry>,
    after: Seq<RenderGraphCacheEntry>,
    l: RenderGraphCacheLookup,
    hash: RenderGraphShapeHash,
    count: usize,
    tick: u64,
) -> bool {
    let i = l.entry_index as int;
    &&& !l.needs_rebuild
    &&& 0 <= i < before.len()
    &&& entry_hit(before[i], hash, count)
    &&& forall|j: int| 0 <= j < i ==> !entry_hit(#[trigger] before[j], hash, count)
    &&& after == before.update(i, used_entry(before[i], tick))
}

/// Result of a cache lookup: the slot to use and whether it must be rebuilt.
#[derive(Clone, Copy, Debug, PartialEq, Eq)]
pub struct RenderGraphCacheLookup {
    pub entry_index: usize,
    pub needs_rebuild: bool,
}

/// Small least-recently-used cache of built graph slots.
pub struct RenderGraphCache {
    entries: Vec<RenderGraphCacheEntry>,
    max_entries: usize,
}

impl RenderGraphCache {
    /// The slots, in insertion order.
    pub closed spec fn spec_entries(&self) -> Seq<RenderGraphCacheEntry> {
        self.entries@
    }

    /// The slot limit.
    pub closed spec fn spec_max_entries(&self) -> nat {
        self.max_entries as nat
    }

    pub fn new() -> (r: Self)
        ensures
            r.spec_entries().len() == 0,
            r.spec_max_entries() == DEFAULT_MAX_CACHE_ENTRIES,
    {
        Self::with_capacity(DEFAULT_MAX_CACHE_ENTRIES)
    }

    /// A cache of at most `max_entries` slots (at least one).
    pub fn with_capacity(max_entries: usize) -> (r: Self)
        ensures
            r.spec_entries().len() == 0,
            r.spec_max_entries() == if max_entries < 1 { 1 } else { max_entries },
    {
        let limit = if max_entries < 1 { 1 } else { max_entries };
        RenderGraphCache { entries: Vec::new(), max_entries: limit }
    }

    pub fn len(&self) -> (r: usize)
        ensures
            r == self.spec_entries().len(),
    {
        self.entries.len()
    }

    pub fn is_empty(&self) -> (r: bool)
        ensures
            r == (self.spec_entries().len() == 0),
    {
        self.entries.len() == 0
    }

    pub fn max_entries(&self) -> (r: usize)
        ensures
            r == self.spec_max_entries(),
    {
        self.max_entries
    }

    pub fn entries(&self) -> (r: &[RenderGraphCacheEntry])
        ensures
            r@ == self.spec_entries(),
    {
        self.entries.as_slice()
    }

    /// Records that slot `index` now holds a built graph.
    pub fn store_final_graph(&mut self, index: usize)
        requires
            index < old(self).spec_entries().len(),
        ensures
            final(self).spec_max_entries() == old(self).spec_max_entries(),
            final(self).spec_entries() == old(self).spec_entries().update(
                index as int,
                stored_entry(old(self).spec_entries()[index as int]),
            ),
    {
        let mut e = self.entries[index];
        e.has_final_graph = true;
        self.entries.set(index, e);
    }

    /// The first slot with the smallest last-used frame.
    fn oldest_entry_index(&self) -> (r: usize)
        requires
            self.entries@.len() > 0,
        ensures
            is_oldest(self.entries@, r as int),
    {
        let mut best: usize = 0;
        let mut i: usize = 1;
        while i < self.entries.len()
            invariant
                1 <= i <= self.entries@.len(),
                best < i,
                forall|j: int| 0 <= j < i ==> self.entries@[best as int].last_used_frame <= #[trigger] self.entries@[j].last_used_frame,
                forall|j: int| 0 <= j < best ==> self.entries@[best as int].last_used_frame < #[trigger] self.entries@[j].last_used_frame,
            decreases self.entries@.len() - i,
        {
            if self.entries[i].last_used_frame < self.entries[best].last_used_frame {
                best = i;
            }
            i = i + 1;
        }
        best
    }

    /// Finds a slot that already holds a graph of this shape and camera-setup
    /// count, or claims one for a rebuild: a new slot while there is room,
    /// else the least recently used one. `force_clear` skips the search.
    pub fn get_graph(
        &mut self,
        shape_hash: RenderGraphShapeHash,
        camera_setup_count: usize,
        frame_tick: u64,
        force_clear: bool,
    ) -> (r: RenderGraphResult<RenderGraphCacheLookup>)
        requires
            old(self).spec_max_entries() >= 1,
        ensures
            final(self).spec_max_entries() == old(self).spec_max_entries(),
            old(self).spec_entries().len() <= old(self).spec_max_entries() ==> final(self).spec_entries().len()
                <= final(self).spec_max_entries(),
            r is Err <==> shape_hash.0 == FNV64_OFFSET_BASIS,
            r is Err ==> r->Err_0 == invalid_hash_error() && final(self).spec_entries() == old(self).spec_entries(),
            r is Ok && !force_clear && has_hit(old(self).spec_entries(), shape_hash, camera_setup_count) ==> hit_served(
                old(self).spec_entries(),
                final(self).spec_entries(),
                r->Ok_0,
                shape_hash,
                camera_setup_count,
                frame_tick,
            ),
            r is Ok && (force_clear || !has_hit(old(self).spec_entries(), shape_hash, camera_setup_count))
                && old(self).spec_entries().len() < old(self).spec_max_entries() ==> r->Ok_0.needs_rebuild
                && r->Ok_0.entry_index == old(self).spec_entries().len() && final(self).spec_entries()
                == old(self).spec_entries().push(fresh_entry(shape_hash, camera_setup_count, frame_tick)),
            r is Ok && (force_clear || !has_hit(old(self).spec_entries(), shape_hash, camera_setup_count))
                && old(self).spec_entries().len() >= old(self).spec_max_entries() ==> r->Ok_0.needs_rebuild
                && is_oldest(old(self).spec_entries(), r->Ok_0.entry_index as int) && final(self).spec_entries()
                == old(self).spec_entries().update(
                r->Ok_0.entry_index as int,
                rebuilt_entry(old(self).spec_entries()[r->Ok_0.entry_index as int], shape_hash, camera_setup_count, frame_tick),
            ),
    {
        if !shape_hash.is_valid() {
            return Err(RenderGraphError::InvalidState { reason: "render graph cache lookup requires a valid graph-shape hash" });
        }
        if !force_clear {
            let mut i: usize = 0;
            while i < self.entries.len()
                invariant
                    self.entries@ == old(self).entries@,
                    self.max_entries == old(self).max_entries,
                    shape_hash.0 != FNV64_OFFSET_BASIS,
                    !force_clear,
                    i <= self.entries@.len(),
                    forall|j: int| 0 <= j < i ==> !entry_hit(#[trigger] self.entries@[j], shape_hash, camera_setup_count),
                decreases self.entries@.len() - i,
            {
                let e = self.entries[i];
                if e.shape_hash == shape_hash && e.camera_setup_count == camera_setup_count && e.has_final_graph {
                    let used = RenderGraphCacheEntry { last_used_frame: frame_tick, ..e };
                    self.entries.set(i, used);
                    proof {
                        assert(self.entries@ =~= old(self).entries@.update(i as int, used_entry(e, frame_tick)));
                        assert(entry_hit(old(self).entries@[i as int], shape_hash, camera_setup_count));
                        assert(has_hit(old(self).entries@, shape_hash, camera_setup_count));
                    }
                    return Ok(RenderGraphCacheLookup { entry_index: i, needs_rebuild: false });
                }
                i = i + 1;
            }
        }
        if self.entries.len() < self.max_entries {
            let fresh = RenderGraphCacheEntry {
                shape_hash: shape_hash,
                camera_setup_count: camera_setup_count,
                last_used_frame: frame_tick,
                has_final_graph: false,
                rebuild_generation: 1,
            };
            self.entries.push(fresh);
            Ok(RenderGraphCacheLookup { entry_index: self.entries.len() - 1, needs_rebuild: true })
        } else {
            let oldest = self.oldest_entry_index();
            let e = self.entries[oldest];
            let generation = if e.rebuild_generation == u64::MAX { u64::MAX } else { e.rebuild_generation + 1 };
            let rebuilt = RenderGraphCacheEntry {
                shape_hash: shape_hash,
                camera_setup_count: camera_setup_count,
                last_used_frame: frame_tick,
                has_final_graph: false,
                rebuild_generation: generation,
            };
            self.entries.set(oldest, rebuilt);
            Ok(RenderGraphCacheLookup { entry_index: oldest, needs_rebuild: true })
        }
    }
}

} // verus!
