//! The write-back guarantees of the block cache, proved once and for all
//! from the operation contracts: read-after-write, durability across
//! shutdown and reopen, deferred write-back with flush after the interval,
//! last-write-wins, independence of distinct blocks, durability under
//! eviction, and empty reads for never-written blocks.

use vstd::prelude::*;
use crate::cache::BlockCache;
use crate::cache::is_expired;
use crate::store::BlockStore;

verus! {

/// Reading a block right after writing it returns the written bytes.
pub proof fn lemma_update_then_get(
    c0: BlockCache,
    c1: BlockCache,
    c2: BlockCache,
    s0: BlockStore,
    s1: BlockStore,
    s2: BlockStore,
    b: u64,
    d: Seq<u8>,
    now: u64,
    r: Seq<u8>,
)
    requires
        BlockCache::update_block_post(c0, c1, s0, s1, b, d, now),
        BlockCache::get_block_post(c1, c2, s1, s2, b, r),
    ensures
        r == d,
{
    assert(c1.stored(s1, b) == d);
}

/// Durability: after writing a block and shutting the engine down, the
/// store holds the written bytes.
pub proof fn lemma_update_then_shutdown_durable(
    c0: BlockCache,
    c1: BlockCache,
    c2: BlockCache,
    s0: BlockStore,
    s1: BlockStore,
    s2: BlockStore,
    b: u64,
    d: Seq<u8>,
    now: u64,
)
    requires
        BlockCache::update_block_post(c0, c1, s0, s1, b, d, now),
        BlockCache::shutdown_post(c1, c2, s1, s2),
    ensures
        s2@.contains_key(b),
        s2@[b] == d,
{
    assert(c1.has_entry(b) && c1.entry_dirty(b));
    assert(forall|k: u64|
        c1.has_entry(k) && c1.entry_dirty(k) ==> #[trigger] s2@.contains_key(k) && s2@[k]
            == c1.entry_data(k));
    assert(s2@.contains_key(b) && s2@[b] == c1.entry_data(b));
}

/// Reopening: a freshly created cache reads a durable block straight from
/// the store. Together with the previous law this shows that a written and
/// shut-down block survives a restart.
pub proof fn lemma_reopen_reads_durable(
    c0: BlockCache,
    c1: BlockCache,
    s0: BlockStore,
    s1: BlockStore,
    b: u64,
    max_capacity: usize,
    flush_interval: u64,
    r: Seq<u8>,
)
    requires
        c0.fresh(max_capacity, flush_interval),
        s0@.contains_key(b),
        BlockCache::get_block_post(c0, c1, s0, s1, b, r),
    ensures
        r == s0@[b],
{
    assert(!c0.has_entry(b));
}

/// Write-back is deferred: writing a block changes nothing on the store
/// for that block — the file is still absent, or still holds its previous
/// bytes.
pub proof fn lemma_update_defers_write(
    c0: BlockCache,
    c1: BlockCache,
    s0: BlockStore,
    s1: BlockStore,
    b: u64,
    d: Seq<u8>,
    now: u64,
)
    requires
        BlockCache::update_block_post(c0, c1, s0, s1, b, d, now),
    ensures
        s1@.contains_key(b) == s0@.contains_key(b),
        s0@.contains_key(b) ==> s1@[b] == s0@[b],
{
}

/// A sweep that runs before the write-back delay has elapsed still leaves
/// the store untouched for the freshly written block.
pub proof fn lemma_sweep_too_early_leaves_store(
    c0: BlockCache,
    c1: BlockCache,
    c2: BlockCache,
    s0: BlockStore,
    s1: BlockStore,
    s2: BlockStore,
    b: u64,
    d: Seq<u8>,
    dirtied_at: u64,
    now: u64,
)
    requires
        BlockCache::update_block_post(c0, c1, s0, s1, b, d, dirtied_at),
        BlockCache::sweep_post(c1, c2, s1, s2, now),
        !is_expired(dirtied_at, now, c1.interval()),
    ensures
        s2@.contains_key(b) == s0@.contains_key(b),
        s0@.contains_key(b) ==> s2@[b] == s0@[b],
{
    assert(c1.in_tracker(b) && c1.tracker_stamp(b) == dirtied_at);
    assert(s2@.contains_key(b) == s1@.contains_key(b));
}

/// A sweep that runs once the write-back delay has elapsed persists the
/// written bytes and leaves the entry clean.
pub proof fn lemma_sweep_after_interval_flushes(
    c0: BlockCache,
    c1: BlockCache,
    c2: BlockCache,
    s0: BlockStore,
    s1: BlockStore,
    s2: BlockStore,
    b: u64,
    d: Seq<u8>,
    dirtied_at: u64,
    now: u64,
)
    requires
        BlockCache::update_block_post(c0, c1, s0, s1, b, d, dirtied_at),
        BlockCache::sweep_post(c1, c2, s1, s2, now),
        is_expired(dirtied_at, now, c1.interval()),
    ensures
        s2@.contains_key(b),
        s2@[b] == d,
        !c2.entry_dirty(b),
{
    assert(c1.in_tracker(b) && c1.tracker_stamp(b) == dirtied_at);
    assert(c1.has_entry(b) && c1.entry_dirty(b));
    assert(is_expired(c1.tracker_stamp(b), now, c1.interval()));
    assert(forall|k: u64|
        c1.in_tracker(k) && is_expired(c1.tracker_stamp(k), now, c1.interval())
            && c1.has_entry(k) && c1.entry_dirty(k) ==> #[trigger] s2@.contains_key(k)
            && s2@[k] == c1.entry_data(k) && !c2.entry_dirty(k));
    assert(s2@.contains_key(b) && s2@[b] == c1.entry_data(b) && !c2.entry_dirty(b));
}

/// Last write wins: after two writes to the same block, an explicit flush
/// persists the second value.
pub proof fn lemma_last_write_wins(
    c0: BlockCache,
    c1: BlockCache,
    c2: BlockCache,
    c3: BlockCache,
    s0: BlockStore,
    s1: BlockStore,
    s2: BlockStore,
    s3: BlockStore,
    b: u64,
    d1: Seq<u8>,
    d2: Seq<u8>,
    t1: u64,
    t2: u64,
    flushed: bool,
)
    requires
        BlockCache::update_block_post(c0, c1, s0, s1, b, d1, t1),
        BlockCache::update_block_post(c1, c2, s1, s2, b, d2, t2),
        BlockCache::flush_block_post(c2, c3, s2, s3, b, flushed),
    ensures
        flushed,
        s3@.contains_key(b),
        s3@[b] == d2,
{
    assert(c2.has_entry(b) && c2.entry_dirty(b) && c2.entry_data(b) == d2);
}

/// Writes to distinct blocks do not disturb each other: each block reads
/// back its own bytes, whatever the interleaving did to the cache.
pub proof fn lemma_distinct_writes_independent(
    c0: BlockCache,
    c1: BlockCache,
    c2: BlockCache,
    c3: BlockCache,
    c4: BlockCache,
    s0: BlockStore,
    s1: BlockStore,
    s2: BlockStore,
    s3: BlockStore,
    s4: BlockStore,
    b1: u64,
    b2: u64,
    d1: Seq<u8>,
    d2: Seq<u8>,
    t1: u64,
    t2: u64,
    r1: Seq<u8>,
    r2: Seq<u8>,
)
    requires
        b1 != b2,
        BlockCache::update_block_post(c0, c1, s0, s1, b1, d1, t1),
        BlockCache::update_block_post(c1, c2, s1, s2, b2, d2, t2),
        BlockCache::get_block_post(c2, c3, s2, s3, b1, r1),
        BlockCache::get_block_post(c3, c4, s3, s4, b2, r2),
    ensures
        r1 == d1,
        r2 == d2,
{
    assert(c1.stored(s1, b1) == d1);
    assert(c2.stored(s2, b1) == c1.stored(s1, b1));
    assert(c2.stored(s2, b2) == d2);
    assert(c3.stored(s3, b2) == c2.stored(s2, b2));
}

/// Eviction durability: whatever a read of some other block did to the
/// cache — including evicting the freshly written entry to make room — a
/// later read of the written block still returns its bytes.
pub proof fn lemma_eviction_loses_nothing(
    c0: BlockCache,
    c1: BlockCache,
    c2: BlockCache,
    c3: BlockCache,
    s0: BlockStore,
    s1: BlockStore,
    s2: BlockStore,
    s3: BlockStore,
    b: u64,
    other: u64,
    d: Seq<u8>,
    now: u64,
    r_other: Seq<u8>,
    r: Seq<u8>,
)
    requires
        BlockCache::update_block_post(c0, c1, s0, s1, b, d, now),
        BlockCache::get_block_post(c1, c2, s1, s2, other, r_other),
        BlockCache::get_block_post(c2, c3, s2, s3, b, r),
    ensures
        r == d,
{
    assert(c1.stored(s1, b) == d);
    assert(c2.stored(s2, b) == c1.stored(s1, b));
}

/// Miss semantics: reading a block that was never written anywhere returns
/// the empty byte sequence, not an error.
pub proof fn lemma_never_written_reads_empty(
    c0: BlockCache,
    c1: BlockCache,
    s0: BlockStore,
    s1: BlockStore,
    b: u64,
    r: Seq<u8>,
)
    requires
        !c0.has_entry(b),
        !s0@.contains_key(b),
        BlockCache::get_block_post(c0, c1, s0, s1, b, r),
    ensures
        r == Seq::<u8>::empty(),
{
}

} // verus!
