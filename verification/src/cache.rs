//! The write-back block cache and its flush/eviction engine.
//!
//! The cache is a bounded mapping from block id to cached bytes plus a dirty
//! flag, backed by a dirty tracker (block id to the time it last became
//! dirty). Writers mutate only the in-memory entry; persistence is deferred
//! to an explicit flush, to the periodic sweep, or to eviction, each of
//! which writes through the [`BlockStore`]. The engine here is the
//! sequential decision core: the surrounding program runs it behind a lock,
//! feeds it the clock, carries [`BlockOperation`] commands to it over a
//! channel, and mirrors the store onto disk.
//!
//! The central specification notion is [`BlockCache::stored`]: the content
//! a block id currently denotes, taking the cache entry if one exists, the
//! durable store content otherwise, and the empty sequence if neither holds
//! the block. Every operation preserves `stored` for every id — in
//! particular, evicting a dirty entry first persists it, so no data is ever
//! lost to eviction.

use vstd::prelude::*;
use crate::errors::TimeFSError;
use crate::store::BlockStore;
use crate::store::clone_bytes;
use crate::vecmap::VecMap;

verus! {

/// What can go wrong at the block-cache layer.
#[derive(Debug)]
pub enum BlockCacheError {
    /// An underlying read or write failed.
    Io,
    /// The block with this id was required but absent.
    NotFound(u64),
    /// A flush could not complete.
    FlushFailed(String),
}

impl BlockCacheError {
    /// The corresponding filesystem-level error.
    pub fn to_fs_error(self) -> (r: TimeFSError)
        ensures
            r == match self {
                BlockCacheError::Io => TimeFSError::Io,
                BlockCacheError::NotFound(id) => TimeFSError::NotFound(id),
                BlockCacheError::FlushFailed(_) => TimeFSError::FlushFailed,
            },
    {
        match self {
            BlockCacheError::Io => TimeFSError::Io,
            BlockCacheError::NotFound(id) => TimeFSError::NotFound(id),
            BlockCacheError::FlushFailed(_) => TimeFSError::FlushFailed,
        }
    }
}

/// One cached block: its bytes, whether the in-memory copy is newer than
/// disk, and when it was last modified.
pub struct CacheEntry {
    pub data: Vec<u8>,
    pub dirty: bool,
    pub last_modified: u64,
}

/// A command for the engine's command channel. Commands are processed in
/// the order they were sent; `ShutDown` is always the last one processed.
pub enum BlockOperation {
    /// Record in the dirty tracker that this block became dirty at this
    /// time; this is how `update_block` hands off dirtying without blocking
    /// the writer.
    MarkDirty(u64, u64),
    /// Explicitly flush one block.
    Flush(u64),
    /// Flush every tracked dirty block, then stop the engine.
    ShutDown,
}

/// The write-back block cache: bounded cached entries in recency order,
/// plus the dirty tracker.
pub struct BlockCache {
    entries: VecMap<CacheEntry>,
    tracker: VecMap<u64>,
    capacity: usize,
    flush_interval: u64,
}

/// Whether a block dirtied at time `t` is due for the periodic write-back
/// sweep running at time `now`.
pub open spec fn is_expired(t: u64, now: u64, interval: u64) -> bool {
    t <= now && now - t >= interval
}

impl BlockCache {
    /// The maximum number of cached entries.
    pub closed spec fn cap(&self) -> usize {
        self.capacity
    }

    /// The write-back delay: a dirty block older than this is flushed by
    /// the periodic sweep.
    pub closed spec fn interval(&self) -> u64 {
        self.flush_interval
    }

    /// Whether block `id` currently has a cache entry.
    pub closed spec fn has_entry(&self, id: u64) -> bool {
        self.entries@.dom().contains(id)
    }

    /// The bytes of the cache entry for `id`.
    pub closed spec fn entry_data(&self, id: u64) -> Seq<u8> {
        self.entries@[id].data@
    }

    /// Whether the cache entry for `id` is dirty (newer than disk).
    pub closed spec fn entry_dirty(&self, id: u64) -> bool {
        self.entries@[id].dirty
    }

    /// When the cache entry for `id` was last modified.
    pub closed spec fn entry_stamp(&self, id: u64) -> u64 {
        self.entries@[id].last_modified
    }

    /// Whether the dirty tracker holds `id`.
    pub closed spec fn in_tracker(&self, id: u64) -> bool {
        self.tracker@.dom().contains(id)
    }

    /// The time at which `id` most recently became dirty.
    pub closed spec fn tracker_stamp(&self, id: u64) -> u64 {
        self.tracker@[id]
    }

    /// How many entries the cache currently holds.
    pub closed spec fn entry_count(&self) -> nat {
        self.entries.order().len()
    }

    /// The content block `id` currently denotes: the cached bytes if an
    /// entry exists, else the durable bytes, else empty (blocks are sparse
    /// by default).
    pub open spec fn stored(&self, store: BlockStore, id: u64) -> Seq<u8> {
        if self.has_entry(id) {
            self.entry_data(id)
        } else if store@.contains_key(id) {
            store@[id]
        } else {
            Seq::empty()
        }
    }

    /// The two internal maps are in a healthy state.
    pub closed spec fn maps_sound(&self) -> bool {
        self.entries.sound() && self.tracker.sound()
    }

    /// Structural health of the cache: the capacity bound is respected and
    /// every dirty entry is registered with the dirty tracker (so that a
    /// shutdown drain reaches it).
    pub open spec fn wf(&self) -> bool {
        &&& self.cap() >= 1
        &&& self.maps_sound()
        &&& self.entry_count() <= self.cap()
        &&& forall|id: u64|
            #[trigger] self.has_entry(id) && self.entry_dirty(id) ==> self.in_tracker(id)
    }

    /// Agreement between clean cache entries and the durable store: a clean
    /// entry holds exactly what the store holds (or is empty where the
    /// store holds nothing), so reclaiming it loses no content.
    pub open spec fn coherent(&self, store: BlockStore) -> bool {
        forall|id: u64|
            #[trigger] self.has_entry(id) && !self.entry_dirty(id) ==> if store@.contains_key(id) {
                self.entry_data(id) == store@[id]
            } else {
                self.entry_data(id) == Seq::<u8>::empty()
            }
    }

    /// A cache that has just been created: empty, with the given capacity
    /// bound and write-back delay.
    pub open spec fn fresh(&self, max_capacity: usize, flush_interval: u64) -> bool {
        &&& self.cap() == max_capacity
        &&& self.interval() == flush_interval
        &&& forall|id: u64| !(#[trigger] self.has_entry(id))
        &&& forall|id: u64| !(#[trigger] self.in_tracker(id))
    }

    /// Create a cache bounded to `max_capacity` entries whose periodic
    /// sweep flushes blocks dirty for at least `flush_interval` time units.
    pub fn new(max_capacity: usize, flush_interval: u64) -> (r: Self)
        requires
            max_capacity >= 1,
        ensures
            r.wf(),
            r.fresh(max_capacity, flush_interval),
            forall|store: BlockStore| r.coherent(store),
    {
        BlockCache {
            entries: VecMap::new(),
            tracker: VecMap::new(),
            capacity: max_capacity,
            flush_interval,
        }
    }

    /// Reclaim the least recently used entry, writing it through to the
    /// store first if it is dirty: eviction never discards dirty data.
    fn evict_one(&mut self, store: &mut BlockStore)
        requires
            old(self).cap() >= 1,
            old(self).maps_sound(),
            old(self).entry_count() > old(self).cap(),
            old(self).entry_count() <= old(self).cap() + 1,
            forall|id: u64|
                #[trigger] old(self).has_entry(id) && old(self).entry_dirty(id)
                    ==> old(self).in_tracker(id),
            old(self).coherent(*old(store)),
        ensures
            final(self).wf(),
            final(self).coherent(*final(store)),
            final(self).cap() == old(self).cap(),
            final(self).interval() == old(self).interval(),
            final(self).entry_count() == old(self).entry_count() - 1,
            ({
                let victim = old(self).entries.order()[0];
                &&& !final(self).has_entry(victim)
                &&& forall|k: u64| k != victim ==> #[trigger] final(self).has_entry(k)
                    == old(self).has_entry(k)
                &&& forall|k: u64| k != victim && old(self).has_entry(k)
                    ==> #[trigger] final(self).entry_data(k) == old(self).entry_data(k)
                        && final(self).entry_dirty(k) == old(self).entry_dirty(k)
                        && final(self).entry_stamp(k) == old(self).entry_stamp(k)
                &&& forall|k: u64| k != victim ==> #[trigger] final(self).in_tracker(k)
                    == old(self).in_tracker(k)
                &&& forall|k: u64| k != victim && old(self).in_tracker(k)
                    ==> #[trigger] final(self).tracker_stamp(k) == old(self).tracker_stamp(k)
                &&& (final(self).in_tracker(victim) ==> old(self).in_tracker(victim)
                    && final(self).tracker_stamp(victim) == old(self).tracker_stamp(victim))
                &&& forall|k: u64| k != victim ==> #[trigger] final(store)@.contains_key(k)
                    == old(store)@.contains_key(k)
                    && (old(store)@.contains_key(k) ==> final(store)@[k] == old(store)@[k])
                &&& (old(self).entry_dirty(victim) ==> final(store)@ == old(store)@.insert(
                    victim,
                    old(self).entry_data(victim),
                ))
                &&& (!old(self).entry_dirty(victim) ==> *final(store) == *old(store))
                &&& final(self).entries.order() == old(self).entries.order().remove_value(victim)
            }),
            forall|k: u64|
                #[trigger] final(self).stored(*final(store), k) == old(self).stored(
                    *old(store),
                    k,
                ),
    {
        proof {
            assert(old(self).entries.order().len() > 0);
        }
        let victim = match self.entries.first_key() {
            Some(k) => k,
            None => {
                proof {
                    assert(false);
                }
                0
            },
        };
        let (data, dirty) = match self.entries.get(victim) {
            Some(e) => (clone_bytes(&e.data), e.dirty),
            None => {
                proof {
                    assert(old(self).entries@.dom() == old(self).entries.order().to_set());
                    assert(old(self).entries.order().to_set().contains(victim));
                    assert(false);
                }
                (Vec::new(), false)
            },
        };
        let ghost d = data@;
        if dirty {
            store.write_block(victim, data);
            self.tracker.remove(victim);
        }
        self.entries.remove(victim);
        proof {
            let ord = old(self).entries.order();
            assert(victim == ord[0]);
            assert(ord.contains(victim));
            ord.index_of_first_ensures(victim);
            let f = ord.index_of_first(victim)->Some_0;
            assert(f == 0) by {
                if f > 0 {
                    assert(ord[0] != victim);
                }
            }
            ord.remove_ensures(0);
            assert(self.entries.order() == ord.remove(0));
            assert(self.entries.order().len() == ord.len() - 1);

            assert forall|id: u64|
                #[trigger] self.has_entry(id) && self.entry_dirty(id) implies self.in_tracker(
                id,
            ) by {
                assert(id != victim);
                assert(old(self).has_entry(id) && old(self).entry_dirty(id));
            }
            assert forall|id: u64|
                #[trigger] self.has_entry(id) && !self.entry_dirty(id) implies (
            if store@.contains_key(id) {
                self.entry_data(id) == store@[id]
            } else {
                self.entry_data(id) == Seq::<u8>::empty()
            }) by {
                assert(id != victim);
                assert(old(self).has_entry(id) && !old(self).entry_dirty(id));
            }
            assert forall|k: u64|
                #[trigger] self.stored(*store, k) == old(self).stored(*old(store), k) by {
                if k == victim {
                    if old(self).entry_dirty(k) {
                        assert(store@[k] == d);
                        assert(d == old(self).entry_data(k));
                    } else {
                        assert(old(self).has_entry(k) && !old(self).entry_dirty(k));
                    }
                }
            }
        }
    }

    /// Replace (or insert) the cache entry for `block_id` with fresh dirty
    /// bytes and register the block with the dirty tracker; persistence is
    /// deferred, so the store's content for `block_id` is untouched. Any
    /// entry the insertion pushes over the capacity bound is evicted,
    /// written through first if dirty.
    pub fn update_block(&mut self, store: &mut BlockStore, block_id: u64, data: Vec<u8>, now: u64)
        requires
            old(self).wf(),
            old(self).coherent(*old(store)),
        ensures
            Self::update_block_post(
                *old(self),
                *final(self),
                *old(store),
                *final(store),
                block_id,
                data@,
                now,
            ),
    {
        let ghost pre = *self;
        let ghost spre = *store;
        let ghost d = data@;
        self.entries.insert(
            block_id,
            CacheEntry { data, dirty: true, last_modified: now },
        );
        self.tracker.insert(block_id, now);
        let ghost mid = *self;
        proof {
            assert(mid.entries.order().len() <= pre.entries.order().len() + 1) by {
                pre.entries.order().index_of_first_ensures(block_id);
                if pre.entries.order().index_of_first(block_id) is Some {
                    pre.entries.order().remove_ensures(
                        pre.entries.order().index_of_first(block_id)->Some_0,
                    );
                }
            }
            assert forall|id: u64|
                #[trigger] mid.has_entry(id) && mid.entry_dirty(id) implies mid.in_tracker(
                id,
            ) by {
                if id != block_id {
                    assert(pre.has_entry(id) && pre.entry_dirty(id));
                }
            }
            assert forall|id: u64|
                #[trigger] mid.has_entry(id) && !mid.entry_dirty(id) implies (
            if spre@.contains_key(id) {
                mid.entry_data(id) == spre@[id]
            } else {
                mid.entry_data(id) == Seq::<u8>::empty()
            }) by {
                assert(id != block_id);
                assert(pre.has_entry(id) && !pre.entry_dirty(id));
            }
        }
        if self.entries.len() > self.capacity {
            proof {
                assert(mid.entries.order().last() == block_id);
                assert(mid.entries.order()[0] != block_id) by {
                    assert(mid.entries.order().len() >= 2);
                    assert(mid.entries.order().no_duplicates());
                }
            }
            self.evict_one(store);
            proof {
                let victim = mid.entries.order()[0];
                assert(victim != block_id);
                assert(self.has_entry(block_id));
                assert(self.entry_data(block_id) == d);
                assert(self.entry_dirty(block_id));
                assert(self.entry_stamp(block_id) == now);
                assert(self.in_tracker(block_id));
                assert(self.tracker_stamp(block_id) == now);
                assert forall|k: u64|
                    !(pre.has_entry(k) && pre.entry_dirty(k))
                    implies #[trigger] store@.contains_key(k) == spre@.contains_key(k)
                    && (spre@.contains_key(k) ==> store@[k] == spre@[k]) by {
                    if k == victim {
                        assert(mid.entries.order().contains(victim)) by {
                            assert(mid.entries.order()[0] == victim);
                        }
                        assert(mid.entries@.dom() == mid.entries.order().to_set());
                        assert(mid.has_entry(victim));
                        assert(pre.has_entry(victim));
                        assert(mid.entry_dirty(victim) == pre.entry_dirty(victim));
                        assert(!mid.entry_dirty(victim));
                    }
                }
                assert forall|k: u64|
                    pre.has_entry(k) && pre.entry_dirty(k) implies (
                #[trigger] store@.contains_key(k) == spre@.contains_key(k) && (
                spre@.contains_key(k) ==> store@[k] == spre@[k])) || (store@.contains_key(k)
                    && store@[k] == pre.entry_data(k)) by {
                    if k == victim {
                        assert(mid.entries.order().contains(victim)) by {
                            assert(mid.entries.order()[0] == victim);
                        }
                        assert(mid.entries@.dom() == mid.entries.order().to_set());
                        assert(mid.has_entry(victim));
                        if mid.entry_dirty(victim) {
                            assert(store@ == spre@.insert(victim, mid.entry_data(victim)));
                            assert(mid.entry_data(victim) == pre.entry_data(victim));
                        } else {
                            assert(*store == spre);
                        }
                    }
                }
            }
        } else {
            proof {
                assert(self.wf());
            }
        }
        proof {
            assert forall|k: u64| k != block_id implies #[trigger] self.stored(*store, k)
                == pre.stored(spre, k) by {
                assert(mid.stored(spre, k) == pre.stored(spre, k));
                assert(self.stored(*store, k) == mid.stored(spre, k));
            }
            assert forall|k: u64|
                k != block_id && #[trigger] self.has_entry(k) implies pre.has_entry(k)
                && self.entry_data(k) == pre.entry_data(k)
                && self.entry_dirty(k) == pre.entry_dirty(k)
                && self.entry_stamp(k) == pre.entry_stamp(k) by {
                assert(mid.has_entry(k));
            }
            assert forall|k: u64|
                k != block_id && #[trigger] self.in_tracker(k) implies pre.in_tracker(k)
                && self.tracker_stamp(k) == pre.tracker_stamp(k) by {
                assert(mid.in_tracker(k));
            }
        }
    }

    /// Everything `update_block` guarantees, stated over the states before
    /// and after the call so that laws can chain calls together.
    pub open spec fn update_block_post(
        pre: Self,
        post: Self,
        spre: BlockStore,
        spost: BlockStore,
        block_id: u64,
        data: Seq<u8>,
        now: u64,
    ) -> bool {
        &&& post.wf()
        &&& post.coherent(spost)
        &&& post.cap() == pre.cap()
        &&& post.interval() == pre.interval()
        // the entry is in memory, dirty, stamped, and registered:
        &&& post.has_entry(block_id)
        &&& post.entry_data(block_id) == data
        &&& post.entry_dirty(block_id)
        &&& post.entry_stamp(block_id) == now
        &&& post.in_tracker(block_id)
        &&& post.tracker_stamp(block_id) == now
        // the block now denotes the new bytes; every other block keeps its
        // content (eviction writes through before reclaiming):
        &&& post.stored(spost, block_id) == data
        &&& forall|k: u64| k != block_id ==> #[trigger] post.stored(spost, k) == pre.stored(
            spre,
            k,
        )
        // write-back is deferred: the store's content for this block is
        // exactly what it was before the call, and the store changes only
        // where eviction wrote a dirty victim through with its cached
        // bytes:
        &&& spost@.contains_key(block_id) == spre@.contains_key(block_id)
        &&& (spre@.contains_key(block_id) ==> spost@[block_id] == spre@[block_id])
        &&& forall|k: u64|
            !(pre.has_entry(k) && pre.entry_dirty(k)) ==> #[trigger] spost@.contains_key(k)
                == spre@.contains_key(k) && (spre@.contains_key(k) ==> spost@[k] == spre@[k])
        &&& forall|k: u64|
            pre.has_entry(k) && pre.entry_dirty(k) ==> (#[trigger] spost@.contains_key(k)
                == spre@.contains_key(k) && (spre@.contains_key(k) ==> spost@[k] == spre@[k]))
                || (spost@.contains_key(k) && spost@[k] == pre.entry_data(k))
        // surviving entries and tracker registrations are unchanged:
        &&& forall|k: u64|
            k != block_id && #[trigger] post.has_entry(k) ==> pre.has_entry(k)
                && post.entry_data(k) == pre.entry_data(k)
                && post.entry_dirty(k) == pre.entry_dirty(k)
                && post.entry_stamp(k) == pre.entry_stamp(k)
        &&& forall|k: u64|
            k != block_id && #[trigger] post.in_tracker(k) ==> pre.in_tracker(k)
                && post.tracker_stamp(k) == pre.tracker_stamp(k)
    }

    /// Everything `get_block` guarantees: the returned bytes are exactly
    /// what the block denoted before the call, every block keeps its
    /// content, and the block is now cached (a miss populates the cache,
    /// making the block eligible for eviction).
    pub open spec fn get_block_post(
        pre: Self,
        post: Self,
        spre: BlockStore,
        spost: BlockStore,
        block_id: u64,
        r: Seq<u8>,
    ) -> bool {
        &&& post.wf()
        &&& post.coherent(spost)
        &&& post.cap() == pre.cap()
        &&& post.interval() == pre.interval()
        &&& r == pre.stored(spre, block_id)
        &&& forall|k: u64| #[trigger] post.stored(spost, k) == pre.stored(spre, k)
        // the read writes nothing itself: the read block's durable bytes
        // are untouched, a hit leaves the whole store untouched, and in
        // general the store changes only where eviction wrote a dirty
        // victim through with its cached bytes:
        &&& spost@.contains_key(block_id) == spre@.contains_key(block_id)
        &&& (spre@.contains_key(block_id) ==> spost@[block_id] == spre@[block_id])
        &&& (pre.has_entry(block_id) ==> spost == spre)
        &&& forall|k: u64|
            !(pre.has_entry(k) && pre.entry_dirty(k)) ==> #[trigger] spost@.contains_key(k)
                == spre@.contains_key(k) && (spre@.contains_key(k) ==> spost@[k] == spre@[k])
        &&& forall|k: u64|
            pre.has_entry(k) && pre.entry_dirty(k) ==> (#[trigger] spost@.contains_key(k)
                == spre@.contains_key(k) && (spre@.contains_key(k) ==> spost@[k] == spre@[k]))
                || (spost@.contains_key(k) && spost@[k] == pre.entry_data(k))
        &&& post.has_entry(block_id)
        &&& post.entry_data(block_id) == r
        &&& post.entry_dirty(block_id) == (pre.has_entry(block_id) && pre.entry_dirty(block_id))
        &&& forall|k: u64|
            k != block_id && #[trigger] post.has_entry(k) ==> pre.has_entry(k)
                && post.entry_data(k) == pre.entry_data(k)
                && post.entry_dirty(k) == pre.entry_dirty(k)
                && post.entry_stamp(k) == pre.entry_stamp(k)
        &&& forall|k: u64|
            #[trigger] post.in_tracker(k) ==> pre.in_tracker(k)
                && post.tracker_stamp(k) == pre.tracker_stamp(k)
    }

    /// Return the content of `block_id`: the cached bytes on a hit (which
    /// refreshes the block's recency), the durable bytes on a miss, and
    /// empty bytes for a block never written anywhere — a miss is not an
    /// error, blocks are sparse by default. Every load populates the
    /// cache; `now` stamps an entry a miss inserts.
    pub fn get_block(&mut self, store: &mut BlockStore, block_id: u64, now: u64) -> (r: Vec<u8>)
        requires
            old(self).wf(),
            old(self).coherent(*old(store)),
        ensures
            Self::get_block_post(
                *old(self),
                *final(self),
                *old(store),
                *final(store),
                block_id,
                r@,
            ),
    {
        let ghost pre = *self;
        let ghost spre = *store;
        let hit: Option<(Vec<u8>, bool, u64)> = match self.entries.get(block_id) {
            Some(e) => Some((clone_bytes(&e.data), e.dirty, e.last_modified)),
            None => None,
        };
        match hit {
            Some((d, dirty, stamp)) => {
                let r = clone_bytes(&d);
                self.entries.insert(
                    block_id,
                    CacheEntry { data: d, dirty, last_modified: stamp },
                );
                proof {
                    let ord = pre.entries.order();
                    assert(ord.contains(block_id)) by {
                        assert(pre.entries@.dom() == ord.to_set());
                    }
                    ord.index_of_first_ensures(block_id);
                    ord.remove_ensures(ord.index_of_first(block_id)->Some_0);
                    assert(self.entries.order().len() == ord.len());
                    assert forall|id: u64|
                        #[trigger] self.has_entry(id) && self.entry_dirty(id)
                        implies self.in_tracker(id) by {
                        assert(pre.has_entry(id) && pre.entry_dirty(id));
                    }
                    assert forall|id: u64|
                        #[trigger] self.has_entry(id) && !self.entry_dirty(id) implies (
                    if store@.contains_key(id) {
                        self.entry_data(id) == store@[id]
                    } else {
                        self.entry_data(id) == Seq::<u8>::empty()
                    }) by {
                        assert(pre.has_entry(id) && pre.entry_dirty(id) == self.entry_dirty(id));
                    }
                    assert forall|k: u64|
                        #[trigger] self.stored(*store, k) == pre.stored(spre, k) by {}
                }
                r
            },
            None => {
                let loaded: Option<Vec<u8>> = match store.read_block(block_id) {
                    Some(v) => Some(clone_bytes(v)),
                    None => None,
                };
                let (d, r) = match loaded {
                    Some(v) => {
                        let r = clone_bytes(&v);
                        (v, r)
                    },
                    None => (Vec::new(), Vec::new()),
                };
                self.entries.insert(
                    block_id,
                    CacheEntry { data: d, dirty: false, last_modified: now },
                );
                let ghost mid = *self;
                proof {
                    assert(mid.entries.order().len() <= pre.entries.order().len() + 1) by {
                        pre.entries.order().index_of_first_ensures(block_id);
                        if pre.entries.order().index_of_first(block_id) is Some {
                            pre.entries.order().remove_ensures(
                                pre.entries.order().index_of_first(block_id)->Some_0,
                            );
                        }
                    }
                    assert forall|id: u64|
                        #[trigger] mid.has_entry(id) && mid.entry_dirty(id)
                        implies mid.in_tracker(id) by {
                        assert(id != block_id);
                        assert(pre.has_entry(id) && pre.entry_dirty(id));
                    }
                    assert forall|id: u64|
                        #[trigger] mid.has_entry(id) && !mid.entry_dirty(id) implies (
                    if spre@.contains_key(id) {
                        mid.entry_data(id) == spre@[id]
                    } else {
                        mid.entry_data(id) == Seq::<u8>::empty()
                    }) by {
                        if id != block_id {
                            assert(pre.has_entry(id) && !pre.entry_dirty(id));
                        }
                    }
                }
                if self.entries.len() > self.capacity {
                    proof {
                        assert(mid.entries.order().last() == block_id);
                        assert(mid.entries.order()[0] != block_id) by {
                            assert(mid.entries.order().len() >= 2);
                            assert(mid.entries.order().no_duplicates());
                        }
                    }
                    self.evict_one(store);
                    proof {
                        let victim = mid.entries.order()[0];
                        assert(!self.has_entry(victim));
                        assert(victim != block_id);
                        assert(store@.contains_key(block_id) == spre@.contains_key(block_id));
                        assert forall|k: u64|
                            !(pre.has_entry(k) && pre.entry_dirty(k))
                            implies #[trigger] store@.contains_key(k) == spre@.contains_key(k)
                            && (spre@.contains_key(k) ==> store@[k] == spre@[k]) by {
                            if k == victim {
                                assert(mid.entries.order().contains(victim)) by {
                                    assert(mid.entries.order()[0] == victim);
                                }
                                assert(mid.entries@.dom() == mid.entries.order().to_set());
                                assert(mid.has_entry(victim));
                                assert(pre.has_entry(victim));
                                assert(mid.entry_dirty(victim) == pre.entry_dirty(victim));
                                assert(!mid.entry_dirty(victim));
                            }
                        }
                        assert forall|k: u64|
                            pre.has_entry(k) && pre.entry_dirty(k) implies (
                        #[trigger] store@.contains_key(k) == spre@.contains_key(k) && (
                        spre@.contains_key(k) ==> store@[k] == spre@[k])) || (store@.contains_key(
                            k,
                        ) && store@[k] == pre.entry_data(k)) by {
                            if k == victim {
                                assert(mid.entries.order().contains(victim)) by {
                                    assert(mid.entries.order()[0] == victim);
                                }
                                assert(mid.entries@.dom() == mid.entries.order().to_set());
                                assert(mid.has_entry(victim));
                                if mid.entry_dirty(victim) {
                                    assert(store@ == spre@.insert(
                                        victim,
                                        mid.entry_data(victim),
                                    ));
                                    assert(mid.entry_data(victim) == pre.entry_data(victim));
                                } else {
                                    assert(*store == spre);
                                }
                            }
                        }
                        assert forall|k: u64|
                            k != block_id && #[trigger] self.has_entry(k) implies pre.has_entry(
                            k,
                        ) && self.entry_data(k) == pre.entry_data(k)
                            && self.entry_dirty(k) == pre.entry_dirty(k)
                            && self.entry_stamp(k) == pre.entry_stamp(k) by {
                            assert(k != victim);
                            assert(mid.has_entry(k));
                            assert(self.entry_data(k) == mid.entry_data(k));
                            assert(self.entry_dirty(k) == mid.entry_dirty(k));
                            assert(self.entry_stamp(k) == mid.entry_stamp(k));
                        }
                        assert forall|k: u64|
                            #[trigger] self.in_tracker(k) implies pre.in_tracker(k)
                            && self.tracker_stamp(k) == pre.tracker_stamp(k) by {
                            assert(mid.in_tracker(k));
                            assert(mid.in_tracker(k) == pre.in_tracker(k));
                        }
                    }
                } else {
                    proof {
                        assert forall|k: u64|
                            k != block_id && #[trigger] self.has_entry(k) implies pre.has_entry(
                            k,
                        ) && self.entry_data(k) == pre.entry_data(k)
                            && self.entry_dirty(k) == pre.entry_dirty(k)
                            && self.entry_stamp(k) == pre.entry_stamp(k) by {}
                    }
                }
                proof {
                    assert(self.has_entry(block_id));
                    assert(self.entry_data(block_id) == r@);
                    assert(!self.entry_dirty(block_id));
                    assert forall|k: u64|
                        #[trigger] self.stored(*store, k) == pre.stored(spre, k) by {
                        assert(mid.stored(spre, k) == pre.stored(spre, k));
                        assert(self.stored(*store, k) == mid.stored(spre, k));
                    }
                }
                r
            },
        }
    }

    /// Everything `flush_block` guarantees: the call persists the entry
    /// exactly when it was present and dirty, in which case the store now
    /// holds the entry's bytes, the entry is clean, and the block has left
    /// the dirty tracker; otherwise nothing changes at all.
    pub open spec fn flush_block_post(
        pre: Self,
        post: Self,
        spre: BlockStore,
        spost: BlockStore,
        block_id: u64,
        flushed: bool,
    ) -> bool {
        &&& post.wf()
        &&& post.coherent(spost)
        &&& post.cap() == pre.cap()
        &&& post.interval() == pre.interval()
        &&& flushed == (pre.has_entry(block_id) && pre.entry_dirty(block_id))
        &&& flushed ==> {
            &&& spost@ == spre@.insert(block_id, pre.entry_data(block_id))
            &&& post.has_entry(block_id)
            &&& post.entry_data(block_id) == pre.entry_data(block_id)
            &&& !post.entry_dirty(block_id)
            &&& post.entry_stamp(block_id) == pre.entry_stamp(block_id)
            &&& !post.in_tracker(block_id)
        }
        &&& !flushed ==> post == pre && spost == spre
        &&& forall|k: u64| #[trigger] post.stored(spost, k) == pre.stored(spre, k)
        &&& forall|k: u64|
            k != block_id ==> #[trigger] post.has_entry(k) == pre.has_entry(k)
                && (pre.has_entry(k) ==> post.entry_data(k) == pre.entry_data(k)
                    && post.entry_dirty(k) == pre.entry_dirty(k)
                    && post.entry_stamp(k) == pre.entry_stamp(k))
        &&& forall|k: u64|
            k != block_id ==> #[trigger] post.in_tracker(k) == pre.in_tracker(k)
                && (pre.in_tracker(k) ==> post.tracker_stamp(k) == pre.tracker_stamp(k))
        &&& forall|k: u64|
            k != block_id ==> #[trigger] spost@.contains_key(k) == spre@.contains_key(k)
                && (spre@.contains_key(k) ==> spost@[k] == spre@[k])
    }

    /// Explicitly flush one block. If its entry is absent or already clean
    /// this is a no-op returning `false`. If it is dirty, its bytes are
    /// persisted to the store, the still-cached entry is marked clean, the
    /// block leaves the dirty tracker, and the call returns `true`. In
    /// this sequential engine the write has always completed on return;
    /// `wait` records whether the caller asked to observe completion.
    #[allow(unused_variables)]
    pub fn flush_block(&mut self, store: &mut BlockStore, block_id: u64, wait: bool) -> (flushed:
        bool)
        requires
            old(self).wf(),
            old(self).coherent(*old(store)),
        ensures
            Self::flush_block_post(
                *old(self),
                *final(self),
                *old(store),
                *final(store),
                block_id,
                flushed,
            ),
    {
        let ghost pre = *self;
        let ghost spre = *store;
        let info: Option<(Vec<u8>, bool, u64)> = match self.entries.get(block_id) {
            Some(e) => Some((clone_bytes(&e.data), e.dirty, e.last_modified)),
            None => None,
        };
        match info {
            Some((d, dirty, stamp)) => {
                if dirty {
                    store.write_block(block_id, clone_bytes(&d));
                    self.entries.insert(
                        block_id,
                        CacheEntry { data: d, dirty: false, last_modified: stamp },
                    );
                    self.tracker.remove(block_id);
                    proof {
                        let ord = pre.entries.order();
                        assert(ord.contains(block_id)) by {
                            assert(pre.entries@.dom() == ord.to_set());
                        }
                        ord.index_of_first_ensures(block_id);
                        ord.remove_ensures(ord.index_of_first(block_id)->Some_0);
                        assert(self.entries.order().len() == ord.len());
                        assert forall|id: u64|
                            #[trigger] self.has_entry(id) && self.entry_dirty(id)
                            implies self.in_tracker(id) by {
                            assert(id != block_id);
                            assert(pre.has_entry(id) && pre.entry_dirty(id));
                        }
                        assert forall|id: u64|
                            #[trigger] self.has_entry(id) && !self.entry_dirty(id) implies (
                        if store@.contains_key(id) {
                            self.entry_data(id) == store@[id]
                        } else {
                            self.entry_data(id) == Seq::<u8>::empty()
                        }) by {
                            if id != block_id {
                                assert(pre.has_entry(id) && !pre.entry_dirty(id));
                            }
                        }
                        assert forall|k: u64|
                            #[trigger] self.stored(*store, k) == pre.stored(spre, k) by {}
                        assert(store@ =~= spre@.insert(block_id, pre.entry_data(block_id)));
                    }
                    true
                } else {
                    false
                }
            },
            None => false,
        }
    }

    /// Flush the entry for a tracked block if it is still dirty, and drop
    /// the block from the dirty tracker in every case. This is the step
    /// the periodic sweep and the shutdown drain run per selected block.
    fn flush_tracked(&mut self, store: &mut BlockStore, block_id: u64)
        requires
            old(self).wf(),
            old(self).coherent(*old(store)),
        ensures
            final(self).wf(),
            final(self).coherent(*final(store)),
            final(self).cap() == old(self).cap(),
            final(self).interval() == old(self).interval(),
            !final(self).in_tracker(block_id),
            final(self).has_entry(block_id) == old(self).has_entry(block_id),
            old(self).has_entry(block_id) ==> final(self).entry_data(block_id) == old(
                self,
            ).entry_data(block_id) && !final(self).entry_dirty(block_id)
                && final(self).entry_stamp(block_id) == old(self).entry_stamp(block_id),
            old(self).has_entry(block_id) && old(self).entry_dirty(block_id) ==> final(store)@
                == old(store)@.insert(block_id, old(self).entry_data(block_id)),
            !(old(self).has_entry(block_id) && old(self).entry_dirty(block_id)) ==> *final(store)
                == *old(store),
            forall|k: u64| #[trigger] final(self).stored(*final(store), k) == old(self).stored(
                *old(store),
                k,
            ),
            forall|k: u64|
                k != block_id ==> #[trigger] final(self).has_entry(k) == old(self).has_entry(k)
                    && (old(self).has_entry(k) ==> final(self).entry_data(k) == old(
                    self,
                ).entry_data(k) && final(self).entry_dirty(k) == old(self).entry_dirty(k)
                    && final(self).entry_stamp(k) == old(self).entry_stamp(k)),
            forall|k: u64|
                k != block_id ==> #[trigger] final(self).in_tracker(k) == old(self).in_tracker(k)
                    && (old(self).in_tracker(k) ==> final(self).tracker_stamp(k) == old(
                    self,
                ).tracker_stamp(k)),
            forall|k: u64|
                k != block_id ==> #[trigger] final(store)@.contains_key(k) == old(
                    store,
                )@.contains_key(k) && (old(store)@.contains_key(k) ==> final(store)@[k] == old(
                    store,
                )@[k]),
    {
        let flushed = self.flush_block(store, block_id, false);
        let ghost mid = *self;
        self.tracker.remove(block_id);
        proof {
            if !flushed {
                assert(*store == *old(store));
            }
            assert forall|id: u64|
                #[trigger] self.has_entry(id) && self.entry_dirty(id) implies self.in_tracker(
                id,
            ) by {
                assert(mid.has_entry(id) && mid.entry_dirty(id));
                assert(id != block_id) by {
                    if id == block_id {
                        if flushed {
                            assert(!mid.entry_dirty(block_id));
                        } else {
                            assert(mid == *old(self));
                        }
                    }
                }
                assert(mid.in_tracker(id));
            }
            assert forall|id: u64|
                #[trigger] self.has_entry(id) && !self.entry_dirty(id) implies (
            if store@.contains_key(id) {
                self.entry_data(id) == store@[id]
            } else {
                self.entry_data(id) == Seq::<u8>::empty()
            }) by {
                assert(mid.has_entry(id) && !mid.entry_dirty(id));
                assert(mid.coherent(*store));
            }
            assert forall|k: u64|
                #[trigger] self.stored(*store, k) == old(self).stored(*old(store), k) by {
                assert(self.stored(*store, k) == mid.stored(*store, k));
                assert(mid.stored(*store, k) == old(self).stored(*old(store), k));
            }
            assert forall|k: u64|
                k != block_id implies #[trigger] self.has_entry(k) == old(self).has_entry(k)
                && (old(self).has_entry(k) ==> self.entry_data(k) == old(self).entry_data(k)
                    && self.entry_dirty(k) == old(self).entry_dirty(k)
                    && self.entry_stamp(k) == old(self).entry_stamp(k)) by {
                assert(self.has_entry(k) == mid.has_entry(k));
                assert(mid.has_entry(k) == old(self).has_entry(k));
                if old(self).has_entry(k) {
                    assert(mid.entry_data(k) == old(self).entry_data(k));
                    assert(mid.entry_dirty(k) == old(self).entry_dirty(k));
                    assert(mid.entry_stamp(k) == old(self).entry_stamp(k));
                }
            }
            assert forall|k: u64|
                k != block_id implies #[trigger] self.in_tracker(k) == old(self).in_tracker(k)
                && (old(self).in_tracker(k) ==> self.tracker_stamp(k) == old(
                self,
            ).tracker_stamp(k)) by {
                assert(mid.in_tracker(k) == old(self).in_tracker(k));
                if old(self).in_tracker(k) {
                    assert(mid.tracker_stamp(k) == old(self).tracker_stamp(k));
                }
            }
        }
    }

    /// Everything `shutdown` guarantees: every block that was dirty in
    /// memory is durable on the store, no entry is dirty any more, the
    /// dirty tracker is drained, and no content was lost or invented.
    pub open spec fn shutdown_post(
        pre: Self,
        post: Self,
        spre: BlockStore,
        spost: BlockStore,
    ) -> bool {
        &&& post.wf()
        &&& post.coherent(spost)
        &&& post.cap() == pre.cap()
        &&& post.interval() == pre.interval()
        &&& forall|k: u64| #[trigger] post.stored(spost, k) == pre.stored(spre, k)
        &&& forall|k: u64| !(#[trigger] post.in_tracker(k))
        &&& forall|k: u64| #[trigger] post.has_entry(k) == pre.has_entry(k)
        &&& forall|k: u64|
            pre.has_entry(k) ==> #[trigger] post.entry_data(k) == pre.entry_data(k)
                && !post.entry_dirty(k)
        &&& forall|k: u64|
            pre.has_entry(k) && pre.entry_dirty(k) ==> #[trigger] spost@.contains_key(k)
                && spost@[k] == pre.entry_data(k)
        &&& forall|k: u64|
            !(pre.has_entry(k) && pre.entry_dirty(k)) ==> #[trigger] spost@.contains_key(k)
                == spre@.contains_key(k) && (spre@.contains_key(k) ==> spost@[k] == spre@[k])
    }

    /// One block's state after the drain has processed it: it is no longer
    /// tracked; a dirty entry has been written through and marked clean; a
    /// clean or absent entry, and the store elsewhere, are untouched.
    spec fn drained(pre: Self, spre: BlockStore, cur: Self, scur: BlockStore, k: u64) -> bool {
        &&& !cur.in_tracker(k)
        &&& cur.has_entry(k) == pre.has_entry(k)
        &&& pre.has_entry(k) ==> cur.entry_data(k) == pre.entry_data(k) && cur.entry_stamp(k)
            == pre.entry_stamp(k) && !cur.entry_dirty(k)
        &&& pre.has_entry(k) && pre.entry_dirty(k) ==> scur@.contains_key(k) && scur@[k]
            == pre.entry_data(k)
        &&& !(pre.has_entry(k) && pre.entry_dirty(k)) ==> Self::store_same(spre, scur, k)
    }

    /// One block's state while a drain has not reached it yet: tracker
    /// registration, cache entry and store content all as before the drain.
    spec fn waiting(pre: Self, spre: BlockStore, cur: Self, scur: BlockStore, k: u64) -> bool {
        &&& cur.in_tracker(k)
        &&& cur.tracker_stamp(k) == pre.tracker_stamp(k)
        &&& Self::entry_same(pre, cur, k)
        &&& Self::store_same(spre, scur, k)
    }

    /// One block that a drain never touches because it is not tracked.
    spec fn outside(pre: Self, spre: BlockStore, cur: Self, scur: BlockStore, k: u64) -> bool {
        &&& !cur.in_tracker(k)
        &&& Self::entry_same(pre, cur, k)
        &&& Self::store_same(spre, scur, k)
    }

    /// The cache entry for `k` is exactly as it was.
    spec fn entry_same(pre: Self, cur: Self, k: u64) -> bool {
        &&& cur.has_entry(k) == pre.has_entry(k)
        &&& pre.has_entry(k) ==> cur.entry_data(k) == pre.entry_data(k) && cur.entry_stamp(k)
            == pre.entry_stamp(k) && cur.entry_dirty(k) == pre.entry_dirty(k)
    }

    /// The store content for `k` is exactly as it was.
    spec fn store_same(spre: BlockStore, scur: BlockStore, k: u64) -> bool {
        &&& scur@.contains_key(k) == spre@.contains_key(k)
        &&& spre@.contains_key(k) ==> scur@[k] == spre@[k]
    }

    /// Drain the engine for shutdown: flush every block still registered
    /// with the dirty tracker, waiting for each write, so that on return
    /// every block ever marked dirty and not superseded in memory is
    /// durable on the store.
    pub fn shutdown(&mut self, store: &mut BlockStore)
        requires
            old(self).wf(),
            old(self).coherent(*old(store)),
        ensures
            Self::shutdown_post(*old(self), *final(self), *old(store), *final(store)),
    {
        let ghost pre = *self;
        let ghost spre = *store;
        let ids = self.tracker.keys();
        let n = ids.len();
        let mut j: usize = 0;
        while j < n
            invariant
                n == ids@.len(),
                j <= n,
                ids@ == pre.tracker.order(),
                ids@.no_duplicates(),
                pre.wf(),
                pre.coherent(spre),
                self.wf(),
                self.coherent(*store),
                self.cap() == pre.cap(),
                self.interval() == pre.interval(),
                forall|k: u64| #[trigger] self.stored(*store, k) == pre.stored(spre, k),
                forall|m: int|
                    0 <= m < j ==> #[trigger] Self::drained(pre, spre, *self, *store, ids@[m]),
                forall|m: int|
                    j <= m < n ==> #[trigger] Self::waiting(pre, spre, *self, *store, ids@[m]),
                forall|k: u64|
                    !ids@.contains(k) ==> #[trigger] Self::outside(pre, spre, *self, *store, k),
            decreases n - j,
        {
            let id = ids[j];
            let ghost j0 = j as int;
            let ghost cur = *self;
            let ghost scur = *store;
            proof {
                assert(Self::waiting(pre, spre, cur, scur, id));
            }
            self.flush_tracked(store, id);
            proof {
                assert forall|m: int|
                    0 <= m < j0 + 1 implies #[trigger] Self::drained(
                    pre,
                    spre,
                    *self,
                    *store,
                    ids@[m],
                ) by {
                    let k = ids@[m];
                    if m < j0 {
                        assert(Self::drained(pre, spre, cur, scur, k));
                        assert(k != id);
                        assert(self.in_tracker(k) == cur.in_tracker(k));
                        assert(self.has_entry(k) == cur.has_entry(k));
                        if cur.has_entry(k) {
                            assert(self.entry_data(k) == cur.entry_data(k));
                            assert(self.entry_dirty(k) == cur.entry_dirty(k));
                            assert(self.entry_stamp(k) == cur.entry_stamp(k));
                        }
                        assert(store@.contains_key(k) == scur@.contains_key(k));
                        if scur@.contains_key(k) {
                            assert(store@[k] == scur@[k]);
                        }
                    } else {
                        assert(k == id);
                        assert(Self::waiting(pre, spre, cur, scur, id));
                        if pre.has_entry(id) && pre.entry_dirty(id) {
                            assert(cur.has_entry(id) && cur.entry_dirty(id));
                            assert(store@ == scur@.insert(id, cur.entry_data(id)));
                        } else {
                            assert(!(cur.has_entry(id) && cur.entry_dirty(id)));
                            assert(*store == scur);
                        }
                    }
                }
                assert forall|m: int|
                    j0 + 1 <= m < n implies #[trigger] Self::waiting(
                    pre,
                    spre,
                    *self,
                    *store,
                    ids@[m],
                ) by {
                    let k = ids@[m];
                    assert(Self::waiting(pre, spre, cur, scur, k));
                    assert(k != id);
                    assert(self.in_tracker(k) == cur.in_tracker(k));
                    assert(self.has_entry(k) == cur.has_entry(k));
                    if cur.has_entry(k) {
                        assert(self.entry_data(k) == cur.entry_data(k));
                        assert(self.entry_dirty(k) == cur.entry_dirty(k));
                        assert(self.entry_stamp(k) == cur.entry_stamp(k));
                    }
                    assert(store@.contains_key(k) == scur@.contains_key(k));
                    if scur@.contains_key(k) {
                        assert(store@[k] == scur@[k]);
                    }
                }
                assert forall|k: u64|
                    !ids@.contains(k) implies #[trigger] Self::outside(
                    pre,
                    spre,
                    *self,
                    *store,
                    k,
                ) by {
                    assert(Self::outside(pre, spre, cur, scur, k));
                    assert(ids@[j0] == id);
                    assert(k != id);
                    assert(self.in_tracker(k) == cur.in_tracker(k));
                    assert(self.has_entry(k) == cur.has_entry(k));
                    if cur.has_entry(k) {
                        assert(self.entry_data(k) == cur.entry_data(k));
                        assert(self.entry_dirty(k) == cur.entry_dirty(k));
                        assert(self.entry_stamp(k) == cur.entry_stamp(k));
                    }
                    assert(store@.contains_key(k) == scur@.contains_key(k));
                    if scur@.contains_key(k) {
                        assert(store@[k] == scur@[k]);
                    }
                }
                assert forall|k: u64|
                    #[trigger] self.stored(*store, k) == pre.stored(spre, k) by {
                    assert(self.stored(*store, k) == cur.stored(scur, k));
                }
            }
            j = j + 1;
            proof {
                assert(j as int == j0 + 1);
            }
        }
        proof {
            assert forall|k: u64|
                pre.in_tracker(k) implies Self::drained(pre, spre, *self, *store, k) by {
                assert(pre.tracker.order().contains(k)) by {
                    assert(pre.tracker@.dom() == pre.tracker.order().to_set());
                }
                let m = choose|m: int| 0 <= m < ids@.len() && ids@[m] == k;
                assert(Self::drained(pre, spre, *self, *store, ids@[m]));
            }
            assert forall|k: u64|
                !pre.in_tracker(k) implies Self::outside(pre, spre, *self, *store, k) by {
                assert(!ids@.contains(k)) by {
                    if ids@.contains(k) {
                        let m = choose|m: int| 0 <= m < ids@.len() && ids@[m] == k;
                        assert(pre.tracker.order()[m] == k);
                        assert(pre.tracker.order().to_set().contains(k));
                        assert(pre.tracker@.dom() == pre.tracker.order().to_set());
                    }
                }
            }
            assert forall|k: u64| !(#[trigger] self.in_tracker(k)) by {
                if pre.in_tracker(k) {
                    assert(Self::drained(pre, spre, *self, *store, k));
                } else {
                    assert(Self::outside(pre, spre, *self, *store, k));
                }
            }
            assert forall|k: u64| #[trigger] self.has_entry(k) == pre.has_entry(k) by {
                if pre.in_tracker(k) {
                    assert(Self::drained(pre, spre, *self, *store, k));
                } else {
                    assert(Self::outside(pre, spre, *self, *store, k));
                }
            }
            assert forall|k: u64|
                pre.has_entry(k) implies #[trigger] self.entry_data(k) == pre.entry_data(k)
                && !self.entry_dirty(k) by {
                if pre.in_tracker(k) {
                    assert(Self::drained(pre, spre, *self, *store, k));
                } else {
                    assert(Self::outside(pre, spre, *self, *store, k));
                    if self.entry_dirty(k) {
                        assert(pre.entry_dirty(k));
                        assert(pre.in_tracker(k));
                    }
                }
            }
            assert forall|k: u64|
                pre.has_entry(k) && pre.entry_dirty(k) implies #[trigger] store@.contains_key(k)
                && store@[k] == pre.entry_data(k) by {
                assert(pre.in_tracker(k));
                assert(Self::drained(pre, spre, *self, *store, k));
            }
            assert forall|k: u64|
                !(pre.has_entry(k) && pre.entry_dirty(k)) implies #[trigger] store@.contains_key(
                k,
            ) == spre@.contains_key(k) && (spre@.contains_key(k) ==> store@[k] == spre@[k]) by {
                if pre.in_tracker(k) {
                    assert(Self::drained(pre, spre, *self, *store, k));
                } else {
                    assert(Self::outside(pre, spre, *self, *store, k));
                }
            }
        }
    }

    /// Everything one run of the periodic sweep at time `now` guarantees:
    /// every block whose dirty registration is older than the write-back
    /// delay is flushed (dirty entries persisted and cleaned) and leaves
    /// the tracker; younger registrations, all cache contents, and all
    /// other store contents stay exactly as they were.
    pub open spec fn sweep_post(
        pre: Self,
        post: Self,
        spre: BlockStore,
        spost: BlockStore,
        now: u64,
    ) -> bool {
        &&& post.wf()
        &&& post.coherent(spost)
        &&& post.cap() == pre.cap()
        &&& post.interval() == pre.interval()
        &&& forall|k: u64| #[trigger] post.stored(spost, k) == pre.stored(spre, k)
        &&& forall|k: u64| #[trigger] post.has_entry(k) == pre.has_entry(k)
        &&& forall|k: u64|
            pre.has_entry(k) ==> #[trigger] post.entry_data(k) == pre.entry_data(k)
                && post.entry_stamp(k) == pre.entry_stamp(k)
        &&& forall|k: u64|
            pre.in_tracker(k) && is_expired(pre.tracker_stamp(k), now, pre.interval()) ==> !(
            #[trigger] post.in_tracker(k))
        &&& forall|k: u64|
            pre.in_tracker(k) && is_expired(pre.tracker_stamp(k), now, pre.interval())
                && pre.has_entry(k) && pre.entry_dirty(k) ==> #[trigger] spost@.contains_key(k)
                && spost@[k] == pre.entry_data(k) && !post.entry_dirty(k)
        &&& forall|k: u64|
            pre.in_tracker(k) && !is_expired(pre.tracker_stamp(k), now, pre.interval())
                ==> #[trigger] post.in_tracker(k) && post.tracker_stamp(k) == pre.tracker_stamp(k)
                && (pre.has_entry(k) ==> post.entry_dirty(k) == pre.entry_dirty(k))
        &&& forall|k: u64|
            !pre.in_tracker(k) ==> !(#[trigger] post.in_tracker(k)) && (pre.has_entry(k)
                ==> post.entry_dirty(k) == pre.entry_dirty(k))
        &&& forall|k: u64|
            !(pre.in_tracker(k) && is_expired(pre.tracker_stamp(k), now, pre.interval())
                && pre.has_entry(k) && pre.entry_dirty(k)) ==> #[trigger] spost@.contains_key(k)
                == spre@.contains_key(k) && (spre@.contains_key(k) ==> spost@[k] == spre@[k])
    }

    /// One tick of the periodic write-back sweep at time `now`: select
    /// every tracked block whose dirty registration is at least the
    /// write-back delay old, drop it from the tracker, and write its entry
    /// through if it is still dirty.
    pub fn periodic_sweep(&mut self, store: &mut BlockStore, now: u64)
        requires
            old(self).wf(),
            old(self).coherent(*old(store)),
        ensures
            Self::sweep_post(*old(self), *final(self), *old(store), *final(store), now),
    {
        let ghost pre = *self;
        let ghost spre = *store;
        let ids = self.tracker.keys();
        let n = ids.len();
        let mut j: usize = 0;
        while j < n
            invariant
                n == ids@.len(),
                j <= n,
                ids@ == pre.tracker.order(),
                ids@.no_duplicates(),
                pre.wf(),
                pre.coherent(spre),
                self.wf(),
                self.coherent(*store),
                self.cap() == pre.cap(),
                self.interval() == pre.interval(),
                forall|k: u64| #[trigger] self.stored(*store, k) == pre.stored(spre, k),
                forall|m: int|
                    0 <= m < j ==> #[trigger] Self::swept(pre, spre, *self, *store, ids@[m], now),
                forall|m: int|
                    j <= m < n ==> #[trigger] Self::waiting(pre, spre, *self, *store, ids@[m]),
                forall|k: u64|
                    !ids@.contains(k) ==> #[trigger] Self::outside(pre, spre, *self, *store, k),
            decreases n - j,
        {
            let id = ids[j];
            let ghost j0 = j as int;
            let ghost cur = *self;
            let ghost scur = *store;
            proof {
                assert(Self::waiting(pre, spre, cur, scur, id));
            }
            let stamp: u64 = match self.tracker.get(id) {
                Some(t) => *t,
                None => {
                    proof {
                        assert(false);
                    }
                    0
                },
            };
            let due = stamp <= now && now - stamp >= self.flush_interval;
            proof {
                assert(stamp == pre.tracker_stamp(id));
                assert(due == is_expired(pre.tracker_stamp(id), now, pre.interval()));
            }
            if due {
                self.flush_tracked(store, id);
            }
            proof {
                assert forall|m: int|
                    0 <= m < j0 + 1 implies #[trigger] Self::swept(
                    pre,
                    spre,
                    *self,
                    *store,
                    ids@[m],
                    now,
                ) by {
                    let k = ids@[m];
                    if m < j0 {
                        assert(Self::swept(pre, spre, cur, scur, k, now));
                        assert(k != id);
                        assert(self.in_tracker(k) == cur.in_tracker(k));
                        if cur.in_tracker(k) {
                            assert(self.tracker_stamp(k) == cur.tracker_stamp(k));
                        }
                        assert(self.has_entry(k) == cur.has_entry(k));
                        if cur.has_entry(k) {
                            assert(self.entry_data(k) == cur.entry_data(k));
                            assert(self.entry_dirty(k) == cur.entry_dirty(k));
                            assert(self.entry_stamp(k) == cur.entry_stamp(k));
                        }
                        assert(store@.contains_key(k) == scur@.contains_key(k));
                        if scur@.contains_key(k) {
                            assert(store@[k] == scur@[k]);
                        }
                    } else {
                        assert(k == id);
                        if due {
                            if pre.has_entry(id) && pre.entry_dirty(id) {
                                assert(cur.has_entry(id) && cur.entry_dirty(id));
                                assert(store@ == scur@.insert(id, cur.entry_data(id)));
                            } else {
                                assert(!(cur.has_entry(id) && cur.entry_dirty(id)));
                                assert(*store == scur);
                            }
                        }
                    }
                }
                assert forall|m: int|
                    j0 + 1 <= m < n implies #[trigger] Self::waiting(
                    pre,
                    spre,
                    *self,
                    *store,
                    ids@[m],
                ) by {
                    let k = ids@[m];
                    assert(Self::waiting(pre, spre, cur, scur, k));
                    assert(k != id);
                    assert(self.in_tracker(k) == cur.in_tracker(k));
                    if cur.in_tracker(k) {
                        assert(self.tracker_stamp(k) == cur.tracker_stamp(k));
                    }
                    assert(self.has_entry(k) == cur.has_entry(k));
                    if cur.has_entry(k) {
                        assert(self.entry_data(k) == cur.entry_data(k));
                        assert(self.entry_dirty(k) == cur.entry_dirty(k));
                        assert(self.entry_stamp(k) == cur.entry_stamp(k));
                    }
                    assert(store@.contains_key(k) == scur@.contains_key(k));
                    if scur@.contains_key(k) {
                        assert(store@[k] == scur@[k]);
                    }
                }
                assert forall|k: u64|
                    !ids@.contains(k) implies #[trigger] Self::outside(
                    pre,
                    spre,
                    *self,
                    *store,
                    k,
                ) by {
                    assert(Self::outside(pre, spre, cur, scur, k));
                    assert(ids@[j0] == id);
                    assert(k != id);
                    assert(self.in_tracker(k) == cur.in_tracker(k));
                    assert(self.has_entry(k) == cur.has_entry(k));
                    if cur.has_entry(k) {
                        assert(self.entry_data(k) == cur.entry_data(k));
                        assert(self.entry_dirty(k) == cur.entry_dirty(k));
                        assert(self.entry_stamp(k) == cur.entry_stamp(k));
                    }
                    assert(store@.contains_key(k) == scur@.contains_key(k));
                    if scur@.contains_key(k) {
                        assert(store@[k] == scur@[k]);
                    }
                }
                assert forall|k: u64|
                    #[trigger] self.stored(*store, k) == pre.stored(spre, k) by {
                    assert(self.stored(*store, k) == cur.stored(scur, k));
                }
            }
            j = j + 1;
            proof {
                assert(j as int == j0 + 1);
            }
        }
        proof {
            assert forall|k: u64|
                pre.in_tracker(k) implies Self::swept(pre, spre, *self, *store, k, now) by {
                assert(pre.tracker.order().contains(k)) by {
                    assert(pre.tracker@.dom() == pre.tracker.order().to_set());
                }
                let m = choose|m: int| 0 <= m < ids@.len() && ids@[m] == k;
                assert(Self::swept(pre, spre, *self, *store, ids@[m], now));
            }
            assert forall|k: u64|
                !pre.in_tracker(k) implies Self::outside(pre, spre, *self, *store, k) by {
                assert(!ids@.contains(k)) by {
                    if ids@.contains(k) {
                        let m = choose|m: int| 0 <= m < ids@.len() && ids@[m] == k;
                        assert(pre.tracker.order()[m] == k);
                        assert(pre.tracker.order().to_set().contains(k));
                        assert(pre.tracker@.dom() == pre.tracker.order().to_set());
                    }
                }
            }
            assert forall|k: u64| #[trigger] self.has_entry(k) == pre.has_entry(k) by {
                if pre.in_tracker(k) {
                    assert(Self::swept(pre, spre, *self, *store, k, now));
                } else {
                    assert(Self::outside(pre, spre, *self, *store, k));
                }
            }
            assert forall|k: u64|
                pre.has_entry(k) implies #[trigger] self.entry_data(k) == pre.entry_data(k)
                && self.entry_stamp(k) == pre.entry_stamp(k) by {
                if pre.in_tracker(k) {
                    assert(Self::swept(pre, spre, *self, *store, k, now));
                } else {
                    assert(Self::outside(pre, spre, *self, *store, k));
                }
            }
            assert forall|k: u64|
                pre.in_tracker(k) && is_expired(pre.tracker_stamp(k), now, pre.interval())
                implies !(#[trigger] self.in_tracker(k)) by {
                assert(Self::swept(pre, spre, *self, *store, k, now));
            }
            assert forall|k: u64|
                pre.in_tracker(k) && is_expired(pre.tracker_stamp(k), now, pre.interval())
                && pre.has_entry(k) && pre.entry_dirty(k) implies #[trigger] store@.contains_key(
                k,
            ) && store@[k] == pre.entry_data(k) && !self.entry_dirty(k) by {
                assert(Self::swept(pre, spre, *self, *store, k, now));
            }
            assert forall|k: u64|
                pre.in_tracker(k) && !is_expired(pre.tracker_stamp(k), now, pre.interval())
                implies #[trigger] self.in_tracker(k) && self.tracker_stamp(k)
                == pre.tracker_stamp(k) && (pre.has_entry(k) ==> self.entry_dirty(k)
                == pre.entry_dirty(k)) by {
                assert(Self::swept(pre, spre, *self, *store, k, now));
            }
            assert forall|k: u64|
                !pre.in_tracker(k) implies !(#[trigger] self.in_tracker(k)) && (pre.has_entry(k)
                ==> self.entry_dirty(k) == pre.entry_dirty(k)) by {
                assert(Self::outside(pre, spre, *self, *store, k));
            }
            assert forall|k: u64|
                !(pre.in_tracker(k) && is_expired(pre.tracker_stamp(k), now, pre.interval())
                    && pre.has_entry(k) && pre.entry_dirty(k)) implies #[trigger] store@.contains_key(
                k,
            ) == spre@.contains_key(k) && (spre@.contains_key(k) ==> store@[k] == spre@[k]) by {
                if pre.in_tracker(k) {
                    assert(Self::swept(pre, spre, *self, *store, k, now));
                } else {
                    assert(Self::outside(pre, spre, *self, *store, k));
                }
            }
        }
    }

    /// One block's state after the sweep at time `now` has considered it:
    /// if its registration was old enough it has been drained, otherwise
    /// it is still waiting untouched.
    spec fn swept(
        pre: Self,
        spre: BlockStore,
        cur: Self,
        scur: BlockStore,
        k: u64,
        now: u64,
    ) -> bool {
        if is_expired(pre.tracker_stamp(k), now, pre.interval()) {
            Self::drained(pre, spre, cur, scur, k)
        } else {
            Self::waiting(pre, spre, cur, scur, k)
        }
    }

    /// React to one command from the engine's channel; commands are
    /// consumed in order, and `ShutDown` drains the tracker and ends the
    /// consumer loop, which the `false` result tells the caller.
    pub fn handle_operation(&mut self, store: &mut BlockStore, op: BlockOperation) -> (cont:
        bool)
        requires
            old(self).wf(),
            old(self).coherent(*old(store)),
        ensures
            cont == !(op matches BlockOperation::ShutDown),
            match op {
                BlockOperation::MarkDirty(id, t) => {
                    &&& final(self).wf()
                    &&& final(self).coherent(*final(store))
                    &&& final(self).cap() == old(self).cap()
                    &&& final(self).interval() == old(self).interval()
                    &&& final(self).in_tracker(id)
                    &&& final(self).tracker_stamp(id) == t
                    &&& forall|k: u64|
                        k != id ==> #[trigger] final(self).in_tracker(k) == old(self).in_tracker(
                            k,
                        ) && (old(self).in_tracker(k) ==> final(self).tracker_stamp(k) == old(
                            self,
                        ).tracker_stamp(k))
                    &&& forall|k: u64|
                        #[trigger] final(self).has_entry(k) == old(self).has_entry(k)
                            && (old(self).has_entry(k) ==> final(self).entry_data(k) == old(
                            self,
                        ).entry_data(k) && final(self).entry_dirty(k) == old(self).entry_dirty(k)
                            && final(self).entry_stamp(k) == old(self).entry_stamp(k))
                    &&& *final(store) == *old(store)
                    &&& forall|k: u64|
                        #[trigger] final(self).stored(*final(store), k) == old(self).stored(
                            *old(store),
                            k,
                        )
                },
                BlockOperation::Flush(id) => Self::flush_block_post(
                    *old(self),
                    *final(self),
                    *old(store),
                    *final(store),
                    id,
                    old(self).has_entry(id) && old(self).entry_dirty(id),
                ),
                BlockOperation::ShutDown => Self::shutdown_post(
                    *old(self),
                    *final(self),
                    *old(store),
                    *final(store),
                ),
            },
    {
        match op {
            BlockOperation::MarkDirty(id, t) => {
                self.tracker.insert(id, t);
                proof {
                    assert forall|k: u64|
                        #[trigger] self.has_entry(k) == old(self).has_entry(k)
                        && (old(self).has_entry(k) ==> self.entry_data(k) == old(
                        self,
                    ).entry_data(k) && self.entry_dirty(k) == old(self).entry_dirty(k)
                        && self.entry_stamp(k) == old(self).entry_stamp(k)) by {}
                    assert forall|k: u64|
                        #[trigger] self.has_entry(k) && self.entry_dirty(k)
                        implies self.in_tracker(k) by {
                        assert(old(self).has_entry(k) && old(self).entry_dirty(k));
                        assert(old(self).in_tracker(k));
                    }
                    assert forall|k: u64|
                        #[trigger] self.has_entry(k) && !self.entry_dirty(k) implies (
                    if store@.contains_key(k) {
                        self.entry_data(k) == store@[k]
                    } else {
                        self.entry_data(k) == Seq::<u8>::empty()
                    }) by {
                        assert(old(self).has_entry(k) && !old(self).entry_dirty(k));
                    }
                    assert forall|k: u64|
                        #[trigger] self.stored(*store, k) == old(self).stored(*old(store), k) by {}
                }
                true
            },
            BlockOperation::Flush(id) => {
                let _ = self.flush_block(store, id, false);
                true
            },
            BlockOperation::ShutDown => {
                self.shutdown(store);
                false
            },
        }
    }
}

} // verus!
