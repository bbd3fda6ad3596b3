//! A model of the backing store at the block layer: the durable mapping from
//! block id to block bytes. The surrounding program keeps the real sharded
//! directory tree in step with this map, writing each block through a
//! temporary file and an atomic rename; block path layout is computed by
//! [`crate::block`]. Everything above this layer is specified against the
//! map view.

use vstd::prelude::*;
use crate::vecmap::VecMap;

verus! {

/// Copy a byte vector; the copy holds exactly the same bytes.
pub(crate) fn clone_bytes(v: &Vec<u8>) -> (r: Vec<u8>)
    ensures
        r@ == v@,
{
    let r = v.clone();
    proof {
        assert(r@ =~= v@);
    }
    r
}

/// The durable block contents, addressed by block id. A block that was
/// never written has no key here; the cache treats it as empty.
pub struct BlockStore {
    blocks: VecMap<Vec<u8>>,
}

impl View for BlockStore {
    type V = Map<u64, Seq<u8>>;

    closed spec fn view(&self) -> Map<u64, Seq<u8>> {
        Map::new(
            |id: u64| self.blocks@.dom().contains(id),
            |id: u64| self.blocks@[id]@,
        )
    }
}

impl BlockStore {
    /// An empty store: no block has ever been persisted.
    pub fn new() -> (r: Self)
        ensures
            r@ == Map::<u64, Seq<u8>>::empty(),
    {
        let r = BlockStore { blocks: VecMap::new() };
        proof {
            assert(r@ =~= Map::<u64, Seq<u8>>::empty());
        }
        r
    }

    /// Persist `data` as the durable content of block `id`, replacing
    /// whatever the store held for it.
    pub fn write_block(&mut self, id: u64, data: Vec<u8>)
        ensures
            final(self)@ == old(self)@.insert(id, data@),
    {
        let ghost m0 = self@;
        let ghost d = data@;
        self.blocks.insert(id, data);
        proof {
            assert(self@ =~= m0.insert(id, d));
        }
    }

    /// The durable content of block `id`, or `None` if it was never written.
    pub fn read_block(&self, id: u64) -> (r: Option<&Vec<u8>>)
        ensures
            match r {
                Some(v) => self@.contains_key(id) && v@ == self@[id],
                None => !self@.contains_key(id),
            },
    {
        self.blocks.get(id)
    }

    /// Whether block `id` has ever been durably written.
    pub fn contains_block(&self, id: u64) -> (r: bool)
        ensures
            r == self@.contains_key(id),
    {
        self.blocks.contains_key(id)
    }
}

} // verus!
