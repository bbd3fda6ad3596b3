//! The superblock: the filesystem-wide record of identity and allocation
//! counters. It is the single source of truth for inode and block id
//! allocation; the counters only ever grow, so no id is ever handed out
//! twice, and the surrounding program persists the record before exposing
//! a fresh id.

use vstd::prelude::*;
use vstd::assert_seqs_equal;
use vstd::bytes::lemma_auto_spec_u32_to_from_le_bytes;
use vstd::bytes::lemma_auto_spec_u64_to_from_le_bytes;
use vstd::bytes::spec_u32_to_le_bytes;
use vstd::bytes::spec_u64_to_le_bytes;
use vstd::bytes::u32_from_le_bytes;
use vstd::bytes::u32_to_le_bytes;
use vstd::bytes::u64_from_le_bytes;
use vstd::bytes::u64_to_le_bytes;
use vstd::slice::slice_index_get;
use vstd::slice::slice_subrange;
use crate::block::BlockRef;
use crate::block::BLOCK_SIZE;

verus! {

/// The magic number identifying this filesystem's on-disk layout.
pub const SUPER_MAGIC: u64 = 0x54_69_6d_65_46_53;

/// The reserved id of the root directory inode.
pub const ROOT_INODE_ID: u64 = 1;

/// Persistent counters and identity of one store.
#[derive(Debug, Clone, Copy)]
pub struct SuperBlock {
    pub magic: u64,
    pub block_size: u32,
    pub inode_count: u64,
    pub next_inode_id: u64,
    pub next_block_id: u64,
    pub root_dir_inode: u64,
    pub create_at: u64,
    pub dirty: bool,
}

/// What one inode-id allocation does: it returns the next counter value
/// and advances the counter, touching nothing else.
pub open spec fn alloc_inode_id_post(pre: SuperBlock, post: SuperBlock, id: u64) -> bool {
    &&& pre.next_inode_id < u64::MAX
    &&& id == pre.next_inode_id
    &&& post == (SuperBlock { next_inode_id: (pre.next_inode_id + 1) as u64, ..pre })
}

/// What one block-id allocation does.
pub open spec fn alloc_block_id_post(pre: SuperBlock, post: SuperBlock, id: u64) -> bool {
    &&& pre.next_block_id < u64::MAX
    &&& id == pre.next_block_id
    &&& post == (SuperBlock { next_block_id: (pre.next_block_id + 1) as u64, ..pre })
}

impl SuperBlock {
    /// The record a fresh store starts from.
    pub open spec fn new_spec(created_at: u64) -> SuperBlock {
        SuperBlock {
            magic: SUPER_MAGIC,
            block_size: BLOCK_SIZE,
            inode_count: ROOT_INODE_ID,
            next_inode_id: (ROOT_INODE_ID + 1) as u64,
            next_block_id: 1u64,
            root_dir_inode: ROOT_INODE_ID,
            create_at: created_at,
            dirty: false,
        }
    }

    /// A fresh superblock for a store created at time `created_at`: the
    /// root directory inode is accounted for, and allocation starts just
    /// above it.
    pub fn new(created_at: u64) -> (r: Self)
        ensures
            r == Self::new_spec(created_at),
    {
        SuperBlock {
            magic: SUPER_MAGIC,
            block_size: BLOCK_SIZE,
            inode_count: ROOT_INODE_ID,
            next_inode_id: ROOT_INODE_ID + 1,
            next_block_id: 1,
            root_dir_inode: ROOT_INODE_ID,
            create_at: created_at,
            dirty: false,
        }
    }

    /// Hand out the next inode id and advance the counter; callers are
    /// fully serialized on the superblock's lock, so no two of them ever
    /// observe the same id.
    pub fn get_next_inode_id(&mut self) -> (id: u64)
        requires
            old(self).next_inode_id < u64::MAX,
        ensures
            alloc_inode_id_post(*old(self), *final(self), id),
    {
        let id = self.next_inode_id;
        self.next_inode_id = self.next_inode_id + 1;
        id
    }

    /// Hand out the next block id and advance the counter.
    pub fn get_next_block_id(&mut self) -> (id: u64)
        requires
            old(self).next_block_id < u64::MAX,
        ensures
            alloc_block_id_post(*old(self), *final(self), id),
    {
        let id = self.next_block_id;
        self.next_block_id = self.next_block_id + 1;
        id
    }

    /// Allocate a fresh block reference: a newly numbered block holding no
    /// bytes yet.
    pub fn new_block(&mut self) -> (r: BlockRef)
        requires
            old(self).next_block_id < u64::MAX,
        ensures
            alloc_block_id_post(*old(self), *final(self), r.block_id),
            r.size == 0,
    {
        let id = self.get_next_block_id();
        BlockRef::new(id)
    }

    /// The serialized form of a superblock record: every counter in fixed
    /// little-endian form, the dirty flag as a trailing byte.
    pub open spec fn encoded(sb: SuperBlock) -> Seq<u8> {
        spec_u64_to_le_bytes(sb.magic) + spec_u32_to_le_bytes(sb.block_size)
            + spec_u64_to_le_bytes(sb.inode_count) + spec_u64_to_le_bytes(sb.next_inode_id)
            + spec_u64_to_le_bytes(sb.next_block_id) + spec_u64_to_le_bytes(sb.root_dir_inode)
            + spec_u64_to_le_bytes(sb.create_at) + seq![
            if sb.dirty {
                1u8
            } else {
                0u8
            },
        ]
    }

    /// Serialize this record for its on-disk file; the surrounding program
    /// writes the bytes out at creation and on every durable-allocation
    /// boundary.
    pub fn to_bytes(&self) -> (r: Vec<u8>)
        ensures
            r@ == Self::encoded(*self),
            r@.len() == 53,
    {
        proof {
            lemma_auto_spec_u32_to_from_le_bytes();
            lemma_auto_spec_u64_to_from_le_bytes();
        }
        let mut r = u64_to_le_bytes(self.magic);
        let mut part = u32_to_le_bytes(self.block_size);
        r.append(&mut part);
        let mut part = u64_to_le_bytes(self.inode_count);
        r.append(&mut part);
        let mut part = u64_to_le_bytes(self.next_inode_id);
        r.append(&mut part);
        let mut part = u64_to_le_bytes(self.next_block_id);
        r.append(&mut part);
        let mut part = u64_to_le_bytes(self.root_dir_inode);
        r.append(&mut part);
        let mut part = u64_to_le_bytes(self.create_at);
        r.append(&mut part);
        if self.dirty {
            r.push(1);
        } else {
            r.push(0);
        }
        proof {
            assert(r@ =~= Self::encoded(*self));
        }
        r
    }

    /// Deserialize a superblock record read back from its on-disk file.
    /// Succeeds exactly on byte strings of the right length whose dirty
    /// byte is a valid flag — that is, exactly on encodings — and then
    /// returns the one record with that encoding.
    pub fn from_bytes(bytes: &[u8]) -> (r: Option<SuperBlock>)
        ensures
            match r {
                Some(sb) => bytes@ == Self::encoded(sb) && bytes@.len() == 53,
                None => bytes@.len() != 53 || (bytes@[52] != 0 && bytes@[52] != 1),
            },
    {
        proof {
            lemma_auto_spec_u32_to_from_le_bytes();
            lemma_auto_spec_u64_to_from_le_bytes();
        }
        if bytes.len() != 53 {
            return None;
        }
        let dirty_byte = *slice_index_get(bytes, 52);
        if dirty_byte != 0 && dirty_byte != 1 {
            return None;
        }
        let sb = SuperBlock {
            magic: u64_from_le_bytes(slice_subrange(bytes, 0, 8)),
            block_size: u32_from_le_bytes(slice_subrange(bytes, 8, 12)),
            inode_count: u64_from_le_bytes(slice_subrange(bytes, 12, 20)),
            next_inode_id: u64_from_le_bytes(slice_subrange(bytes, 20, 28)),
            next_block_id: u64_from_le_bytes(slice_subrange(bytes, 28, 36)),
            root_dir_inode: u64_from_le_bytes(slice_subrange(bytes, 36, 44)),
            create_at: u64_from_le_bytes(slice_subrange(bytes, 44, 52)),
            dirty: dirty_byte == 1,
        };
        proof {
            assert(spec_u64_to_le_bytes(sb.magic) == bytes@.subrange(0, 8));
            assert(spec_u32_to_le_bytes(sb.block_size) == bytes@.subrange(8, 12));
            assert(spec_u64_to_le_bytes(sb.inode_count) == bytes@.subrange(12, 20));
            assert(spec_u64_to_le_bytes(sb.next_inode_id) == bytes@.subrange(20, 28));
            assert(spec_u64_to_le_bytes(sb.next_block_id) == bytes@.subrange(28, 36));
            assert(spec_u64_to_le_bytes(sb.root_dir_inode) == bytes@.subrange(36, 44));
            assert(spec_u64_to_le_bytes(sb.create_at) == bytes@.subrange(44, 52));
            assert_seqs_equal!(bytes@ == Self::encoded(sb), i => {
                if i < 8 {
                    assert(bytes@.subrange(0, 8)[i] == bytes@[i]);
                } else if i < 12 {
                    assert(bytes@.subrange(8, 12)[i - 8] == bytes@[i]);
                } else if i < 20 {
                    assert(bytes@.subrange(12, 20)[i - 12] == bytes@[i]);
                } else if i < 28 {
                    assert(bytes@.subrange(20, 28)[i - 20] == bytes@[i]);
                } else if i < 36 {
                    assert(bytes@.subrange(28, 36)[i - 28] == bytes@[i]);
                } else if i < 44 {
                    assert(bytes@.subrange(36, 44)[i - 36] == bytes@[i]);
                } else if i < 52 {
                    assert(bytes@.subrange(44, 52)[i - 44] == bytes@[i]);
                } else {
                }
            });
        }
        Some(sb)
    }

    /// Account for one newly created inode.
    pub fn alloc_inode(&mut self)
        requires
            old(self).inode_count < u64::MAX,
        ensures
            *final(self) == (SuperBlock {
                inode_count: (old(self).inode_count + 1) as u64,
                ..*old(self)
            }),
    {
        self.inode_count = self.inode_count + 1;
    }
}

/// A superblock encoding is always 53 bytes ending in a valid flag byte,
/// so reading back what was written always decodes.
pub proof fn lemma_encoded_well_formed(sb: SuperBlock)
    ensures
        SuperBlock::encoded(sb).len() == 53,
        SuperBlock::encoded(sb)[52] == 0 || SuperBlock::encoded(sb)[52] == 1,
{
    lemma_auto_spec_u32_to_from_le_bytes();
    lemma_auto_spec_u64_to_from_le_bytes();
    assert(SuperBlock::encoded(sb)[52] == if sb.dirty {
        1u8
    } else {
        0u8
    });
}

/// Round trip: two records with the same encoding are the same record, so
/// decoding undoes encoding exactly.
pub proof fn lemma_encoded_injective(a: SuperBlock, b: SuperBlock)
    requires
        SuperBlock::encoded(a) == SuperBlock::encoded(b),
    ensures
        a == b,
{
    lemma_auto_spec_u32_to_from_le_bytes();
    lemma_auto_spec_u64_to_from_le_bytes();
    lemma_encoded_well_formed(a);
    assert(spec_u64_to_le_bytes(a.magic) =~= SuperBlock::encoded(a).subrange(0, 8));
    assert(spec_u64_to_le_bytes(b.magic) =~= SuperBlock::encoded(b).subrange(0, 8));
    assert(spec_u32_to_le_bytes(a.block_size) =~= SuperBlock::encoded(a).subrange(8, 12));
    assert(spec_u32_to_le_bytes(b.block_size) =~= SuperBlock::encoded(b).subrange(8, 12));
    assert(spec_u64_to_le_bytes(a.inode_count) =~= SuperBlock::encoded(a).subrange(12, 20));
    assert(spec_u64_to_le_bytes(b.inode_count) =~= SuperBlock::encoded(b).subrange(12, 20));
    assert(spec_u64_to_le_bytes(a.next_inode_id) =~= SuperBlock::encoded(a).subrange(20, 28));
    assert(spec_u64_to_le_bytes(b.next_inode_id) =~= SuperBlock::encoded(b).subrange(20, 28));
    assert(spec_u64_to_le_bytes(a.next_block_id) =~= SuperBlock::encoded(a).subrange(28, 36));
    assert(spec_u64_to_le_bytes(b.next_block_id) =~= SuperBlock::encoded(b).subrange(28, 36));
    assert(spec_u64_to_le_bytes(a.root_dir_inode) =~= SuperBlock::encoded(a).subrange(36, 44));
    assert(spec_u64_to_le_bytes(b.root_dir_inode) =~= SuperBlock::encoded(b).subrange(36, 44));
    assert(spec_u64_to_le_bytes(a.create_at) =~= SuperBlock::encoded(a).subrange(44, 52));
    assert(spec_u64_to_le_bytes(b.create_at) =~= SuperBlock::encoded(b).subrange(44, 52));
    assert(SuperBlock::encoded(a)[52] == if a.dirty {
        1u8
    } else {
        0u8
    });
    assert(SuperBlock::encoded(b)[52] == if b.dirty {
        1u8
    } else {
        0u8
    });
}

/// Allocation uniqueness: a run of successive inode-id allocations hands
/// out exactly the ids `first, first + 1, ...` — gapless from the starting
/// counter and pairwise distinct — whatever interleaving produced the run,
/// because every allocation is serialized through the one counter.
pub proof fn lemma_alloc_run_gapless(states: Seq<SuperBlock>, ids: Seq<u64>)
    requires
        states.len() == ids.len() + 1,
        forall|i: int|
            0 <= i < ids.len() ==> #[trigger] alloc_inode_id_post(states[i], states[i + 1], ids[i]),
    ensures
        forall|i: int|
            0 <= i < ids.len() ==> #[trigger] ids[i] == states[0].next_inode_id + i,
        ids.no_duplicates(),
    decreases ids.len(),
{
    if ids.len() > 0 {
        let m = ids.len() - 1;
        lemma_alloc_run_gapless(states.drop_last(), ids.drop_last());
        assert forall|i: int|
            0 <= i < ids.len() implies #[trigger] ids[i] == states[0].next_inode_id + i by {
            if i < m {
                assert(ids.drop_last()[i] == states.drop_last()[0].next_inode_id + i);
            } else {
                if m == 0 {
                    assert(alloc_inode_id_post(states[0], states[1], ids[0]));
                } else {
                    let i0 = m - 1;
                    assert(ids.drop_last()[i0] == states[0].next_inode_id + i0);
                    assert(alloc_inode_id_post(states[i0], states[i0 + 1], ids[i0]));
                    assert(i0 + 1 == m);
                    assert(alloc_inode_id_post(states[m], states[m + 1], ids[m]));
                }
            }
        }
        assert forall|a: int, b: int|
            0 <= a < b < ids.len() implies ids[a] != ids[b] by {
            assert(ids[a] == states[0].next_inode_id + a);
            assert(ids[b] == states[0].next_inode_id + b);
        }
    }
}

} // verus!
