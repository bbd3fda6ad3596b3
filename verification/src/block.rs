//! Blocks: the fixed-maximum-size unit of file content, addressed by a
//! 64-bit id. A file inode points at its blocks through ordered
//! [`BlockRef`]s; the trailing block may be partially filled. Blocks are
//! sharded on disk into subdirectories by `id / 1000` (zero-padded to at
//! least three digits), with one file `block_<id>.bin` per block; the
//! relative path of a block's file is computed here, as bytes that the
//! surrounding program turns into a real path.

use vstd::prelude::*;

verus! {

/// The maximum number of content bytes one block holds.
pub const BLOCK_SIZE: u32 = 4096;

/// One file inode's pointer to an on-disk block: the block's id and the
/// number of valid bytes it holds.
#[derive(Debug, Clone, Copy, PartialEq, Eq, Structural)]
pub struct BlockRef {
    pub block_id: u64,
    pub size: u32,
}

impl BlockRef {
    /// A reference to a freshly allocated block holding no bytes yet.
    pub fn new(id: u64) -> (r: Self)
        ensures
            r == (BlockRef { block_id: id, size: 0u32 }),
    {
        BlockRef { block_id: id, size: 0 }
    }

    /// How many blocks a file of `size` bytes occupies.
    pub open spec fn blocks_needed(size: u64) -> int {
        (size + BLOCK_SIZE - 1) / (BLOCK_SIZE as int)
    }

    /// The block references of a file of `size` bytes stored in
    /// consecutively numbered blocks starting at `first`: every block is
    /// full except the trailing one, which holds the remainder.
    pub open spec fn block_run(first: u64, size: u64) -> Seq<BlockRef> {
        Seq::new(
            Self::blocks_needed(size) as nat,
            |i: int|
                BlockRef {
                    block_id: (first + i) as u64,
                    size: if i == Self::blocks_needed(size) - 1 {
                        (size - i * (BLOCK_SIZE as int)) as u32
                    } else {
                        BLOCK_SIZE
                    },
                },
        )
    }

    /// Allocate the block references for a file of `size` bytes in
    /// consecutively numbered blocks starting at `first`. The run's length
    /// is exactly the number of blocks the size requires.
    pub fn alloc_blocks(first: u64, size: u64) -> (r: Vec<BlockRef>)
        requires
            size <= u64::MAX - BLOCK_SIZE,
            first + Self::blocks_needed(size) <= u64::MAX,
        ensures
            r@ == Self::block_run(first, size),
            r@.len() == Self::blocks_needed(size),
    {
        let bs: u64 = BLOCK_SIZE as u64;
        let n: u64 = (size + bs - 1) / bs;
        proof {
            assert(n == Self::blocks_needed(size));
        }
        let mut r: Vec<BlockRef> = Vec::new();
        let mut i: u64 = 0;
        while i < n
            invariant
                n == Self::blocks_needed(size),
                size <= u64::MAX - BLOCK_SIZE,
                first + n <= u64::MAX,
                bs == BLOCK_SIZE,
                i <= n,
                r@ == Self::block_run(first, size).subrange(0, i as int),
            decreases n - i,
        {
            proof {
                assert((n - 1) * (bs as int) < size + bs && size <= n * (bs as int)) by (
                nonlinear_arith)
                    requires
                        n == (size + bs - 1) / (bs as int),
                        bs == 4096,
                        size <= u64::MAX - bs,
                {}
                assert(i < n ==> i * (bs as int) <= (n - 1) * (bs as int)) by (nonlinear_arith)
                    requires
                        i < n,
                        bs == 4096,
                {}
            }
            let sz: u32 = if i == n - 1 {
                (size - (n - 1) * bs) as u32
            } else {
                BLOCK_SIZE
            };
            r.push(BlockRef { block_id: first + i, size: sz });
            proof {
                assert(Self::block_run(first, size)[i as int] == (BlockRef {
                    block_id: (first + i) as u64,
                    size: sz,
                }));
                assert(r@ =~= Self::block_run(first, size).subrange(0, i + 1));
            }
            i = i + 1;
        }
        proof {
            assert(r@ =~= Self::block_run(first, size));
        }
        r
    }
}

/// The decimal digits of `n`, as ASCII bytes, most significant first.
pub open spec fn dec_digits(n: nat) -> Seq<u8>
    decreases n,
{
    if n < 10 {
        seq![(48 + n) as u8]
    } else {
        dec_digits(n / 10).push((48 + n % 10) as u8)
    }
}

/// `s` left-padded with ASCII zeros to at least three bytes.
pub open spec fn zero_pad3(s: Seq<u8>) -> Seq<u8> {
    if s.len() >= 3 {
        s
    } else {
        Seq::new((3 - s.len()) as nat, |i: int| 48u8) + s
    }
}

/// The name of the sharding directory that holds block `id`:
/// `id / 1000`, zero-padded to at least three digits.
pub open spec fn block_dir_name(id: u64) -> Seq<u8> {
    zero_pad3(dec_digits((id / 1000) as nat))
}

/// The file name of block `id`: `block_<id>.bin`.
pub open spec fn block_file_name(id: u64) -> Seq<u8> {
    seq![98u8, 108u8, 111u8, 99u8, 107u8, 95u8] + dec_digits(id as nat) + seq![
        46u8,
        98u8,
        105u8,
        110u8,
    ]
}

/// The decimal digits of `n` as ASCII bytes.
pub fn dec_bytes(n: u64) -> (r: Vec<u8>)
    ensures
        r@ == dec_digits(n as nat),
    decreases n,
{
    if n < 10 {
        let mut v: Vec<u8> = Vec::new();
        v.push(48 + n as u8);
        proof {
            assert(v@ =~= dec_digits(n as nat));
        }
        v
    } else {
        let mut v = dec_bytes(n / 10);
        v.push(48 + (n % 10) as u8);
        proof {
            assert(v@ =~= dec_digits(n as nat));
        }
        v
    }
}

/// The relative path of block `id` under the blocks directory:
/// `<shard>/block_<id>.bin`, as ASCII bytes.
pub fn block_rel_path(id: u64) -> (r: Vec<u8>)
    ensures
        r@ == block_dir_name(id) + seq![47u8] + block_file_name(id),
{
    let mut r: Vec<u8> = Vec::new();
    let dir = dec_bytes(id / 1000);
    let mut pad: usize = 0;
    if dir.len() < 3 {
        pad = 3 - dir.len();
    }
    let mut i: usize = 0;
    while i < pad
        invariant
            i <= pad,
            pad == if dir@.len() < 3 {
                3 - dir@.len()
            } else {
                0int
            },
            r@ =~= Seq::new(i as nat, |m: int| 48u8),
        decreases pad - i,
    {
        r.push(48);
        proof {
            assert(r@ =~= Seq::new((i + 1) as nat, |m: int| 48u8));
        }
        i = i + 1;
    }
    let mut j: usize = 0;
    while j < dir.len()
        invariant
            j <= dir@.len(),
            pad == if dir@.len() < 3 {
                3 - dir@.len()
            } else {
                0int
            },
            dir@ == dec_digits((id / 1000) as nat),
            r@ =~= Seq::new(pad as nat, |m: int| 48u8) + dir@.subrange(0, j as int),
        decreases dir@.len() - j,
    {
        r.push(dir[j]);
        proof {
            assert(r@ =~= Seq::new(pad as nat, |m: int| 48u8) + dir@.subrange(0, j + 1));
        }
        j = j + 1;
    }
    proof {
        assert(dir@.subrange(0, dir@.len() as int) =~= dir@);
        assert(r@ =~= block_dir_name(id));
    }
    r.push(47);
    let mut tail: Vec<u8> = Vec::new();
    tail.push(98);
    tail.push(108);
    tail.push(111);
    tail.push(99);
    tail.push(107);
    tail.push(95);
    let digits = dec_bytes(id);
    let mut m: usize = 0;
    while m < digits.len()
        invariant
            m <= digits@.len(),
            digits@ == dec_digits(id as nat),
            tail@ =~= seq![98u8, 108u8, 111u8, 99u8, 107u8, 95u8] + digits@.subrange(0, m as int),
        decreases digits@.len() - m,
    {
        tail.push(digits[m]);
        proof {
            assert(tail@ =~= seq![98u8, 108u8, 111u8, 99u8, 107u8, 95u8] + digits@.subrange(
                0,
                m + 1,
            ));
        }
        m = m + 1;
    }
    tail.push(46);
    tail.push(98);
    tail.push(105);
    tail.push(110);
    proof {
        assert(digits@.subrange(0, digits@.len() as int) =~= digits@);
        assert(tail@ =~= block_file_name(id));
    }
    let mut q: usize = 0;
    let ghost rprefix = r@;
    while q < tail.len()
        invariant
            q <= tail@.len(),
            r@ =~= rprefix + tail@.subrange(0, q as int),
        decreases tail@.len() - q,
    {
        r.push(tail[q]);
        proof {
            assert(r@ =~= rprefix + tail@.subrange(0, q + 1));
        }
        q = q + 1;
    }
    proof {
        assert(tail@.subrange(0, tail@.len() as int) =~= tail@);
        assert(r@ =~= block_dir_name(id) + seq![47u8] + block_file_name(id));
    }
    r
}

/// The file name of inode `id`'s persisted record: `inode_<id>.bin`.
pub open spec fn inode_file_name(id: u64) -> Seq<u8> {
    seq![105u8, 110u8, 111u8, 100u8, 101u8, 95u8] + dec_digits(id as nat) + seq![
        46u8,
        98u8,
        105u8,
        110u8,
    ]
}

/// The file name of inode `id`'s persisted record, as ASCII bytes.
pub fn inode_rel_path(id: u64) -> (r: Vec<u8>)
    ensures
        r@ == inode_file_name(id),
{
    let mut r: Vec<u8> = Vec::new();
    r.push(105);
    r.push(110);
    r.push(111);
    r.push(100);
    r.push(101);
    r.push(95);
    let digits = dec_bytes(id);
    let mut m: usize = 0;
    while m < digits.len()
        invariant
            m <= digits@.len(),
            digits@ == dec_digits(id as nat),
            r@ =~= seq![105u8, 110u8, 111u8, 100u8, 101u8, 95u8] + digits@.subrange(0, m as int),
        decreases digits@.len() - m,
    {
        r.push(digits[m]);
        proof {
            assert(r@ =~= seq![105u8, 110u8, 111u8, 100u8, 101u8, 95u8] + digits@.subrange(
                0,
                m + 1,
            ));
        }
        m = m + 1;
    }
    r.push(46);
    r.push(98);
    r.push(105);
    r.push(110);
    proof {
        assert(digits@.subrange(0, digits@.len() as int) =~= digits@);
        assert(r@ =~= inode_file_name(id));
    }
    r
}

} // verus!
