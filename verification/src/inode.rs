//! Inodes: the metadata record of one file or directory. A file inode
//! carries its ordered block references and its size; a directory inode
//! carries its entries, a mapping from child name to child inode id in
//! which names are unique keys. Inodes are created through the
//! filesystem's create operations, numbered by the superblock, and
//! persisted each to its own record by the surrounding program.

use vstd::prelude::*;
use vstd::assert_seqs_equal;
use vstd::bytes::lemma_auto_spec_u16_to_from_le_bytes;
use vstd::bytes::lemma_auto_spec_u32_to_from_le_bytes;
use vstd::bytes::lemma_auto_spec_u64_to_from_le_bytes;
use vstd::bytes::spec_u16_to_le_bytes;
use vstd::bytes::spec_u32_to_le_bytes;
use vstd::bytes::spec_u64_to_le_bytes;
use vstd::bytes::u16_from_le_bytes;
use vstd::bytes::u16_to_le_bytes;
use vstd::bytes::u32_from_le_bytes;
use vstd::bytes::u32_to_le_bytes;
use vstd::bytes::u64_from_le_bytes;
use vstd::bytes::u64_to_le_bytes;
use vstd::slice::slice_index_get;
use vstd::slice::slice_subrange;
use vstd::slice::slice_to_vec;
use vstd::utf8::encode_utf8;
use vstd::utf8::valid_utf8;
use crate::attr::FileAttr;
use crate::attr::FileType;
use crate::block::BlockRef;
use crate::errors::TimeFSError;

verus! {

/// Relies on String::from_utf8: it succeeds exactly on valid UTF-8 input
/// and returns the string whose UTF-8 encoding is that input.
#[verifier::external_body]
fn string_from_utf8_bytes(v: Vec<u8>) -> (r: Option<String>)
    ensures
        r matches Some(s) ==> encode_utf8(s@) == v@,
        r is None ==> !valid_utf8(v@),
{
    String::from_utf8(v).ok()
}

/// The map that a name-id pair sequence denotes, keyed by the name's
/// characters; a later pair wins (with unique names the question does not
/// arise).
pub open spec fn entries_map_of(s: Seq<(String, u64)>) -> Map<Seq<char>, u64>
    decreases s.len(),
{
    if s.len() == 0 {
        Map::empty()
    } else {
        entries_map_of(s.drop_last()).insert(s.last().0@, s.last().1)
    }
}

/// The names of a pair sequence, in order.
pub open spec fn entry_names_of(s: Seq<(String, u64)>) -> Seq<Seq<char>> {
    s.map_values(|p: (String, u64)| p.0@)
}

proof fn lemma_entries_contains(s: Seq<(String, u64)>, n: Seq<char>)
    ensures
        entries_map_of(s).contains_key(n) <==> entry_names_of(s).contains(n),
    decreases s.len(),
{
    if s.len() == 0 {
    } else {
        lemma_entries_contains(s.drop_last(), n);
        if entry_names_of(s).contains(n) {
            let i = choose|i: int| 0 <= i < s.len() && entry_names_of(s)[i] == n;
            if i == s.len() - 1 {
                assert(entries_map_of(s).contains_key(n));
            } else {
                assert(entry_names_of(s.drop_last())[i] == n);
                assert(entry_names_of(s.drop_last()).contains(n));
            }
        }
        if entries_map_of(s).contains_key(n) {
            if n == s.last().0@ {
                assert(entry_names_of(s)[s.len() - 1] == n);
            } else {
                let i = choose|i: int|
                    0 <= i < s.len() - 1 && entry_names_of(s.drop_last())[i] == n;
                assert(entry_names_of(s)[i] == n);
            }
        }
    }
}

proof fn lemma_entries_index(s: Seq<(String, u64)>, i: int)
    requires
        entry_names_of(s).no_duplicates(),
        0 <= i < s.len(),
    ensures
        entries_map_of(s).contains_key(s[i].0@),
        entries_map_of(s)[s[i].0@] == s[i].1,
    decreases s.len(),
{
    lemma_entries_contains(s, s[i].0@);
    assert(entry_names_of(s)[i] == s[i].0@);
    if i == s.len() - 1 {
    } else {
        assert(entry_names_of(s)[s.len() - 1] == s.last().0@);
        assert(s[i].0@ != s.last().0@);
        assert forall|a: int, b: int|
            0 <= a < b < s.len() - 1 implies entry_names_of(s.drop_last())[a] != entry_names_of(
            s.drop_last(),
        )[b] by {
            assert(entry_names_of(s.drop_last())[a] == entry_names_of(s)[a]);
            assert(entry_names_of(s.drop_last())[b] == entry_names_of(s)[b]);
        }
        assert(entry_names_of(s.drop_last()).no_duplicates());
        assert(s.drop_last()[i] == s[i]);
        lemma_entries_index(s.drop_last(), i);
    }
}

/// A directory's entries: child names mapped to child inode ids, names
/// unique.
pub struct DirEntries {
    items: Vec<(String, u64)>,
}

impl View for DirEntries {
    type V = Map<Seq<char>, u64>;

    closed spec fn view(&self) -> Map<Seq<char>, u64> {
        entries_map_of(self.items@)
    }
}

impl DirEntries {
    #[verifier::type_invariant]
    spec fn wf(&self) -> bool {
        entry_names_of(self.items@).no_duplicates()
    }

    /// The entries in insertion order, each name as its characters: the
    /// order the persisted record serializes.
    pub closed spec fn entries_seq(&self) -> Seq<(Seq<char>, u64)> {
        self.items@.map_values(|p: (String, u64)| (p.0@, p.1))
    }

    /// A directory with no entries.
    pub fn new() -> (r: Self)
        ensures
            r@ == Map::<Seq<char>, u64>::empty(),
            r.entries_seq() == Seq::<(Seq<char>, u64)>::empty(),
    {
        let r = DirEntries { items: Vec::new() };
        proof {
            assert(r.entries_seq() =~= Seq::<(Seq<char>, u64)>::empty());
        }
        r
    }

    /// How many entries the directory holds.
    pub fn entry_count(&self) -> (n: usize)
        ensures
            n == self.entries_seq().len(),
    {
        self.items.len()
    }

    /// The entry at one position of the insertion order.
    pub fn entry_at(&self, i: usize) -> (r: (&String, u64))
        requires
            i < self.entries_seq().len(),
        ensures
            r.0@ == self.entries_seq()[i as int].0,
            r.1 == self.entries_seq()[i as int].1,
    {
        (&self.items[i].0, self.items[i].1)
    }

    /// The child id a name maps to, if the name exists.
    pub fn get(&self, name: &String) -> (r: Option<u64>)
        ensures
            match r {
                Some(id) => self@.contains_key(name@) && id == self@[name@],
                None => !self@.contains_key(name@),
            },
    {
        proof {
            use_type_invariant(self);
        }
        let n = self.items.len();
        let mut i: usize = 0;
        while i < n
            invariant
                n == self.items@.len(),
                i <= n,
                entry_names_of(self.items@).no_duplicates(),
                forall|j: int| 0 <= j < i ==> self.items@[j].0@ != name@,
            decreases n - i,
        {
            if self.items[i].0 == *name {
                proof {
                    lemma_entries_index(self.items@, i as int);
                }
                return Some(self.items[i].1);
            }
            i = i + 1;
        }
        proof {
            assert(forall|j: int|
                0 <= j < self.items@.len() ==> entry_names_of(self.items@)[j] != name@);
            assert(!entry_names_of(self.items@).contains(name@));
            lemma_entries_contains(self.items@, name@);
        }
        None
    }

    /// Whether the directory holds this name.
    pub fn contains_name(&self, name: &String) -> (r: bool)
        ensures
            r == self@.contains_key(name@),
    {
        match self.get(name) {
            Some(_) => true,
            None => false,
        }
    }

    /// Add a child under a name not yet present; the entry goes to the
    /// back of the insertion order.
    pub fn insert(&mut self, name: String, id: u64)
        requires
            !old(self)@.contains_key(name@),
        ensures
            final(self)@ == old(self)@.insert(name@, id),
            final(self).entries_seq() == old(self).entries_seq().push((name@, id)),
    {
        proof {
            use_type_invariant(&*self);
            lemma_entries_contains(self.items@, name@);
            assert(!entry_names_of(self.items@).contains(name@));
        }
        let ghost s0 = self.items@;
        let mut items: Vec<(String, u64)> = Vec::new();
        core::mem::swap(&mut items, &mut self.items);
        let ghost nview = name@;
        items.push((name, id));
        proof {
            assert(items@.drop_last() =~= s0);
            assert(entries_map_of(items@) == entries_map_of(s0).insert(nview, id));
            assert forall|a: int, b: int|
                0 <= a < b < items@.len() implies entry_names_of(items@)[a] != entry_names_of(
                items@,
            )[b] by {
                if b == items@.len() - 1 {
                    assert(entry_names_of(items@)[a] == entry_names_of(s0)[a]);
                    assert(entry_names_of(s0).contains(entry_names_of(s0)[a]));
                } else {
                    assert(entry_names_of(items@)[a] == entry_names_of(s0)[a]);
                    assert(entry_names_of(items@)[b] == entry_names_of(s0)[b]);
                }
            }
            assert(entry_names_of(items@).no_duplicates());
            assert(items@.map_values(|p: (String, u64)| (p.0@, p.1)) =~= s0.map_values(
                |p: (String, u64)| (p.0@, p.1),
            ).push((nview, id)));
        }
        self.items = items;
    }
}


/// The byte a file kind serializes to.
pub open spec fn kind_byte(k: FileType) -> u8 {
    if k == FileType::RegularFile {
        0u8
    } else {
        1u8
    }
}

/// The serialized attribute record: the counters little-endian, the kind
/// one byte; 83 bytes in all.
pub open spec fn encoded_attr(a: FileAttr) -> Seq<u8> {
    spec_u64_to_le_bytes(a.ino) + spec_u64_to_le_bytes(a.size) + spec_u64_to_le_bytes(a.blocks)
        + spec_u64_to_le_bytes(a.atime) + spec_u64_to_le_bytes(a.mtime) + spec_u64_to_le_bytes(
        a.ctime,
    ) + spec_u64_to_le_bytes(a.crtime) + seq![kind_byte(a.kind)] + spec_u16_to_le_bytes(a.perm)
        + spec_u32_to_le_bytes(a.nlink) + spec_u32_to_le_bytes(a.uid) + spec_u32_to_le_bytes(
        a.gid,
    ) + spec_u32_to_le_bytes(a.rdev) + spec_u32_to_le_bytes(a.flags) + spec_u32_to_le_bytes(
        a.blksize,
    )
}

/// The serialized block references of a file inode: id and valid-byte
/// count of each, twelve bytes per reference.
pub open spec fn encoded_refs(s: Seq<BlockRef>) -> Seq<u8>
    decreases s.len(),
{
    if s.len() == 0 {
        Seq::empty()
    } else {
        encoded_refs(s.drop_last()) + spec_u64_to_le_bytes(s.last().block_id)
            + spec_u32_to_le_bytes(s.last().size)
    }
}

/// The serialized entries of a directory inode, in insertion order: each
/// name's UTF-8 byte length, its UTF-8 bytes, and the child id.
pub open spec fn encoded_entries(s: Seq<(Seq<char>, u64)>) -> Seq<u8>
    decreases s.len(),
{
    if s.len() == 0 {
        Seq::empty()
    } else {
        encoded_entries(s.drop_last()) + spec_u64_to_le_bytes(
            encode_utf8(s.last().0).len() as u64,
        ) + encode_utf8(s.last().0) + spec_u64_to_le_bytes(s.last().1)
    }
}

/// What an inode contains: file content pointers, or directory entries.
pub enum INodeType {
    File { blocks: Vec<BlockRef>, size: u64 },
    Directory { entries: DirEntries },
}

impl INodeType {
    /// A file holding no content.
    pub fn empty_file() -> (r: Self)
        ensures
            r matches INodeType::File { blocks, size } && blocks@ == Seq::<BlockRef>::empty()
                && size == 0,
    {
        INodeType::File { blocks: Vec::new(), size: 0 }
    }

    /// A directory holding no entries.
    pub fn empty_directory() -> (r: Self)
        ensures
            r matches INodeType::Directory { entries } && entries@ == Map::<Seq<char>, u64>::empty(),
    {
        INodeType::Directory { entries: DirEntries::new() }
    }
}

/// One inode: its id, its parent directory's id, its content or entries,
/// and its attributes.
pub struct INode {
    pub id: u64,
    pub parent: u64,
    pub data: INodeType,
    pub attr: FileAttr,
}

impl INode {
    pub fn new(id: u64, parent: u64, data: INodeType, attr: FileAttr) -> (r: Self)
        ensures
            r.id == id,
            r.parent == parent,
            r.data == data,
            r.attr == attr,
    {
        INode { id, parent, data, attr }
    }

    /// A file inode of `size` bytes stored in consecutively numbered
    /// blocks starting at `block_id`.
    pub fn with_file_size(id: u64, block_id: u64, parent: u64, attr: FileAttr, size: u64) -> (r:
        Self)
        requires
            size <= u64::MAX - crate::block::BLOCK_SIZE,
            block_id + BlockRef::blocks_needed(size) <= u64::MAX,
        ensures
            r.id == id,
            r.parent == parent,
            r.attr == attr,
            r.data matches INodeType::File { blocks, size: s } && blocks@ == BlockRef::block_run(
                block_id,
                size,
            ) && s == size,
    {
        let data = INodeType::File { blocks: BlockRef::alloc_blocks(block_id, size), size };
        Self::new(id, parent, data, attr)
    }

    /// A directory inode with the given entries.
    pub fn with_directory_entries(id: u64, parent: u64, attr: FileAttr, entries: DirEntries) -> (
        r: Self)
        ensures
            r.id == id,
            r.parent == parent,
            r.attr == attr,
            r.data matches INodeType::Directory { entries: e } && e@ == entries@,
    {
        let data = INodeType::Directory { entries };
        Self::new(id, parent, data, attr)
    }

    /// Whether this inode is a regular file.
    pub fn is_file(&self) -> (r: bool)
        ensures
            r == (self.data matches INodeType::File { .. }),
    {
        match self.data {
            INodeType::File { .. } => true,
            INodeType::Directory { .. } => false,
        }
    }

    /// Whether this inode is a directory.
    pub fn is_directory(&self) -> (r: bool)
        ensures
            r == (self.data matches INodeType::Directory { .. }),
    {
        match self.data {
            INodeType::File { .. } => false,
            INodeType::Directory { .. } => true,
        }
    }


    /// The serialized snapshot of this inode: id, parent, attributes and
    /// variant, the persisted record's exact byte layout.
    pub open spec fn encoded(n: INode) -> Seq<u8> {
        spec_u64_to_le_bytes(n.id) + spec_u64_to_le_bytes(n.parent) + encoded_attr(n.attr)
            + match n.data {
            INodeType::File { blocks, size } => seq![0u8] + spec_u64_to_le_bytes(size)
                + spec_u64_to_le_bytes(blocks@.len() as u64) + encoded_refs(blocks@),
            INodeType::Directory { entries } => seq![1u8] + spec_u64_to_le_bytes(
                entries.entries_seq().len() as u64,
            ) + encoded_entries(entries.entries_seq()),
        }
    }

    /// Serialize this inode for its on-disk record; the surrounding
    /// program writes the bytes out on every structural change.
    pub fn to_bytes(&self) -> (r: Vec<u8>)
        ensures
            r@ == Self::encoded(*self),
    {
        proof {
            lemma_auto_spec_u16_to_from_le_bytes();
            lemma_auto_spec_u32_to_from_le_bytes();
            lemma_auto_spec_u64_to_from_le_bytes();
        }
        let mut r = u64_to_le_bytes(self.id);
        let mut part = u64_to_le_bytes(self.parent);
        r.append(&mut part);
        let mut part = u64_to_le_bytes(self.attr.ino);
        r.append(&mut part);
        let mut part = u64_to_le_bytes(self.attr.size);
        r.append(&mut part);
        let mut part = u64_to_le_bytes(self.attr.blocks);
        r.append(&mut part);
        let mut part = u64_to_le_bytes(self.attr.atime);
        r.append(&mut part);
        let mut part = u64_to_le_bytes(self.attr.mtime);
        r.append(&mut part);
        let mut part = u64_to_le_bytes(self.attr.ctime);
        r.append(&mut part);
        let mut part = u64_to_le_bytes(self.attr.crtime);
        r.append(&mut part);
        match self.attr.kind {
            FileType::RegularFile => r.push(0),
            FileType::Directory => r.push(1),
        }
        let mut part = u16_to_le_bytes(self.attr.perm);
        r.append(&mut part);
        let mut part = u32_to_le_bytes(self.attr.nlink);
        r.append(&mut part);
        let mut part = u32_to_le_bytes(self.attr.uid);
        r.append(&mut part);
        let mut part = u32_to_le_bytes(self.attr.gid);
        r.append(&mut part);
        let mut part = u32_to_le_bytes(self.attr.rdev);
        r.append(&mut part);
        let mut part = u32_to_le_bytes(self.attr.flags);
        r.append(&mut part);
        let mut part = u32_to_le_bytes(self.attr.blksize);
        r.append(&mut part);
        proof {
            assert(r@ =~= spec_u64_to_le_bytes(self.id) + spec_u64_to_le_bytes(self.parent)
                + encoded_attr(self.attr));
        }
        let ghost header = r@;
        match &self.data {
            INodeType::File { blocks, size } => {
                r.push(0);
                let mut part = u64_to_le_bytes(*size);
                r.append(&mut part);
                let mut part = u64_to_le_bytes(blocks.len() as u64);
                r.append(&mut part);
                let ghost pre = r@;
                let n = blocks.len();
                let mut i: usize = 0;
                while i < n
                    invariant
                        n == blocks@.len(),
                        i <= n,
                        r@ == pre + encoded_refs(blocks@.subrange(0, i as int)),
                    decreases n - i,
                {
                    let mut part = u64_to_le_bytes(blocks[i].block_id);
                    r.append(&mut part);
                    let mut part = u32_to_le_bytes(blocks[i].size);
                    r.append(&mut part);
                    proof {
                        lemma_auto_spec_u32_to_from_le_bytes();
                        lemma_auto_spec_u64_to_from_le_bytes();
                        let sub1 = blocks@.subrange(0, (i + 1) as int);
                        assert(sub1.drop_last() =~= blocks@.subrange(0, i as int));
                        assert(sub1.last() == blocks@[i as int]);
                        assert(r@ =~= pre + encoded_refs(sub1));
                    }
                    i = i + 1;
                }
                proof {
                    assert(blocks@.subrange(0, n as int) =~= blocks@);
                    assert(r@ =~= Self::encoded(*self));
                }
            },
            INodeType::Directory { entries } => {
                r.push(1);
                let count = entries.entry_count();
                let mut part = u64_to_le_bytes(count as u64);
                r.append(&mut part);
                let ghost pre = r@;
                let ghost es = entries.entries_seq();
                let mut i: usize = 0;
                while i < count
                    invariant
                        count == es.len(),
                        es == entries.entries_seq(),
                        i <= count,
                        r@ == pre + encoded_entries(es.subrange(0, i as int)),
                    decreases count - i,
                {
                    let (name, cid) = entries.entry_at(i);
                    let name_bytes = name.as_str().as_bytes();
                    let mut part = u64_to_le_bytes(name_bytes.len() as u64);
                    r.append(&mut part);
                    r.extend_from_slice(name_bytes);
                    let mut part = u64_to_le_bytes(cid);
                    r.append(&mut part);
                    proof {
                        lemma_auto_spec_u64_to_from_le_bytes();
                        assert(name_bytes@ == encode_utf8(es[i as int].0));
                        let sub1 = es.subrange(0, (i + 1) as int);
                        assert(sub1.drop_last() =~= es.subrange(0, i as int));
                        assert(sub1.last() == es[i as int]);
                        assert(r@ =~= pre + encoded_entries(sub1));
                    }
                    i = i + 1;
                }
                proof {
                    assert(es.subrange(0, count as int) =~= es);
                    assert(r@ =~= Self::encoded(*self));
                }
            },
        }
        r
    }


    /// Deserialize an inode record read back from its on-disk file. The
    /// guarantee is exact in one direction: whatever decodes is a record
    /// whose serialization is precisely the input bytes, so a decoded
    /// record can never misreport what was persisted. Truncated input, an
    /// unknown kind or variant tag, lengths that do not add up, a name
    /// that is not UTF-8 or repeats, or trailing garbage are refused.
    pub fn from_bytes(bytes: &[u8]) -> (r: Option<INode>)
        ensures
            r matches Some(n) ==> bytes@ == Self::encoded(n),
    {
        proof {
            lemma_auto_spec_u16_to_from_le_bytes();
            lemma_auto_spec_u32_to_from_le_bytes();
            lemma_auto_spec_u64_to_from_le_bytes();
        }
        if bytes.len() < 100 {
            return None;
        }
        let id = u64_from_le_bytes(slice_subrange(bytes, 0, 8));
        let parent = u64_from_le_bytes(slice_subrange(bytes, 8, 16));
        let ino = u64_from_le_bytes(slice_subrange(bytes, 16, 24));
        let size_a = u64_from_le_bytes(slice_subrange(bytes, 24, 32));
        let blocks_a = u64_from_le_bytes(slice_subrange(bytes, 32, 40));
        let atime = u64_from_le_bytes(slice_subrange(bytes, 40, 48));
        let mtime = u64_from_le_bytes(slice_subrange(bytes, 48, 56));
        let ctime = u64_from_le_bytes(slice_subrange(bytes, 56, 64));
        let crtime = u64_from_le_bytes(slice_subrange(bytes, 64, 72));
        let kind_b = *slice_index_get(bytes, 72);
        if kind_b != 0 && kind_b != 1 {
            return None;
        }
        let perm = u16_from_le_bytes(slice_subrange(bytes, 73, 75));
        let nlink = u32_from_le_bytes(slice_subrange(bytes, 75, 79));
        let uid = u32_from_le_bytes(slice_subrange(bytes, 79, 83));
        let gid = u32_from_le_bytes(slice_subrange(bytes, 83, 87));
        let rdev = u32_from_le_bytes(slice_subrange(bytes, 87, 91));
        let flags = u32_from_le_bytes(slice_subrange(bytes, 91, 95));
        let blksize = u32_from_le_bytes(slice_subrange(bytes, 95, 99));
        let tag = *slice_index_get(bytes, 99);
        let attr = FileAttr {
            ino,
            size: size_a,
            blocks: blocks_a,
            atime,
            mtime,
            ctime,
            crtime,
            kind: if kind_b == 0 {
                FileType::RegularFile
            } else {
                FileType::Directory
            },
            perm,
            nlink,
            uid,
            gid,
            rdev,
            flags,
            blksize,
        };
        let ghost hdr = spec_u64_to_le_bytes(id) + spec_u64_to_le_bytes(parent) + encoded_attr(
            attr,
        );
        proof {
            assert(kind_byte(attr.kind) == bytes@[72]);
            assert_seqs_equal!(bytes@.subrange(0, 99) == hdr, i => {
                if i < 8 {
                    assert(bytes@.subrange(0, 8)[i] == bytes@[i]);
                } else if i < 16 {
                    assert(bytes@.subrange(8, 16)[i - 8] == bytes@[i]);
                } else if i < 24 {
                    assert(bytes@.subrange(16, 24)[i - 16] == bytes@[i]);
                } else if i < 32 {
                    assert(bytes@.subrange(24, 32)[i - 24] == bytes@[i]);
                } else if i < 40 {
                    assert(bytes@.subrange(32, 40)[i - 32] == bytes@[i]);
                } else if i < 48 {
                    assert(bytes@.subrange(40, 48)[i - 40] == bytes@[i]);
                } else if i < 56 {
                    assert(bytes@.subrange(48, 56)[i - 48] == bytes@[i]);
                } else if i < 64 {
                    assert(bytes@.subrange(56, 64)[i - 56] == bytes@[i]);
                } else if i < 72 {
                    assert(bytes@.subrange(64, 72)[i - 64] == bytes@[i]);
                } else if i == 72 {
                } else if i < 75 {
                    assert(bytes@.subrange(73, 75)[i - 73] == bytes@[i]);
                } else if i < 79 {
                    assert(bytes@.subrange(75, 79)[i - 75] == bytes@[i]);
                } else if i < 83 {
                    assert(bytes@.subrange(79, 83)[i - 79] == bytes@[i]);
                } else if i < 87 {
                    assert(bytes@.subrange(83, 87)[i - 83] == bytes@[i]);
                } else if i < 91 {
                    assert(bytes@.subrange(87, 91)[i - 87] == bytes@[i]);
                } else if i < 95 {
                    assert(bytes@.subrange(91, 95)[i - 91] == bytes@[i]);
                } else {
                    assert(bytes@.subrange(95, 99)[i - 95] == bytes@[i]);
                }
            });
        }
        if tag == 0 {
            if kind_b != 0 {
                return None;
            }
            if bytes.len() < 116 {
                return None;
            }
            let size = u64_from_le_bytes(slice_subrange(bytes, 100, 108));
            let count = u64_from_le_bytes(slice_subrange(bytes, 108, 116));
            let remaining = bytes.len() - 116;
            if remaining % 12 != 0 || (remaining / 12) as u64 != count {
                return None;
            }
            let cnt = remaining / 12;
            proof {
                assert(cnt * 12 == remaining) by (nonlinear_arith)
                    requires
                        remaining % 12 == 0,
                        cnt == remaining / 12,
                        remaining >= 0,
                {}
            }
            let mut blocks: Vec<BlockRef> = Vec::new();
            let mut i: usize = 0;
            while i < cnt
                invariant
                    cnt * 12 == remaining,
                    remaining == bytes@.len() - 116,
                    bytes@.len() >= 116,
                    bytes@.len() <= usize::MAX,
                    i <= cnt,
                    blocks@.len() == i,
                    encoded_refs(blocks@) == bytes@.subrange(116, 116 + 12 * (i as int)),
                decreases cnt - i,
            {
                proof {
                    lemma_auto_spec_u32_to_from_le_bytes();
                    lemma_auto_spec_u64_to_from_le_bytes();
                    assert(12 * (i as int) + 12 <= remaining as int) by (nonlinear_arith)
                        requires
                            i < cnt,
                            (cnt as int) * 12 == remaining as int,
                    {}
                    assert(116 + 12 * (i as int) + 12 <= bytes@.len());
                }
                let pos = 116 + 12 * i;
                let bid = u64_from_le_bytes(slice_subrange(bytes, pos, pos + 8));
                let bsz = u32_from_le_bytes(slice_subrange(bytes, pos + 8, pos + 12));
                let ghost bprev = blocks@;
                blocks.push(BlockRef { block_id: bid, size: bsz });
                proof {
                    assert(blocks@.drop_last() =~= bprev);
                    assert_seqs_equal!(
                        bytes@.subrange(116, 116 + 12 * (i + 1 as int)) == bytes@.subrange(
                            116,
                            116 + 12 * (i as int),
                        ) + bytes@.subrange(pos as int, pos + 8) + bytes@.subrange(
                            pos + 8,
                            pos + 12,
                        ),
                        m => {
                            assert(bytes@.subrange(116, 116 + 12 * (i + 1 as int))[m]
                                == bytes@[116 + m]);
                            if m < 12 * (i as int) {
                                assert(bytes@.subrange(116, 116 + 12 * (i as int))[m]
                                    == bytes@[116 + m]);
                            } else if m < 12 * (i as int) + 8 {
                                assert(bytes@.subrange(pos as int, pos + 8)[m - 12 * (i as int)]
                                    == bytes@[116 + m]);
                            } else {
                                assert(bytes@.subrange(pos + 8, pos + 12)[m - 12 * (i as int)
                                    - 8] == bytes@[116 + m]);
                            }
                        }
                    );
                    assert(spec_u64_to_le_bytes(bid) == bytes@.subrange(pos as int, pos + 8));
                    assert(spec_u32_to_le_bytes(bsz) == bytes@.subrange(pos + 8, pos + 12));
                    assert(blocks@.last() == (BlockRef { block_id: bid, size: bsz }));
                    assert(encoded_refs(blocks@) == bytes@.subrange(
                        116,
                        116 + 12 * (i + 1 as int),
                    ));
                }
                i = i + 1;
            }
            let n = INode { id, parent, data: INodeType::File { blocks, size }, attr };
            proof {
                assert(bytes@.subrange(116, bytes@.len() as int) =~= bytes@.subrange(
                    116,
                    116 + 12 * (cnt as int),
                ));
                assert(Self::encoded(n) == hdr + seq![0u8] + spec_u64_to_le_bytes(size)
                    + spec_u64_to_le_bytes(count) + bytes@.subrange(116, bytes@.len() as int));
                assert_seqs_equal!(bytes@ == Self::encoded(n), i => {
                    if i < 99 {
                        assert(bytes@.subrange(0, 99)[i] == bytes@[i]);
                    } else if i == 99 {
                    } else if i < 108 {
                        assert(bytes@.subrange(100, 108)[i - 100] == bytes@[i]);
                    } else if i < 116 {
                        assert(bytes@.subrange(108, 116)[i - 108] == bytes@[i]);
                    } else {
                        assert(bytes@.subrange(116, bytes@.len() as int)[i - 116] == bytes@[i]);
                    }
                });
            }
            Some(n)
        } else if tag == 1 {
            if kind_b != 1 {
                return None;
            }
            if bytes.len() < 108 {
                return None;
            }
            let count = u64_from_le_bytes(slice_subrange(bytes, 100, 108));
            let mut entries = DirEntries::new();
            let mut pos: usize = 108;
            let mut j: u64 = 0;
            while j < count
                invariant
                    bytes@.len() >= 108,
                    bytes@.len() <= usize::MAX,
                    108 <= pos <= bytes@.len(),
                    j <= count,
                    entries.entries_seq().len() == j,
                    encoded_entries(entries.entries_seq()) == bytes@.subrange(108, pos as int),
                decreases count - j,
            {
                proof {
                    lemma_auto_spec_u64_to_from_le_bytes();
                }
                if bytes.len() - pos < 8 {
                    return None;
                }
                let nlen64 = u64_from_le_bytes(slice_subrange(bytes, pos, pos + 8));
                let after_len = pos + 8;
                if nlen64 > (bytes.len() - after_len) as u64 {
                    return None;
                }
                let nlen = nlen64 as usize;
                if (bytes.len() - after_len) - nlen < 8 {
                    return None;
                }
                let name_vec = slice_to_vec(slice_subrange(bytes, after_len, after_len + nlen));
                let name = match string_from_utf8_bytes(name_vec) {
                    None => {
                        return None;
                    },
                    Some(name) => name,
                };
                if entries.contains_name(&name) {
                    return None;
                }
                let cid = u64_from_le_bytes(
                    slice_subrange(bytes, after_len + nlen, after_len + nlen + 8),
                );
                let ghost pre_es = entries.entries_seq();
                let ghost nview = name@;
                entries.insert(name, cid);
                let new_pos = after_len + nlen + 8;
                proof {
                    let es = entries.entries_seq();
                    assert(es == pre_es.push((nview, cid)));
                    assert(es.drop_last() =~= pre_es);
                    assert(encode_utf8(nview) == bytes@.subrange(
                        after_len as int,
                        after_len + nlen,
                    ));
                    assert(encode_utf8(nview).len() as u64 == nlen64);
                    assert(bytes@.subrange(108, new_pos as int) =~= bytes@.subrange(
                        108,
                        pos as int,
                    ) + bytes@.subrange(pos as int, pos + 8) + bytes@.subrange(
                        after_len as int,
                        after_len + nlen,
                    ) + bytes@.subrange(after_len + nlen, after_len + nlen + 8));
                    assert(encoded_entries(es) == bytes@.subrange(108, new_pos as int));
                }
                pos = new_pos;
                j = j + 1;
            }
            if pos != bytes.len() {
                return None;
            }
            let n = INode { id, parent, data: INodeType::Directory { entries }, attr };
            proof {
                assert(Self::encoded(n) == hdr + seq![1u8] + spec_u64_to_le_bytes(count)
                    + bytes@.subrange(108, bytes@.len() as int));
                assert_seqs_equal!(bytes@ == Self::encoded(n), i => {
                    if i < 99 {
                        assert(bytes@.subrange(0, 99)[i] == bytes@[i]);
                    } else if i == 99 {
                    } else if i < 108 {
                        assert(bytes@.subrange(100, 108)[i - 100] == bytes@[i]);
                    } else {
                        assert(bytes@.subrange(108, bytes@.len() as int)[i - 108] == bytes@[i]);
                    }
                });
            }
            Some(n)
        } else {
            None
        }
    }

    /// The child inode id this directory maps `name` to. A file inode
    /// answers `NotDirectory`; a directory without the name answers
    /// `NameNotFound`.
    pub fn get_child_id(&self, name: &String) -> (r: Result<u64, TimeFSError>)
        ensures
            match r {
                Ok(cid) => self.data matches INodeType::Directory { entries }
                    && entries@.contains_key(name@) && cid == entries@[name@],
                Err(e) => match e {
                    TimeFSError::NotDirectory(i) => i == self.id && (self.data
                        matches INodeType::File { .. }),
                    TimeFSError::NameNotFound(n) => n@ == name@ && (self.data
                        matches INodeType::Directory { entries } && !entries@.contains_key(
                        name@,
                    )),
                    _ => false,
                },
            },
    {
        match &self.data {
            INodeType::File { .. } => Err(TimeFSError::NotDirectory(self.id)),
            INodeType::Directory { entries } => match entries.get(name) {
                Some(id) => Ok(id),
                None => Err(TimeFSError::NameNotFound(name.clone())),
            },
        }
    }
}

} // verus!
