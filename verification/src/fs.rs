//! The filesystem core: the inode table, the superblock, the open-file
//! handles and the block cache of one mounted store, with the metadata
//! operations the kernel-facing adapter calls — lookup by id, lookup by
//! name, and creation of files and directories. Every create is a single
//! logical metadata transaction: the adapter serializes calls, so two
//! concurrent creates of the same name can never both succeed.

use vstd::prelude::*;
use crate::attr::FileAttr;
use crate::attr::FileAttrBuilder;
use crate::attr::FileType;
use crate::block::BlockRef;
use crate::cache::BlockCache;
use crate::errors::TimeFSError;
use crate::file_handle::FileHandle;
use crate::inode::INode;
use crate::inode::INodeType;
use crate::store::BlockStore;
use crate::superblock::SuperBlock;
use crate::superblock::ROOT_INODE_ID;
use crate::superblock::SUPER_MAGIC;
use crate::superblock::alloc_inode_id_post;
use crate::vecmap::VecMap;

verus! {

/// One mounted filesystem: its persistent metadata model and its block
/// cache with the store model the cache writes through.
pub struct TimeFS {
    super_block: SuperBlock,
    inodes: VecMap<INode>,
    file_handles: VecMap<FileHandle>,
    next_fh: u64,
    pub block_cache: BlockCache,
    pub store: BlockStore,
}

impl TimeFS {
    /// The superblock counters.
    pub closed spec fn sb(&self) -> SuperBlock {
        self.super_block
    }

    /// The inode table.
    pub closed spec fn inodes_view(&self) -> Map<u64, INode> {
        self.inodes@
    }

    /// Whether inode `id` is in the table.
    pub open spec fn has_inode(&self, id: u64) -> bool {
        self.inodes_view().contains_key(id)
    }

    /// The inode with this id.
    pub open spec fn inode_at(&self, id: u64) -> INode {
        self.inodes_view()[id]
    }

    /// The entries of directory inode `id`.
    pub open spec fn dir_entries_at(&self, id: u64) -> Map<Seq<char>, u64> {
        match self.inode_at(id).data {
            INodeType::Directory { entries } => entries@,
            INodeType::File { .. } => Map::empty(),
        }
    }

    /// The open-file-handle table.
    pub closed spec fn handles_view(&self) -> Map<u64, FileHandle> {
        self.file_handles@
    }

    /// The next handle id to be given out.
    pub closed spec fn next_handle(&self) -> u64 {
        self.next_fh
    }

    /// The internal tables are in a healthy state.
    pub closed spec fn maps_ok(&self) -> bool {
        self.inodes.sound() && self.file_handles.sound()
    }

    /// The block cache state.
    pub closed spec fn cache(&self) -> BlockCache {
        self.block_cache
    }

    /// The backing-store model the cache writes through.
    pub closed spec fn disk(&self) -> BlockStore {
        self.store
    }

    /// The cache and the store it writes through agree.
    pub closed spec fn cache_ok(&self) -> bool {
        self.block_cache.wf() && self.block_cache.coherent(self.store)
    }

    /// Structural health of the filesystem: the root directory exists and
    /// is a directory, every table id is below the allocation counter (so
    /// a fresh id never collides), every handle id is below the handle
    /// counter, and the cache agrees with the store.
    pub open spec fn wf(&self) -> bool {
        &&& self.maps_ok()
        &&& self.cache_ok()
        &&& self.sb().root_dir_inode == ROOT_INODE_ID
        &&& self.has_inode(ROOT_INODE_ID)
        &&& self.inode_at(ROOT_INODE_ID).data matches INodeType::Directory { .. }
        &&& forall|id: u64| #[trigger] self.has_inode(id) ==> id < self.sb().next_inode_id
        &&& forall|id: u64| #[trigger] self.has_inode(id) ==> self.inode_at(id).id == id
        &&& forall|id: u64|
            #[trigger] self.has_inode(id) ==> match self.inode_at(id).data {
                INodeType::File { blocks, size } => blocks@.len() == BlockRef::blocks_needed(
                    size,
                ),
                INodeType::Directory { .. } => true,
            }
        &&& forall|h: u64|
            #[trigger] self.handles_view().contains_key(h) ==> h < self.next_handle()
    }

    /// The root directory inode of a store created at `created_at`.
    fn create_root_inode(created_at: u64) -> (r: INode)
        ensures
            r.id == ROOT_INODE_ID,
            r.parent == ROOT_INODE_ID,
            r.data matches INodeType::Directory { entries } && entries@ == Map::<
                Seq<char>,
                u64,
            >::empty(),
            r.attr.ino == ROOT_INODE_ID,
            r.attr.kind == FileType::Directory,
            r.attr.size == 0,
            r.attr.blocks == 0,
            r.attr.blksize == crate::block::BLOCK_SIZE,
            r.attr.nlink == 2,
            r.attr.perm == 0o755,
            r.attr.atime == created_at && r.attr.mtime == created_at && r.attr.ctime
                == created_at && r.attr.crtime == created_at,
    {
        let attr = FileAttrBuilder::default().ino(ROOT_INODE_ID).with_directory().with_now(
            created_at,
        ).build();
        INode::new(ROOT_INODE_ID, ROOT_INODE_ID, INodeType::empty_directory(), attr)
    }

    /// Mount a fresh store created at time `created_at`: a new superblock,
    /// an inode table holding only the root directory, no open handles,
    /// and an empty cache bounded to `max_capacity` entries with the given
    /// write-back delay.
    pub fn new(max_capacity: usize, flush_interval: u64, created_at: u64) -> (r: Self)
        requires
            max_capacity >= 1,
        ensures
            r.wf(),
            r.sb() == SuperBlock::new_spec(created_at),
            r.has_inode(ROOT_INODE_ID),
            r.dir_entries_at(ROOT_INODE_ID) == Map::<Seq<char>, u64>::empty(),
            r.inode_at(ROOT_INODE_ID).parent == ROOT_INODE_ID,
            ({
                let a = r.inode_at(ROOT_INODE_ID).attr;
                &&& a.ino == ROOT_INODE_ID
                &&& a.kind == FileType::Directory
                &&& a.size == 0
                &&& a.blocks == 0
                &&& a.blksize == crate::block::BLOCK_SIZE
                &&& a.perm == 0o755
                &&& a.nlink == 2
                &&& a.atime == created_at && a.mtime == created_at && a.ctime == created_at
                    && a.crtime == created_at
            }),
            forall|id: u64| id != ROOT_INODE_ID ==> !(#[trigger] r.has_inode(id)),
            forall|h: u64| !(#[trigger] r.handles_view().contains_key(h)),
    {
        let super_block = SuperBlock::new(created_at);
        let root = Self::create_root_inode(created_at);
        let mut inodes: VecMap<INode> = VecMap::new();
        inodes.insert(ROOT_INODE_ID, root);
        TimeFS {
            super_block,
            inodes,
            file_handles: VecMap::new(),
            next_fh: 1,
            block_cache: BlockCache::new(max_capacity, flush_interval),
            store: BlockStore::new(),
        }
    }

    /// A superblock record this implementation can mount: it carries the
    /// expected magic number, names the reserved root inode, and its
    /// inode counter has moved past the root — so every id it hands out
    /// is fresh.
    pub open spec fn mountable(sb: SuperBlock) -> bool {
        &&& sb.magic == SUPER_MAGIC
        &&& sb.root_dir_inode == ROOT_INODE_ID
        &&& sb.next_inode_id > ROOT_INODE_ID
    }

    /// Mount an existing store whose root inode record is missing or
    /// unreadable: the allocation counters continue exactly where the
    /// decoded superblock record left them, and a fresh empty root is
    /// rebuilt stamped `now`. Where the root record was persisted,
    /// [`Self::open_with_root`] is the mount path that keeps it
    /// authoritative. A record with the wrong magic, the wrong root id,
    /// or an inode counter not past the root is corrupt and refused with
    /// `Io`.
    pub fn open(sb: SuperBlock, max_capacity: usize, flush_interval: u64, now: u64) -> (r:
        Result<Self, TimeFSError>)
        requires
            max_capacity >= 1,
        ensures
            match r {
                Ok(fs) => {
                    &&& Self::mountable(sb)
                    &&& fs.wf()
                    &&& fs.sb() == sb
                    &&& fs.has_inode(ROOT_INODE_ID)
                    &&& fs.dir_entries_at(ROOT_INODE_ID) == Map::<Seq<char>, u64>::empty()
                    &&& forall|id: u64| id != ROOT_INODE_ID ==> !(#[trigger] fs.has_inode(id))
                    &&& forall|h: u64| !(#[trigger] fs.handles_view().contains_key(h))
                },
                Err(e) => e matches TimeFSError::Io && !Self::mountable(sb),
            },
    {
        if sb.magic != SUPER_MAGIC || sb.root_dir_inode != ROOT_INODE_ID || sb.next_inode_id
            <= ROOT_INODE_ID {
            return Err(TimeFSError::Io);
        }
        let root = Self::create_root_inode(now);
        let mut inodes: VecMap<INode> = VecMap::new();
        inodes.insert(ROOT_INODE_ID, root);
        Ok(
            TimeFS {
                super_block: sb,
                inodes,
                file_handles: VecMap::new(),
                next_fh: 1,
                block_cache: BlockCache::new(max_capacity, flush_interval),
                store: BlockStore::new(),
            },
        )
    }

    /// Mount an existing store from its decoded superblock record and its
    /// decoded root inode record, both read back at mount time: the
    /// allocation counters continue exactly where the superblock left
    /// them, and the root — its directory entries included — is exactly
    /// the persisted record, which stays the source of truth across
    /// restarts. The surrounding program pre-loads durable blocks into
    /// the store model as it mirrors the block directory. A superblock
    /// with the wrong magic, root id or counter, or a root record whose
    /// id, parent or kind does not fit the root, is corrupt and refused
    /// with `Io`.
    pub fn open_with_root(sb: SuperBlock, root: INode, max_capacity: usize, flush_interval: u64)
        -> (r: Result<Self, TimeFSError>)
        requires
            max_capacity >= 1,
        ensures
            match r {
                Ok(fs) => {
                    &&& Self::mountable(sb)
                    &&& root.id == ROOT_INODE_ID
                    &&& root.parent == ROOT_INODE_ID
                    &&& root.data matches INodeType::Directory { .. }
                    &&& fs.wf()
                    &&& fs.sb() == sb
                    &&& fs.has_inode(ROOT_INODE_ID)
                    &&& fs.inode_at(ROOT_INODE_ID) == root
                    &&& forall|id: u64| id != ROOT_INODE_ID ==> !(#[trigger] fs.has_inode(id))
                    &&& forall|h: u64| !(#[trigger] fs.handles_view().contains_key(h))
                },
                Err(e) => e matches TimeFSError::Io && !(Self::mountable(sb) && root.id
                    == ROOT_INODE_ID && root.parent == ROOT_INODE_ID && (root.data
                    matches INodeType::Directory { .. })),
            },
    {
        if sb.magic != SUPER_MAGIC || sb.root_dir_inode != ROOT_INODE_ID || sb.next_inode_id
            <= ROOT_INODE_ID {
            return Err(TimeFSError::Io);
        }
        if root.id != ROOT_INODE_ID || root.parent != ROOT_INODE_ID {
            return Err(TimeFSError::Io);
        }
        match &root.data {
            INodeType::File { .. } => {
                return Err(TimeFSError::Io);
            },
            INodeType::Directory { .. } => {},
        }
        let mut inodes: VecMap<INode> = VecMap::new();
        inodes.insert(ROOT_INODE_ID, root);
        Ok(
            TimeFS {
                super_block: sb,
                inodes,
                file_handles: VecMap::new(),
                next_fh: 1,
                block_cache: BlockCache::new(max_capacity, flush_interval),
                store: BlockStore::new(),
            },
        )
    }

    /// Load one decoded inode record into the table, lazily or eagerly
    /// after a mount: the record becomes the in-memory inode, exactly as
    /// persisted. A record is refused with `Io` when it names the root,
    /// an id the allocation counter never handed out, or an id already
    /// loaded; and with `BlockIndexError` when its block list and size
    /// disagree.
    pub fn load_inode(&mut self, node: INode) -> (r: Result<(), TimeFSError>)
        requires
            old(self).wf(),
        ensures
            match r {
                Ok(u) => {
                    &&& node.id != ROOT_INODE_ID
                    &&& node.id < old(self).sb().next_inode_id
                    &&& !old(self).has_inode(node.id)
                    &&& (match node.data {
                        INodeType::File { blocks, size } => blocks@.len()
                            == BlockRef::blocks_needed(size),
                        INodeType::Directory { .. } => true,
                    })
                    &&& final(self).wf()
                    &&& final(self).sb() == old(self).sb()
                    &&& final(self).inodes_view() == old(self).inodes_view().insert(
                        node.id,
                        node,
                    )
                    &&& final(self).handles_view() == old(self).handles_view()
                },
                Err(e) => *final(self) == *old(self) && match e {
                    TimeFSError::Io => node.id == ROOT_INODE_ID || node.id >= old(
                        self,
                    ).sb().next_inode_id || old(self).has_inode(node.id),
                    TimeFSError::BlockIndexError => node.id != ROOT_INODE_ID && node.id < old(
                        self,
                    ).sb().next_inode_id && !old(self).has_inode(node.id) && (match node.data {
                        INodeType::File { blocks, size } => blocks@.len()
                            != BlockRef::blocks_needed(size),
                        INodeType::Directory { .. } => false,
                    }),
                    _ => false,
                },
            },
    {
        if node.id == ROOT_INODE_ID || node.id >= self.super_block.next_inode_id
            || self.inodes.contains_key(node.id) {
            return Err(TimeFSError::Io);
        }
        match &node.data {
            INodeType::Directory { .. } => {},
            INodeType::File { blocks, size } => {
                let whole: u64 = *size / 4096;
                let partial: u64 = if *size % 4096 != 0 {
                    1
                } else {
                    0
                };
                proof {
                    assert((size + 4096 - 1) / (4096 as int) == (*size as int) / 4096 + (
                    if *size % 4096 != 0 {
                        1int
                    } else {
                        0int
                    })) by (nonlinear_arith)
                        requires
                            *size >= 0,
                    {}
                }
                let bl = blocks.len();
                if bl as u64 != whole + partial {
                    return Err(TimeFSError::BlockIndexError);
                }
            },
        }
        let ghost pre = *self;
        let nid = node.id;
        self.inodes.insert(nid, node);
        proof {
            assert(pre.has_inode(ROOT_INODE_ID));
            assert forall|k: u64|
                #[trigger] self.has_inode(k) implies k < self.sb().next_inode_id
                && self.inode_at(k).id == k && (match self.inode_at(k).data {
                INodeType::File { blocks: bl, size: sz } => bl@.len() == BlockRef::blocks_needed(
                    sz,
                ),
                INodeType::Directory { .. } => true,
            }) by {
                if k != nid {
                    assert(pre.has_inode(k));
                }
            }
            assert forall|h: u64|
                #[trigger] self.handles_view().contains_key(h) implies h < self.next_handle() by {
                assert(pre.handles_view().contains_key(h));
            }
        }
        Ok(())
    }

    /// The number of open-file handles ever issued, plus one: the next
    /// handle id to be given out. The surrounding program checks it
    /// against the machine limit before opening another handle.
    pub fn handle_counter(&self) -> (r: u64)
        ensures
            r == self.next_handle(),
    {
        self.next_fh
    }

    /// Hand out the next inode id; allocation is the superblock's alone,
    /// so concurrent callers serialized on it never share an id.
    pub fn get_next_inode_id(&mut self) -> (id: u64)
        requires
            old(self).wf(),
            old(self).sb().next_inode_id < u64::MAX,
        ensures
            final(self).wf(),
            alloc_inode_id_post(old(self).sb(), final(self).sb(), id),
            final(self).inodes_view() == old(self).inodes_view(),
            final(self).handles_view() == old(self).handles_view(),
            !old(self).has_inode(id),
    {
        let r = self.super_block.get_next_inode_id();
        proof {
            assert forall|k: u64|
                #[trigger] self.has_inode(k) implies k < self.sb().next_inode_id
                && self.inode_at(k).id == k && (match self.inode_at(k).data {
                INodeType::File { blocks, size } => blocks@.len() == BlockRef::blocks_needed(
                    size,
                ),
                INodeType::Directory { .. } => true,
            }) by {
                assert(old(self).has_inode(k));
            }
            assert forall|h: u64|
                #[trigger] self.handles_view().contains_key(h) implies h < self.next_handle() by {
                assert(old(self).handles_view().contains_key(h));
            }
        }
        r
    }

    /// Hand out the next block id.
    pub fn get_next_block_id(&mut self) -> (id: u64)
        requires
            old(self).wf(),
            old(self).sb().next_block_id < u64::MAX,
        ensures
            final(self).wf(),
            crate::superblock::alloc_block_id_post(old(self).sb(), final(self).sb(), id),
            final(self).inodes_view() == old(self).inodes_view(),
            final(self).handles_view() == old(self).handles_view(),
    {
        let r = self.super_block.get_next_block_id();
        proof {
            assert forall|k: u64|
                #[trigger] self.has_inode(k) implies k < self.sb().next_inode_id
                && self.inode_at(k).id == k && (match self.inode_at(k).data {
                INodeType::File { blocks, size } => blocks@.len() == BlockRef::blocks_needed(
                    size,
                ),
                INodeType::Directory { .. } => true,
            }) by {
                assert(old(self).has_inode(k));
            }
            assert forall|h: u64|
                #[trigger] self.handles_view().contains_key(h) implies h < self.next_handle() by {
                assert(old(self).handles_view().contains_key(h));
            }
        }
        r
    }

    /// A copy of the current superblock record, for the surrounding
    /// program to persist at durable-allocation boundaries.
    pub fn superblock(&self) -> (r: SuperBlock)
        ensures
            r == self.sb(),
    {
        self.super_block
    }

    /// The inode with this id, or `NotFound`.
    pub fn get_inode(&self, id: u64) -> (r: Result<&INode, TimeFSError>)
        ensures
            match r {
                Ok(n) => self.has_inode(id) && *n == self.inode_at(id),
                Err(e) => e matches TimeFSError::NotFound(i) && i == id && !self.has_inode(id),
            },
    {
        match self.inodes.get(id) {
            Some(n) => Ok(n),
            None => Err(TimeFSError::NotFound(id)),
        }
    }

    /// The child of directory `parent` named `name`, or the error that
    /// pins down what went wrong: an absent parent, a parent that is a
    /// file, an unknown name, or a dangling entry.
    pub fn get_inode_by_name(&self, parent: u64, name: &String) -> (r: Result<
        &INode,
        TimeFSError,
    >)
        requires
            self.wf(),
        ensures
            match r {
                Ok(n) => self.has_inode(parent) && (self.inode_at(parent).data
                    matches INodeType::Directory { .. }) && self.dir_entries_at(
                    parent,
                ).contains_key(name@) && self.has_inode(self.dir_entries_at(parent)[name@])
                    && *n == self.inode_at(self.dir_entries_at(parent)[name@]),
                Err(e) => match e {
                    TimeFSError::NotFound(i) => (i == parent && !self.has_inode(parent)) || (
                    self.has_inode(parent) && self.dir_entries_at(parent).contains_key(name@)
                        && i == self.dir_entries_at(parent)[name@] && !self.has_inode(i)),
                    TimeFSError::NotDirectory(i) => i == parent && self.has_inode(parent)
                        && (self.inode_at(parent).data matches INodeType::File { .. }),
                    TimeFSError::NameNotFound(n) => n@ == name@ && self.has_inode(parent)
                        && (self.inode_at(parent).data matches INodeType::Directory { .. })
                        && !self.dir_entries_at(parent).contains_key(name@),
                    _ => false,
                },
            },
    {
        let parent_node = match self.inodes.get(parent) {
            Some(n) => n,
            None => {
                return Err(TimeFSError::NotFound(parent));
            },
        };
        let child_id = match parent_node.get_child_id(name) {
            Ok(cid) => cid,
            Err(e) => {
                proof {
                    assert(self.has_inode(parent));
                    assert(*parent_node == self.inode_at(parent));
                    assert(self.inode_at(parent).id == parent);
                }
                return Err(e);
            },
        };
        proof {
            assert(*parent_node == self.inode_at(parent));
            assert(self.dir_entries_at(parent).contains_key(name@));
            assert(child_id == self.dir_entries_at(parent)[name@]);
        }
        self.get_inode(child_id)
    }

    /// The attributes of inode `id`, or `NotFound`.
    pub fn get_attr(&self, inode_id: u64) -> (r: Result<FileAttr, TimeFSError>)
        ensures
            match r {
                Ok(a) => self.has_inode(inode_id) && a == self.inode_at(inode_id).attr,
                Err(e) => e matches TimeFSError::NotFound(i) && i == inode_id && !self.has_inode(
                    inode_id,
                ),
            },
    {
        match self.inodes.get(inode_id) {
            Some(n) => Ok(n.attr),
            None => Err(TimeFSError::NotFound(inode_id)),
        }
    }

    /// Register an open-file handle for an inode and hand its id out.
    pub fn alloc_file_handle(&mut self, inode_id: u64, flags: i32) -> (h: u64)
        requires
            old(self).wf(),
            old(self).next_handle() < u64::MAX,
        ensures
            final(self).wf(),
            h == old(self).next_handle(),
            final(self).next_handle() == old(self).next_handle() + 1,
            final(self).handles_view() == old(self).handles_view().insert(
                h,
                FileHandle { inode_id, flags },
            ),
            final(self).inodes_view() == old(self).inodes_view(),
            final(self).sb() == old(self).sb(),
    {
        let handle_id = self.next_fh;
        self.next_fh = self.next_fh + 1;
        self.file_handles.insert(handle_id, FileHandle::new(inode_id, flags));
        proof {
            assert forall|x: u64|
                #[trigger] self.handles_view().contains_key(x) implies x < self.next_fh by {
                if x != handle_id {
                    assert(old(self).handles_view().contains_key(x));
                }
            }
            assert forall|k: u64|
                #[trigger] self.has_inode(k) implies k < self.sb().next_inode_id
                && self.inode_at(k).id == k && (match self.inode_at(k).data {
                INodeType::File { blocks, size } => blocks@.len() == BlockRef::blocks_needed(
                    size,
                ),
                INodeType::Directory { .. } => true,
            }) by {
                assert(old(self).has_inode(k));
            }
        }
        handle_id
    }

    /// What a successful create leaves behind: the fresh inode is in the
    /// table under the superblock's old counter value, with a
    /// default-attributed record of the requested kind stamped at `now`,
    /// the parent's entries map the name to it, a handle for it is
    /// registered, and the counters have advanced. Everything else is as
    /// it was.
    pub open spec fn create_ok_post(
        pre: Self,
        post: Self,
        parent: u64,
        name: Seq<char>,
        kind: FileType,
        flags: i32,
        now: u64,
        attr: FileAttr,
        fh: u64,
    ) -> bool {
        let id = pre.sb().next_inode_id;
        &&& post.wf()
        &&& attr.ino == id
        &&& attr.size == 0
        &&& attr.blocks == 0
        &&& attr.kind == kind
        &&& attr.atime == now && attr.mtime == now && attr.ctime == now && attr.crtime == now
        &&& post.has_inode(id)
        &&& post.inode_at(id).id == id
        &&& post.inode_at(id).parent == parent
        &&& post.inode_at(id).attr == attr
        &&& (kind == FileType::RegularFile ==> (post.inode_at(id).data
            matches INodeType::File { blocks, size } && blocks@ == Seq::<
            crate::block::BlockRef,
        >::empty() && size == 0))
        &&& (kind == FileType::Directory ==> (post.inode_at(id).data
            matches INodeType::Directory { entries } && entries@ == Map::<
            Seq<char>,
            u64,
        >::empty()))
        &&& post.dir_entries_at(parent) == pre.dir_entries_at(parent).insert(name, id)
        &&& forall|k: u64|
            k != id && k != parent ==> #[trigger] post.has_inode(k) == pre.has_inode(k) && (
            pre.has_inode(k) ==> post.inode_at(k) == pre.inode_at(k))
        &&& post.inode_at(parent).id == pre.inode_at(parent).id
        &&& post.inode_at(parent).parent == pre.inode_at(parent).parent
        &&& post.inode_at(parent).attr == pre.inode_at(parent).attr
        &&& fh == pre.next_handle()
        &&& post.handles_view() == pre.handles_view().insert(
            fh,
            FileHandle { inode_id: id, flags },
        )
        &&& post.sb() == (SuperBlock {
            next_inode_id: (pre.sb().next_inode_id + 1) as u64,
            inode_count: (pre.sb().inode_count + 1) as u64,
            ..pre.sb()
        })
    }

    /// Create a new inode of the given kind under `parent` with `name`,
    /// stamped with the clock value `now`: the single metadata transaction
    /// behind `create_file` and `create_directory`. Fails with `NotFound`
    /// for an absent parent, `NotDirectory` for a file parent, and
    /// `NameExists` for a name already present — and in every failure the
    /// filesystem is left exactly as it was.
    fn create_node(&mut self, parent: u64, name: String, kind: FileType, flags: i32, now: u64)
        -> (r: Result<(FileAttr, u64), TimeFSError>)
        requires
            old(self).wf(),
            old(self).sb().next_inode_id < u64::MAX,
            old(self).sb().inode_count < u64::MAX,
            old(self).next_handle() < u64::MAX,
        ensures
            match r {
                Ok((attr, fh)) => old(self).has_inode(parent) && (old(self).inode_at(
                    parent,
                ).data matches INodeType::Directory { .. }) && !old(self).dir_entries_at(
                    parent,
                ).contains_key(name@) && Self::create_ok_post(
                    *old(self),
                    *final(self),
                    parent,
                    name@,
                    kind,
                    flags,
                    now,
                    attr,
                    fh,
                ),
                Err(e) => *final(self) == *old(self) && match e {
                    TimeFSError::NotFound(i) => i == parent && !old(self).has_inode(parent),
                    TimeFSError::NotDirectory(i) => i == parent && old(self).has_inode(parent)
                        && (old(self).inode_at(parent).data matches INodeType::File { .. }),
                    TimeFSError::NameExists(n) => n@ == name@ && old(self).has_inode(parent) && (
                    old(self).inode_at(parent).data matches INodeType::Directory { .. }) && old(
                        self,
                    ).dir_entries_at(parent).contains_key(name@),
                    _ => false,
                },
            },
    {
        match self.inodes.get(parent) {
            None => {
                return Err(TimeFSError::NotFound(parent));
            },
            Some(parent_node) => match &parent_node.data {
                INodeType::File { .. } => {
                    return Err(TimeFSError::NotDirectory(parent));
                },
                INodeType::Directory { entries } => {
                    if entries.contains_name(&name) {
                        return Err(TimeFSError::NameExists(name));
                    }
                },
            },
        }
        let ghost pre = *self;
        let id = self.super_block.get_next_inode_id();
        self.super_block.alloc_inode();
        let attr = match kind {
            FileType::RegularFile => FileAttrBuilder::default().ino(id).with_regular_file()
                .zero_size().with_now(now).build(),
            FileType::Directory => FileAttrBuilder::default().ino(id).with_directory().zero_size()
                .with_now(now).build(),
        };
        let data = match kind {
            FileType::RegularFile => INodeType::empty_file(),
            FileType::Directory => INodeType::empty_directory(),
        };
        let node = INode::new(id, parent, data, attr);
        self.inodes.insert(id, node);
        let parent_node = match self.inodes.take(parent) {
            Some(n) => n,
            None => {
                proof {
                    assert(pre.has_inode(parent));
                    assert(parent < pre.sb().next_inode_id);
                    assert(false);
                }
                return Err(TimeFSError::NotFound(parent));
            },
        };
        let INode { id: p_id, parent: p_parent, data: p_data, attr: p_attr } = parent_node;
        let mut entries = match p_data {
            INodeType::Directory { entries } => entries,
            INodeType::File { .. } => {
                proof {
                    assert(false);
                }
                crate::inode::DirEntries::new()
            },
        };
        let ghost name_view = name@;
        entries.insert(name, id);
        self.inodes.insert(
            parent,
            INode { id: p_id, parent: p_parent, data: INodeType::Directory { entries }, attr: p_attr },
        );
        proof {
            assert(pre.has_inode(parent));
            assert(parent < pre.sb().next_inode_id);
            assert(id != parent);
            assert forall|k: u64|
                #[trigger] self.has_inode(k) implies k < self.sb().next_inode_id
                && self.inode_at(k).id == k && (match self.inode_at(k).data {
                INodeType::File { blocks, size } => blocks@.len() == BlockRef::blocks_needed(
                    size,
                ),
                INodeType::Directory { .. } => true,
            }) by {
                if k != id && k != parent {
                    assert(pre.has_inode(k));
                }
            }
            assert(self.has_inode(ROOT_INODE_ID)) by {
                if ROOT_INODE_ID != id && ROOT_INODE_ID != parent {
                    assert(pre.has_inode(ROOT_INODE_ID));
                }
            }
            assert(self.inode_at(ROOT_INODE_ID).data matches INodeType::Directory { .. });
            assert(self.dir_entries_at(parent) =~= pre.dir_entries_at(parent).insert(
                name_view,
                id,
            ));
            assert forall|h: u64|
                #[trigger] self.handles_view().contains_key(h) implies h < self.next_handle() by {
                assert(pre.handles_view().contains_key(h));
            }
            assert(self.wf());
        }
        let fh = self.alloc_file_handle(id, flags);
        Ok((attr, fh))
    }

    /// Create a regular file named `name` under `parent`, stamped with the
    /// clock value `now`, returning its attributes and an open handle.
    pub fn create_file(&mut self, parent: u64, name: String, flags: i32, now: u64) -> (r: Result<
        (FileAttr, u64),
        TimeFSError,
    >)
        requires
            old(self).wf(),
            old(self).sb().next_inode_id < u64::MAX,
            old(self).sb().inode_count < u64::MAX,
            old(self).next_handle() < u64::MAX,
        ensures
            match r {
                Ok((attr, fh)) => old(self).has_inode(parent) && (old(self).inode_at(
                    parent,
                ).data matches INodeType::Directory { .. }) && !old(self).dir_entries_at(
                    parent,
                ).contains_key(name@) && Self::create_ok_post(
                    *old(self),
                    *final(self),
                    parent,
                    name@,
                    FileType::RegularFile,
                    flags,
                    now,
                    attr,
                    fh,
                ),
                Err(e) => *final(self) == *old(self) && match e {
                    TimeFSError::NotFound(i) => i == parent && !old(self).has_inode(parent),
                    TimeFSError::NotDirectory(i) => i == parent && old(self).has_inode(parent)
                        && (old(self).inode_at(parent).data matches INodeType::File { .. }),
                    TimeFSError::NameExists(n) => n@ == name@ && old(self).has_inode(parent) && (
                    old(self).inode_at(parent).data matches INodeType::Directory { .. }) && old(
                        self,
                    ).dir_entries_at(parent).contains_key(name@),
                    _ => false,
                },
            },
    {
        self.create_node(parent, name, FileType::RegularFile, flags, now)
    }

    /// Create a directory named `name` under `parent`, stamped with the
    /// clock value `now`, returning its attributes and an open handle.
    pub fn create_directory(&mut self, parent: u64, name: String, flags: i32, now: u64) -> (r:
        Result<(FileAttr, u64), TimeFSError>)
        requires
            old(self).wf(),
            old(self).sb().next_inode_id < u64::MAX,
            old(self).sb().inode_count < u64::MAX,
            old(self).next_handle() < u64::MAX,
        ensures
            match r {
                Ok((attr, fh)) => old(self).has_inode(parent) && (old(self).inode_at(
                    parent,
                ).data matches INodeType::Directory { .. }) && !old(self).dir_entries_at(
                    parent,
                ).contains_key(name@) && Self::create_ok_post(
                    *old(self),
                    *final(self),
                    parent,
                    name@,
                    FileType::Directory,
                    flags,
                    now,
                    attr,
                    fh,
                ),
                Err(e) => *final(self) == *old(self) && match e {
                    TimeFSError::NotFound(i) => i == parent && !old(self).has_inode(parent),
                    TimeFSError::NotDirectory(i) => i == parent && old(self).has_inode(parent)
                        && (old(self).inode_at(parent).data matches INodeType::File { .. }),
                    TimeFSError::NameExists(n) => n@ == name@ && old(self).has_inode(parent) && (
                    old(self).inode_at(parent).data matches INodeType::Directory { .. }) && old(
                        self,
                    ).dir_entries_at(parent).contains_key(name@),
                    _ => false,
                },
            },
    {
        self.create_node(parent, name, FileType::Directory, flags, now)
    }

    /// The content of one block of a file, read through the cache: on a
    /// cache miss the durable bytes, and empty bytes for a block never
    /// written — the kernel-facing adapter slices and concatenates block
    /// reads into byte-range reads. Fails with `NotFound` for an absent
    /// inode, `IsDirectory` for a directory, and `BlockIndexError` for an
    /// index outside the file's block list.
    pub fn read_file_block(&mut self, inode_id: u64, index: usize, now: u64) -> (r: Result<
        Vec<u8>,
        TimeFSError,
    >)
        requires
            old(self).wf(),
        ensures
            final(self).wf(),
            final(self).inodes_view() == old(self).inodes_view(),
            final(self).handles_view() == old(self).handles_view(),
            final(self).sb() == old(self).sb(),
            match r {
                Ok(data) => old(self).has_inode(inode_id) && (old(self).inode_at(
                    inode_id,
                ).data matches INodeType::File { blocks, .. } && index < blocks@.len()
                    && BlockCache::get_block_post(
                    old(self).cache(),
                    final(self).cache(),
                    old(self).disk(),
                    final(self).disk(),
                    blocks@[index as int].block_id,
                    data@,
                )),
                Err(e) => *final(self) == *old(self) && match e {
                    TimeFSError::NotFound(i) => i == inode_id && !old(self).has_inode(inode_id),
                    TimeFSError::IsDirectory(i) => i == inode_id && old(self).has_inode(inode_id)
                        && (old(self).inode_at(inode_id).data
                        matches INodeType::Directory { .. }),
                    TimeFSError::BlockIndexError => old(self).has_inode(inode_id) && (old(
                        self,
                    ).inode_at(inode_id).data matches INodeType::File { blocks, .. } && index
                        >= blocks@.len()),
                    _ => false,
                },
            },
    {
        let bid = match self.inodes.get(inode_id) {
            None => {
                return Err(TimeFSError::NotFound(inode_id));
            },
            Some(node) => match &node.data {
                INodeType::Directory { .. } => {
                    return Err(TimeFSError::IsDirectory(inode_id));
                },
                INodeType::File { blocks, .. } => {
                    if index >= blocks.len() {
                        return Err(TimeFSError::BlockIndexError);
                    }
                    blocks[index].block_id
                },
            },
        };
        let data = self.block_cache.get_block(&mut self.store, bid, now);
        proof {
            assert forall|k: u64|
                #[trigger] self.has_inode(k) implies k < self.sb().next_inode_id
                && self.inode_at(k).id == k && (match self.inode_at(k).data {
                INodeType::File { blocks, size } => blocks@.len() == BlockRef::blocks_needed(
                    size,
                ),
                INodeType::Directory { .. } => true,
            }) by {
                assert(old(self).has_inode(k));
            }
            assert forall|h: u64|
                #[trigger] self.handles_view().contains_key(h) implies h < self.next_handle() by {
                assert(old(self).handles_view().contains_key(h));
            }
        }
        Ok(data)
    }

    /// What a successful append leaves behind: a freshly numbered block
    /// carries the bytes (dirty in the cache, deferred to disk), the
    /// file's block list gained a reference to it sized by the bytes, and
    /// the file's size grew by them.
    pub open spec fn append_ok_post(
        pre: Self,
        post: Self,
        inode_id: u64,
        data: Seq<u8>,
        now: u64,
    ) -> bool {
        let bid = pre.sb().next_block_id;
        &&& post.wf()
        &&& crate::superblock::alloc_block_id_post(pre.sb(), post.sb(), bid)
        &&& BlockCache::update_block_post(
            pre.cache(),
            post.cache(),
            pre.disk(),
            post.disk(),
            bid,
            data,
            now,
        )
        &&& post.has_inode(inode_id)
        &&& (pre.inode_at(inode_id).data matches INodeType::File { blocks, size }
            ==> (post.inode_at(inode_id).data matches INodeType::File {
            blocks: new_blocks,
            size: new_size,
        } && new_blocks@ == blocks@.push(
            BlockRef { block_id: bid, size: data.len() as u32 },
        ) && new_size == size + data.len()))
        &&& (pre.inode_at(inode_id).data matches INodeType::File { blocks, size }
            ==> post.inode_at(inode_id).attr == (crate::attr::FileAttr {
            size: (size + data.len()) as u64,
            blocks: (blocks@.len() + 1) as u64,
            mtime: now,
            ..pre.inode_at(inode_id).attr
        }))
        &&& forall|k: u64|
            k != inode_id ==> #[trigger] post.has_inode(k) == pre.has_inode(k) && (pre.has_inode(
                k,
            ) ==> post.inode_at(k) == pre.inode_at(k))
        &&& post.handles_view() == pre.handles_view()
    }

    /// Append one block of content to a file: allocate a fresh block id
    /// from the superblock, hand the bytes to the cache (which defers the
    /// disk write), and extend the file's block list and size. The file's
    /// trailing block must be full — a partially filled trailing block
    /// answers `BlockIndexError`, since appending past it would corrupt
    /// the block-list/size bookkeeping.
    pub fn append_block(&mut self, inode_id: u64, data: Vec<u8>, now: u64) -> (r: Result<
        (),
        TimeFSError,
    >)
        requires
            old(self).wf(),
            1 <= data@.len() <= crate::block::BLOCK_SIZE,
            old(self).sb().next_block_id < u64::MAX,
            old(self).has_inode(inode_id) ==> match old(self).inode_at(inode_id).data {
                INodeType::File { size, .. } => size + crate::block::BLOCK_SIZE <= u64::MAX,
                INodeType::Directory { .. } => true,
            },
        ensures
            match r {
                Ok(u) => old(self).has_inode(inode_id) && (old(self).inode_at(inode_id).data
                    matches INodeType::File { size, .. } && size % (
                crate::block::BLOCK_SIZE as u64) == 0) && Self::append_ok_post(
                    *old(self),
                    *final(self),
                    inode_id,
                    data@,
                    now,
                ),
                Err(e) => *final(self) == *old(self) && match e {
                    TimeFSError::NotFound(i) => i == inode_id && !old(self).has_inode(inode_id),
                    TimeFSError::IsDirectory(i) => i == inode_id && old(self).has_inode(inode_id)
                        && (old(self).inode_at(inode_id).data
                        matches INodeType::Directory { .. }),
                    TimeFSError::BlockIndexError => old(self).has_inode(inode_id) && (old(
                        self,
                    ).inode_at(inode_id).data matches INodeType::File { size, .. } && size % (
                    crate::block::BLOCK_SIZE as u64) != 0),
                    _ => false,
                },
            },
    {
        match self.inodes.get(inode_id) {
            None => {
                return Err(TimeFSError::NotFound(inode_id));
            },
            Some(node) => match &node.data {
                INodeType::Directory { .. } => {
                    return Err(TimeFSError::IsDirectory(inode_id));
                },
                INodeType::File { size, .. } => {
                    if *size % (crate::block::BLOCK_SIZE as u64) != 0 {
                        return Err(TimeFSError::BlockIndexError);
                    }
                },
            },
        }
        let ghost pre = *self;
        let node = match self.inodes.take(inode_id) {
            Some(n) => n,
            None => {
                proof {
                    assert(false);
                }
                return Err(TimeFSError::NotFound(inode_id));
            },
        };
        let INode { id: n_id, parent: n_parent, data: n_data, attr: n_attr } = node;
        let (mut blocks, size) = match n_data {
            INodeType::File { blocks, size } => (blocks, size),
            INodeType::Directory { .. } => {
                proof {
                    assert(false);
                }
                (Vec::new(), 0)
            },
        };
        let bid = self.super_block.get_next_block_id();
        let len = data.len();
        let ghost d = data@;
        self.block_cache.update_block(&mut self.store, bid, data, now);
        blocks.push(BlockRef { block_id: bid, size: len as u32 });
        let new_size = size + len as u64;
        proof {
            let bs = crate::block::BLOCK_SIZE as int;
            assert(pre.inode_at(inode_id).data matches INodeType::File { blocks: ob, size: os }
                && blocks@ == ob@.push(BlockRef { block_id: bid, size: len as u32 })
                && new_size == os + len);
            assert(blocks@.len() == BlockRef::blocks_needed(new_size)) by {
                let k = blocks@.len() - 1;
                assert(pre.has_inode(inode_id));
                assert(match pre.inode_at(inode_id).data {
                    INodeType::File { blocks: bl, size: sz } => bl@.len()
                        == BlockRef::blocks_needed(sz),
                    INodeType::Directory { .. } => true,
                });
                assert(k == BlockRef::blocks_needed(size));
                assert(size % (bs as u64) == 0);
                assert((size + bs - 1) / bs == (size as int) / bs) by (nonlinear_arith)
                    requires
                        size % (bs as u64) == 0,
                        bs == 4096,
                {}
                assert(k == (size as int) / bs);
                assert((size + len + bs - 1) / bs == (size as int) / bs + 1) by (nonlinear_arith)
                    requires
                        size % (bs as u64) == 0,
                        bs == 4096,
                        1 <= len <= bs,
                        size + bs <= u64::MAX,
                {}
            }
        }
        let blocks_count = blocks.len();
        self.inodes.insert(
            inode_id,
            INode {
                id: n_id,
                parent: n_parent,
                data: INodeType::File { blocks, size: new_size },
                attr: FileAttr {
                    size: new_size,
                    blocks: blocks_count as u64,
                    mtime: now,
                    ..n_attr
                },
            },
        );
        proof {
            assert(pre.has_inode(ROOT_INODE_ID));
            assert(inode_id != ROOT_INODE_ID);
            assert(pre.has_inode(inode_id));
            assert(pre.inode_at(inode_id).id == inode_id);
            assert forall|k: u64|
                #[trigger] self.has_inode(k) implies k < self.sb().next_inode_id
                && self.inode_at(k).id == k && (match self.inode_at(k).data {
                INodeType::File { blocks: bl, size: sz } => bl@.len() == BlockRef::blocks_needed(
                    sz,
                ),
                INodeType::Directory { .. } => true,
            }) by {
                if k != inode_id {
                    assert(pre.has_inode(k));
                }
            }
            assert forall|h: u64|
                #[trigger] self.handles_view().contains_key(h) implies h < self.next_handle() by {
                assert(pre.handles_view().contains_key(h));
            }
            assert forall|k: u64|
                k != inode_id implies #[trigger] self.has_inode(k) == pre.has_inode(k) && (
            pre.has_inode(k) ==> self.inode_at(k) == pre.inode_at(k)) by {}
        }
        Ok(())
    }
}

} // verus!
