//! A user-space filesystem core: a write-back block cache with bounded
//! capacity and dirty tracking, a backing-store model, and the persistent
//! metadata layer (superblock allocation counters and the inode tree).

mod attr;
mod block;
mod cache;
mod errors;
mod file_handle;
mod fs;
mod inode;
pub mod laws;
mod store;
mod superblock;
mod vecmap;

pub use attr::FileAttr;
pub use attr::FileAttrBuilder;
pub use attr::FileType;
pub use block::block_rel_path;
pub use block::inode_rel_path;
pub use block::BlockRef;
pub use block::BLOCK_SIZE;
pub use cache::is_expired;
pub use cache::BlockCache;
pub use cache::BlockCacheError;
pub use cache::BlockOperation;
pub use cache::CacheEntry;
pub use errors::TimeFSError;
pub use file_handle::FileFlags;
pub use file_handle::FileHandle;
pub use fs::TimeFS;
pub use inode::encoded_attr;
pub use inode::encoded_entries;
pub use inode::encoded_refs;
pub use inode::kind_byte;
pub use inode::DirEntries;
pub use inode::INode;
pub use inode::INodeType;
pub use store::BlockStore;
pub use superblock::alloc_block_id_post;
pub use superblock::alloc_inode_id_post;
pub use superblock::lemma_alloc_run_gapless;
pub use superblock::lemma_encoded_injective;
pub use superblock::lemma_encoded_well_formed;
pub use superblock::SuperBlock;
pub use superblock::ROOT_INODE_ID;
pub use superblock::SUPER_MAGIC;
pub use vecmap::VecMap;
