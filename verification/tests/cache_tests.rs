//! The write-back cache engine, exercised through its public operations
//! against the store model: read-after-write, durability across shutdown
//! and reopen, deferred write-back, last-write-wins, per-block
//! independence, eviction durability and miss semantics.

use timefs::BlockCache;
use timefs::BlockOperation;
use timefs::BlockStore;

fn on_disk(store: &BlockStore, id: u64) -> Option<Vec<u8>> {
    store.read_block(id).cloned()
}

#[test]
fn test_basic_read_write() {
    let mut store = BlockStore::new();
    let mut cache = BlockCache::new(1000, 30);

    let block_id = 42;
    let test_data = b"Hello, BlockCache!".to_vec();

    cache.update_block(&mut store, block_id, test_data.clone(), 0);

    let read_data = cache.get_block(&mut store, block_id, 1);
    assert_eq!(test_data, read_data);

    cache.shutdown(&mut store);
}

#[test]
fn test_persistence_after_shutdown() {
    let mut store = BlockStore::new();

    let block_id = 300;
    let test_data = b"Persistent data".to_vec();

    {
        let mut cache = BlockCache::new(1000, 30);
        cache.update_block(&mut store, block_id, test_data.clone(), 0);
        cache.shutdown(&mut store);
    }
    {
        let mut cache = BlockCache::new(1000, 30);
        let data = cache.get_block(&mut store, block_id, 1);
        assert_eq!(test_data, data, "Should equal");
    }
}

#[test]
fn test_delayed_flush() {
    let mut store = BlockStore::new();
    let flush_interval = 2;
    let mut cache = BlockCache::new(1000, flush_interval);

    let block_id = 200;
    let test_data = b"This will be auto-flushed".to_vec();

    cache.update_block(&mut store, block_id, test_data.clone(), 0);

    let read_data = cache.get_block(&mut store, block_id, 0);
    assert_eq!(test_data, read_data, "Data should be contained in mem");

    let early = on_disk(&store, block_id);
    assert!(
        early.is_none() || early.as_deref() != Some(test_data.as_slice()),
        "block shouldn't be flushed immediately"
    );

    cache.periodic_sweep(&mut store, 1);
    let still_early = on_disk(&store, block_id);
    assert!(
        still_early.is_none() || still_early.as_deref() != Some(test_data.as_slice()),
        "block shouldn't be flushed before the interval"
    );

    cache.periodic_sweep(&mut store, flush_interval + 5);

    let disk_data = on_disk(&store, block_id).expect("block should be flushed to disk");
    assert_eq!(test_data, disk_data);
    cache.shutdown(&mut store);
}

#[test]
fn test_flush_on_shutdown() {
    let mut store = BlockStore::new();
    // a long interval
    let mut cache = BlockCache::new(1000, 3600);

    let block_id = 42;
    let data = b"This will be flushed on shutdown".to_vec();

    cache.update_block(&mut store, block_id, data.clone(), 0);

    let early = on_disk(&store, block_id);
    assert!(
        early.is_none() || early.as_deref() != Some(data.as_slice()),
        "block shouldn't be flushed immediately"
    );

    cache.shutdown(&mut store);

    let disk_data = on_disk(&store, block_id).expect("block should be flushed to disk");
    assert_eq!(data, disk_data);
}

#[test]
fn test_concurrent_access() {
    let mut store = BlockStore::new();
    let mut cache = BlockCache::new(1000, 30);

    for id in 0..100u64 {
        let block_id = id + 2000;
        let data = format!("Concurrent data {}", id).into_bytes();

        cache.update_block(&mut store, block_id, data.clone(), id);

        let read_data = cache.get_block(&mut store, block_id, id);
        assert_eq!(data, read_data, "Concurrent data should be matched");
    }

    for id in 0..100u64 {
        let block_id = id + 2000;
        let expected = format!("Concurrent data {}", id).into_bytes();
        let read_data = cache.get_block(&mut store, block_id, 200 + id);
        assert_eq!(expected, read_data, "Concurrent data should be matched");
    }

    cache.shutdown(&mut store);
}

#[test]
fn test_lru_eviction() {
    let mut store = BlockStore::new();
    let max_blocks = 5;
    let mut cache = BlockCache::new(max_blocks, 30);

    let block_count = max_blocks as u64 * 2;
    let mut block_data = Vec::new();

    for i in 0..block_count {
        let block_id = i + 3000;
        let data = format!("LRU test data {}", i).into_bytes();

        cache.update_block(&mut store, block_id, data.clone(), i);
        block_data.push((block_id, data));
        cache.flush_block(&mut store, block_id, false);
    }

    for (block_id, expected_data) in &block_data {
        let read_data = cache.get_block(&mut store, *block_id, 100);
        assert_eq!(expected_data, &read_data, "Data should be equal");
    }

    cache.shutdown(&mut store);
}

#[test]
fn test_dirty_block_tracking() {
    let mut store = BlockStore::new();
    let mut cache = BlockCache::new(1000, 30);

    let block_id = 4000;
    let initial_data = b"Initial data".to_vec();
    let update_data = b"Update data".to_vec();

    cache.update_block(&mut store, block_id, initial_data.clone(), 0);
    assert!(cache.flush_block(&mut store, block_id, true));

    let disk_data = on_disk(&store, block_id).expect("flushed block should be on disk");
    assert_eq!(disk_data, initial_data, "Data should be equal");

    cache.update_block(&mut store, block_id, update_data.clone(), 1);

    let disk_data = on_disk(&store, block_id).expect("block still on disk");
    assert_eq!(disk_data, initial_data);

    let cached_data = cache.get_block(&mut store, block_id, 2);
    assert_eq!(update_data, cached_data);

    cache.shutdown(&mut store);

    let final_data = on_disk(&store, block_id).expect("block flushed by shutdown");
    assert_eq!(final_data, update_data);
}

#[test]
fn test_miss_returns_empty() {
    let mut store = BlockStore::new();
    let mut cache = BlockCache::new(8, 30);
    let data = cache.get_block(&mut store, 77, 0);
    assert_eq!(data, Vec::<u8>::new());
    // the miss populated the cache: a second read still answers empty
    let data = cache.get_block(&mut store, 77, 1);
    assert!(data.is_empty());
}

#[test]
fn test_last_write_wins() {
    let mut store = BlockStore::new();
    let mut cache = BlockCache::new(16, 30);
    cache.update_block(&mut store, 9, b"first".to_vec(), 0);
    cache.update_block(&mut store, 9, b"second".to_vec(), 1);
    assert!(cache.flush_block(&mut store, 9, true));
    assert_eq!(on_disk(&store, 9).unwrap(), b"second".to_vec());
}

#[test]
fn test_flush_clean_is_noop() {
    let mut store = BlockStore::new();
    let mut cache = BlockCache::new(16, 30);
    // absent entry: nothing to flush
    assert!(!cache.flush_block(&mut store, 5, true));
    cache.update_block(&mut store, 5, b"x".to_vec(), 0);
    assert!(cache.flush_block(&mut store, 5, true));
    // now clean: flushing again is a no-op
    assert!(!cache.flush_block(&mut store, 5, true));
}

#[test]
fn test_eviction_writes_back() {
    let mut store = BlockStore::new();
    let mut cache = BlockCache::new(2, 3600);
    // fill beyond capacity with dirty entries and never flush explicitly
    for i in 0..6u64 {
        let data = format!("evicted {}", i).into_bytes();
        cache.update_block(&mut store, 100 + i, data, i);
    }
    // reading everything back forces reloads from the store for the
    // evicted blocks; nothing was lost
    for i in 0..6u64 {
        let expected = format!("evicted {}", i).into_bytes();
        let got = cache.get_block(&mut store, 100 + i, 50 + i);
        assert_eq!(expected, got);
    }
}

#[test]
fn test_sweep_flushes_only_expired() {
    let mut store = BlockStore::new();
    let mut cache = BlockCache::new(16, 10);
    cache.update_block(&mut store, 1, b"old".to_vec(), 0);
    cache.update_block(&mut store, 2, b"young".to_vec(), 95);
    cache.periodic_sweep(&mut store, 100);
    assert_eq!(on_disk(&store, 1).unwrap(), b"old".to_vec());
    assert!(on_disk(&store, 2).is_none());
    cache.periodic_sweep(&mut store, 105);
    assert_eq!(on_disk(&store, 2).unwrap(), b"young".to_vec());
}

#[test]
fn test_handle_operations() {
    let mut store = BlockStore::new();
    let mut cache = BlockCache::new(16, 3600);
    cache.update_block(&mut store, 8, b"queued".to_vec(), 0);
    assert!(cache.handle_operation(&mut store, BlockOperation::MarkDirty(8, 1)));
    assert!(cache.handle_operation(&mut store, BlockOperation::Flush(8)));
    assert_eq!(on_disk(&store, 8).unwrap(), b"queued".to_vec());
    cache.update_block(&mut store, 9, b"drained".to_vec(), 2);
    assert!(!cache.handle_operation(&mut store, BlockOperation::ShutDown));
    assert_eq!(on_disk(&store, 9).unwrap(), b"drained".to_vec());
}
