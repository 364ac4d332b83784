use mpc_node::oram::{Block, Bucket, PathOram, BUCKET_SIZE, EMPTY_BLOCK_ID};

#[test]
fn test_block_creation() {
    let block = Block::new(1, vec![1, 2, 3], 0);
    assert_eq!(block.id, 1);
    assert_eq!(block.data, vec![1, 2, 3]);
    assert!(!block.is_empty());
}

#[test]
fn test_empty_block() {
    let block = Block::empty();
    assert!(block.is_empty());
    assert_eq!(block.id, EMPTY_BLOCK_ID);
}

#[test]
fn test_bucket_add_and_count() {
    let mut bucket = Bucket::new();
    assert_eq!(bucket.count(), 0);
    bucket.add(Block::new(1, vec![1], 0));
    assert_eq!(bucket.count(), 1);
    bucket.add(Block::new(2, vec![2], 0));
    assert_eq!(bucket.count(), 2);
}

#[test]
fn test_bucket_remove() {
    let mut bucket = Bucket::new();
    bucket.add(Block::new(42, vec![9, 9], 0));
    let removed = bucket.remove(42);
    assert!(removed.is_some());
    assert_eq!(removed.unwrap().id, 42);
    assert_eq!(bucket.count(), 0);
}

#[test]
fn test_bucket_full() {
    let mut bucket = Bucket::new();
    for i in 0..BUCKET_SIZE {
        let added = bucket.add(Block::new(i as u64, vec![1], 0));
        assert!(added);
    }
    let added = bucket.add(Block::new(99, vec![1], 0));
    assert!(!added);
}

#[test]
fn test_oram_write_and_read() {
    let mut oram = PathOram::new(16);
    oram.write(1, vec![10, 20, 30]);
    let data = oram.read(1);
    assert!(data.is_some());
    assert_eq!(data.unwrap(), vec![10, 20, 30]);
}

#[test]
fn test_oram_read_nonexistent_returns_none() {
    let mut oram = PathOram::new(16);
    let data = oram.read(999);
    assert!(data.is_none());
}

#[test]
fn test_oram_contains() {
    let mut oram = PathOram::new(16);
    assert!(!oram.contains(1));
    oram.write(1, vec![1, 2, 3]);
    assert!(oram.contains(1));
}

#[test]
fn test_oram_multiple_blocks() {
    let mut oram = PathOram::new(16);
    oram.write(1, vec![1]);
    oram.write(2, vec![2]);
    oram.write(3, vec![3]);
    assert_eq!(oram.read(1).unwrap(), vec![1]);
    assert_eq!(oram.read(2).unwrap(), vec![2]);
    assert_eq!(oram.read(3).unwrap(), vec![3]);
}

#[test]
fn test_oram_overwrite_block() {
    let mut oram = PathOram::new(16);
    oram.write(1, vec![1, 2, 3]);
    oram.write(1, vec![9, 9, 9]);
    let data = oram.read(1);
    assert_eq!(data.unwrap(), vec![9, 9, 9]);
}

#[test]
fn test_oram_read_multiple_times() {
    let mut oram = PathOram::new(16);
    oram.write(42, vec![7, 7, 7]);
    let d1 = oram.read(42).unwrap();
    let d2 = oram.read(42).unwrap();
    let d3 = oram.read(42).unwrap();
    assert_eq!(d1, vec![7, 7, 7]);
    assert_eq!(d2, vec![7, 7, 7]);
    assert_eq!(d3, vec![7, 7, 7]);
}

#[test]
fn test_path_indices_root_to_leaf() {
    let oram = PathOram::new(8);
    let path = oram.path_indices(0);
    assert_eq!(path[0], 1);
    assert_eq!(path.len(), oram.height + 1);
}

#[test]
fn test_oram_store_u64_values() {
    let mut oram = PathOram::new(16);
    let share_value: u64 = 123456789;
    let bytes = share_value.to_le_bytes().to_vec();
    oram.write(1, bytes.clone());
    let retrieved = oram.read(1).unwrap();
    let recovered = u64::from_le_bytes(retrieved.try_into().unwrap());
    assert_eq!(recovered, share_value);
}

#[test]
fn oram_new_is_empty() {
    let oram = PathOram::new(16);
    assert_eq!(oram.stash_size(), 0);
    assert_eq!(oram.total_blocks(), 0);
    assert_eq!(oram.height, 5);
}

#[test]
fn oram_distinct_blocks_are_counted() {
    let mut oram = PathOram::new(16);
    oram.write(1, vec![1]);
    oram.write(2, vec![2]);
    assert_eq!(oram.total_blocks(), 2);
    assert_eq!(oram.read(1).unwrap(), vec![1]);
    assert_eq!(oram.total_blocks(), 2);
}

#[test]
fn oram_path_indices_end_at_leaf_node() {
    let oram = PathOram::new(8);
    let path = oram.path_indices(3);
    assert_eq!(path.len(), 5);
    assert_eq!(path[path.len() - 1], 16 + 3);
    assert_eq!(path[0], 1);
}

#[test]
fn oram_bucket_real_blocks_in_slot_order() {
    let mut bucket = Bucket::new();
    bucket.add(Block::new(5, vec![5], 0));
    bucket.add(Block::new(6, vec![6], 0));
    bucket.remove(5);
    let real = bucket.real_blocks();
    assert_eq!(real.len(), 1);
    assert_eq!(real[0].id, 6);
}

#[test]
fn oram_write_evicts_block_into_tree() {
    let mut oram = PathOram::new(16);
    oram.write(7, vec![9, 9]);
    assert_eq!(oram.stash_size(), 0);
    assert_eq!(oram.total_blocks(), 1);
    oram.write(8, vec![1]);
    assert_eq!(oram.stash_size(), 0);
    assert_eq!(oram.total_blocks(), 2);
}

#[test]
fn oram_overwrite_keeps_one_block() {
    let mut oram = PathOram::new(16);
    oram.write(1, vec![1, 2, 3]);
    oram.write(1, vec![9, 9, 9]);
    assert_eq!(oram.total_blocks(), 1);
    assert_eq!(oram.read(1), Some(vec![9, 9, 9]));
    assert_eq!(oram.total_blocks(), 1);
}

#[test]
fn oram_reads_survive_other_accesses() {
    let mut oram = PathOram::new(8);
    for i in 0..20u64 {
        oram.write(i, vec![i as u8]);
    }
    for _ in 0..3 {
        for i in 0..20u64 {
            assert_eq!(oram.read(i), Some(vec![i as u8]));
        }
    }
    oram.write(5, vec![50]);
    for i in 0..20u64 {
        let expected = if i == 5 { vec![50] } else { vec![i as u8] };
        assert_eq!(oram.read(i), Some(expected));
    }
    assert_eq!(oram.read(99), None);
    assert!(!oram.contains(99));
    assert_eq!(oram.total_blocks(), 20);
}

#[test]
fn oram_empty_slot_id_stores_nothing() {
    let mut oram = PathOram::new(8);
    oram.write(EMPTY_BLOCK_ID, vec![1]);
    assert!(oram.contains(EMPTY_BLOCK_ID));
    assert_eq!(oram.read(EMPTY_BLOCK_ID), None);
    assert_eq!(oram.total_blocks(), 0);
}
