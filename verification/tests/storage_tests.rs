use qwen3_backend::storage::{StableStore, StorageError};
use qwen3_backend::upload::Uploader;
use qwen3_backend::fmt::u64_to_string;

#[test]
fn save_then_load_round_trip() {
    let mut store = StableStore::new();
    let key = String::from("artifact");
    let data = vec![0u8, 255, 7, 0, 42];
    store.save_bytes_to_stable(&key, data.clone());
    let loaded = store.load_bytes_from_stable(&key);
    assert_eq!(loaded, Some(data));
}

#[test]
fn save_single_byte_round_trip() {
    let mut store = StableStore::new();
    let key = String::from("one");
    store.save_bytes_to_stable(&key, vec![0u8]);
    assert_eq!(store.load_bytes_from_stable(&key), Some(vec![0u8]));
}

#[test]
fn save_overwrites_previous_value() {
    let mut store = StableStore::new();
    let key = String::from("k");
    store.save_bytes_to_stable(&key, vec![1, 2, 3]);
    store.save_bytes_to_stable(&key, vec![9]);
    assert_eq!(store.load_bytes_from_stable(&key), Some(vec![9]));
    assert_eq!(store.entry_count(), 1);
}

#[test]
fn size_of_reports_blob_length() {
    let mut store = StableStore::new();
    let key = String::from("blob");
    assert_eq!(store.size_of(&key), None);
    store.save_bytes_to_stable(&key, vec![1, 2, 3, 4, 5]);
    assert_eq!(store.size_of(&key), Some(5));
}

#[test]
fn load_missing_key_fails() {
    let store = StableStore::new();
    let key = String::from("absent");
    assert_eq!(store.load_bytes_from_stable(&key), None);
    assert_eq!(store.get_stable_data(&key), Err(StorageError::KeyNotFound));
}

#[test]
fn distinct_keys_do_not_interfere() {
    let mut store = StableStore::new();
    let k1 = String::from("alpha");
    let k2 = String::from("beta");
    store.save_bytes_to_stable(&k1, vec![1]);
    store.save_bytes_to_stable(&k2, vec![2]);
    assert_eq!(store.load_bytes_from_stable(&k1), Some(vec![1]));
    assert_eq!(store.load_bytes_from_stable(&k2), Some(vec![2]));
    assert_eq!(store.entry_count(), 2);
}

#[test]
fn sequential_append_accumulates_in_order() {
    let mut up = Uploader::new();
    assert_eq!(up.buffer_size(), 0);
    up.append_chunk(b"Hello ".to_vec());
    up.append_chunk(b"World".to_vec());
    assert_eq!(up.buffer_size(), 11);
    assert_eq!(up.get_data(), b"Hello World".to_vec());
    assert_eq!(up.buffer_size(), 0);
}

#[test]
fn clear_buffer_empties_only_the_buffer() {
    let mut up = Uploader::new();
    up.append_chunk(vec![1, 2, 3]);
    up.append_parallel_chunk(0, vec![9]);
    up.clear_buffer();
    assert_eq!(up.buffer_size(), 0);
    assert_eq!(up.parallel_chunk_count(), 1);
}

#[test]
fn out_of_order_chunks_consolidate_in_id_order() {
    let mut up = Uploader::new();
    up.append_parallel_chunk(1, b"World".to_vec());
    up.append_parallel_chunk(0, b"Hello ".to_vec());
    let n = up.consolidate_parallel_chunks();
    assert_eq!(n, Ok(11));
    assert_eq!(up.parallel_chunk_count(), 0);
    assert_eq!(up.get_data(), b"Hello World".to_vec());
}

#[test]
fn consolidation_matches_sequential_append_for_any_permutation() {
    let chunks: Vec<&[u8]> = vec![b"a", b"bb", b"ccc", b"dddd"];
    let mut expected = Vec::new();
    for c in &chunks {
        expected.extend_from_slice(c);
    }
    let orders: Vec<Vec<u32>> = vec![
        vec![0, 1, 2, 3],
        vec![3, 2, 1, 0],
        vec![2, 0, 3, 1],
        vec![1, 3, 0, 2],
    ];
    for order in orders {
        let mut up = Uploader::new();
        for &id in &order {
            up.append_parallel_chunk(id, chunks[id as usize].to_vec());
        }
        assert!(up.parallel_chunks_complete(4));
        assert_eq!(up.consolidate_parallel_chunks(), Ok(expected.len()));
        assert_eq!(up.get_data(), expected);
    }
}

#[test]
fn consolidate_empty_map_fails_and_leaves_buffer() {
    let mut up = Uploader::new();
    up.append_chunk(vec![5, 6]);
    assert_eq!(up.consolidate_parallel_chunks(), Err(StorageError::EmptyUpload));
    assert_eq!(up.buffer_size(), 2);
    assert_eq!(up.get_data(), vec![5, 6]);
}

#[test]
fn completeness_is_exactly_the_dense_range() {
    let mut up = Uploader::new();
    up.append_parallel_chunk(0, vec![0]);
    up.append_parallel_chunk(1, vec![1]);
    up.append_parallel_chunk(2, vec![2]);
    assert!(up.parallel_chunks_complete(3));
    assert!(!up.parallel_chunks_complete(2)); // extra id
    assert!(!up.parallel_chunks_complete(4)); // missing id
    let mut gap = Uploader::new();
    gap.append_parallel_chunk(0, vec![0]);
    gap.append_parallel_chunk(2, vec![2]);
    assert!(!gap.parallel_chunks_complete(3)); // hole at 1
    assert!(!gap.parallel_chunks_complete(2)); // id 2 is out of range
    let empty = Uploader::new();
    assert!(empty.parallel_chunks_complete(0));
    assert!(!empty.parallel_chunks_complete(1));
}

#[test]
fn reupload_same_id_uses_last_written_content() {
    let mut up = Uploader::new();
    up.append_parallel_chunk(0, b"old".to_vec());
    up.append_parallel_chunk(0, b"new!".to_vec());
    assert_eq!(up.parallel_chunk_count(), 1);
    assert_eq!(up.consolidate_parallel_chunks(), Ok(4));
    assert_eq!(up.get_data(), b"new!".to_vec());
}

#[test]
fn remove_chunk_reports_presence() {
    let mut up = Uploader::new();
    up.append_parallel_chunk(7, vec![1]);
    assert!(up.remove_parallel_chunk(7));
    assert!(!up.remove_parallel_chunk(7));
    assert_eq!(up.parallel_chunk_count(), 0);
}

#[test]
fn chunk_ids_are_sorted() {
    let mut up = Uploader::new();
    up.append_parallel_chunk(5, vec![1]);
    up.append_parallel_chunk(1, vec![1]);
    up.append_parallel_chunk(3, vec![1]);
    assert_eq!(up.parallel_chunk_ids(), vec![1, 3, 5]);
    assert_eq!(up.parallel_buffer_size(), 3);
}

#[test]
fn clear_parallel_chunks_keeps_buffer() {
    let mut up = Uploader::new();
    up.append_chunk(vec![1]);
    up.append_parallel_chunk(0, vec![2]);
    up.clear_parallel_chunks();
    assert_eq!(up.parallel_chunk_count(), 0);
    assert_eq!(up.buffer_size(), 1);
}

#[test]
fn save_to_stable_moves_buffer() {
    let mut up = Uploader::new();
    let mut store = StableStore::new();
    let key = String::from("blob");
    up.append_chunk(vec![1, 2, 3]);
    assert_eq!(up.save_to_stable(&mut store, &key), Ok(()));
    assert_eq!(up.buffer_size(), 0);
    assert_eq!(store.load_bytes_from_stable(&key), Some(vec![1, 2, 3]));
}

#[test]
fn save_to_stable_rejects_empty_buffer() {
    let mut up = Uploader::new();
    let mut store = StableStore::new();
    let key = String::from("blob");
    assert_eq!(up.save_to_stable(&mut store, &key), Err(StorageError::EmptyBuffer));
    assert_eq!(store.entry_count(), 0);
}

#[test]
fn save_parallel_to_stable_skips_buffer() {
    let mut up = Uploader::new();
    let mut store = StableStore::new();
    let key = String::from("weights");
    up.append_chunk(b"untouched".to_vec());
    up.append_parallel_chunk(1, b"B".to_vec());
    up.append_parallel_chunk(0, b"A".to_vec());
    assert_eq!(up.save_parallel_to_stable(&mut store, &key), Ok(2));
    assert_eq!(store.load_bytes_from_stable(&key), Some(b"AB".to_vec()));
    assert_eq!(up.parallel_chunk_count(), 0);
    assert_eq!(up.buffer_size(), 9);
}

#[test]
fn save_parallel_to_stable_rejects_empty_map() {
    let mut up = Uploader::new();
    let mut store = StableStore::new();
    let key = String::from("weights");
    assert_eq!(up.save_parallel_to_stable(&mut store, &key), Err(StorageError::EmptyUpload));
    assert_eq!(store.entry_count(), 0);
}

#[test]
fn load_from_stable_replaces_buffer() {
    let mut up = Uploader::new();
    let mut store = StableStore::new();
    let key = String::from("blob");
    store.save_bytes_to_stable(&key, vec![7, 8]);
    up.append_chunk(vec![1]);
    assert_eq!(up.load_from_stable(&store, &key), Ok(()));
    assert_eq!(up.get_data(), vec![7, 8]);
    let missing = String::from("missing");
    assert_eq!(up.load_from_stable(&store, &missing), Err(StorageError::KeyNotFound));
}

#[test]
fn zero_length_chunk_among_others_is_kept() {
    let mut up = Uploader::new();
    up.append_parallel_chunk(0, Vec::new());
    up.append_parallel_chunk(1, b"abc".to_vec());
    assert_eq!(up.consolidate_parallel_chunks(), Ok(3));
    assert_eq!(up.get_data(), b"abc".to_vec());
}

#[test]
fn single_zero_length_chunk_consolidates_to_empty() {
    let mut up = Uploader::new();
    let mut store = StableStore::new();
    up.append_parallel_chunk(0, Vec::new());
    assert_eq!(up.consolidate_parallel_chunks(), Ok(0));
    assert_eq!(up.buffer_size(), 0);
    let key = String::from("empty");
    assert_eq!(up.save_to_stable(&mut store, &key), Err(StorageError::EmptyBuffer));
}

#[test]
fn storage_status_reports_counts() {
    let mut up = Uploader::new();
    let mut store = StableStore::new();
    up.append_chunk(vec![1, 2, 3]);
    up.append_parallel_chunk(2, vec![9, 9]);
    up.append_parallel_chunk(0, vec![8]);
    let key = String::from("weights");
    store.save_bytes_to_stable(&key, vec![1, 2, 3, 4]);
    let status = up.storage_status(&store);
    assert_eq!(
        status,
        "Buffer: 3 bytes\nParallel chunks: 2 chunks, 3 bytes total\n\
         Chunk IDs: [0, 2]\nStable storage: [weights: 4 bytes]"
    );
}

#[test]
fn decimal_rendering_is_exact() {
    assert_eq!(u64_to_string(0), "0");
    assert_eq!(u64_to_string(7), "7");
    assert_eq!(u64_to_string(10), "10");
    assert_eq!(u64_to_string(30_000_000_000), "30000000000");
    assert_eq!(u64_to_string(u64::MAX), "18446744073709551615");
}
