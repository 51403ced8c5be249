use storage_engine::chunker::{chunk_data, chunk_data_at, DEFAULT_CHUNK_SIZE};
use storage_engine::codec::{decode_metadata, encode_metadata};
use storage_engine::engine::StorageEngine;
use storage_engine::error::StorageError;
use storage_engine::hashing::{calculate_hash, calculate_hash_with_algorithm, HashAlgorithm};
use storage_engine::keys::{chunk_key_string, decimal_string, meta_key_string};

fn is_lower_hex(s: &str) -> bool {
    s.chars().all(|c| c.is_ascii_digit() || ('a'..='f').contains(&c))
}

fn stored_metadata(engine: &StorageEngine, digest: &str) -> storage_engine::chunker::FileMetadata {
    let bytes = engine.get_raw(&meta_key_string(digest)).expect("metadata present");
    match decode_metadata(&bytes) {
        Ok(m) => m,
        Err(e) => panic!("{}", e.message()),
    }
}

#[test]
fn test_storage_engine() {
    let mut engine = StorageEngine::new();
    let test_data = b"Hello, SVDB!";
    let hash = engine.store(test_data).unwrap();
    let retrieved = engine.retrieve(&hash).unwrap();
    assert_eq!(retrieved, test_data);
}

#[test]
fn test_calculate_hash() {
    let data = b"Hello, SVDB!";
    let hash = calculate_hash(data);
    assert!(!hash.is_empty());
    let hash2 = calculate_hash(data);
    assert_eq!(hash, hash2);
}

#[test]
fn test_calculate_hash_with_algorithm() {
    let data = b"Hello, SVDB!";
    let hash_blake3 = calculate_hash_with_algorithm(data, HashAlgorithm::Blake3);
    let hash_blake2b = calculate_hash_with_algorithm(data, HashAlgorithm::Blake2b);
    let hash_keccak = calculate_hash_with_algorithm(data, HashAlgorithm::Keccak256);
    assert!(!hash_blake3.is_empty());
    assert!(!hash_blake2b.is_empty());
    assert!(!hash_keccak.is_empty());
    assert_ne!(hash_blake3, hash_blake2b);
    assert_ne!(hash_blake3, hash_keccak);
    assert_ne!(hash_blake2b, hash_keccak);
}

#[test]
fn test_chunking() {
    let large_data = vec![0u8; 5 * 1024 * 1024];
    let chunk_size = 1024 * 1024;
    let chunked = chunk_data(&large_data, chunk_size, HashAlgorithm::Blake3);
    assert_eq!(chunked.chunks.len(), 5);
    assert_eq!(chunked.metadata.chunks.len(), 5);
}

#[test]
fn test_store_retrieve_chunked() {
    let mut engine = StorageEngine::new();
    let large_data = vec![1u8; 3 * 1024 * 1024];
    let chunk_size = 1024 * 1024;
    let hash = engine.store_with_options(&large_data, HashAlgorithm::Blake3, chunk_size).unwrap();
    let retrieved = engine.retrieve(&hash).unwrap();
    assert_eq!(retrieved, large_data);
}

#[test]
fn test_blake3_hash_calculation() {
    let data = b"Hello, SVDB!";
    let hash = calculate_hash_with_algorithm(data, HashAlgorithm::Blake3);
    assert_eq!(hash.len(), 64);
}

#[test]
fn test_blake2b_hash_calculation() {
    let data = b"Hello, SVDB!";
    let hash = calculate_hash_with_algorithm(data, HashAlgorithm::Blake2b);
    assert_eq!(hash.len(), 128);
}

#[test]
fn test_keccak256_hash_calculation() {
    let data = b"Hello, SVDB!";
    let hash = calculate_hash_with_algorithm(data, HashAlgorithm::Keccak256);
    assert_eq!(hash.len(), 64);
}

#[test]
fn test_file_chunking() {
    let data = vec![1u8; 5 * 1024 * 1024];
    let chunked = chunk_data(&data, 1024 * 1024, HashAlgorithm::Blake3);
    assert_eq!(chunked.chunks.len(), 5);
    for chunk in &chunked.chunks {
        assert_eq!(chunk.len(), 1024 * 1024);
    }
}

#[test]
fn test_uneven_chunking() {
    let data = vec![1u8; 3_500_000];
    let chunked = chunk_data(&data, 1024 * 1024, HashAlgorithm::Blake3);
    assert_eq!(chunked.chunks.len(), 4);
    for i in 0..3 {
        assert_eq!(chunked.chunks[i].len(), 1024 * 1024);
    }
    assert_eq!(chunked.chunks[3].len(), 3_500_000 - 3 * 1024 * 1024);
}

#[test]
fn test_store_and_retrieve_file() {
    let mut engine = StorageEngine::new();
    let test_data = b"This is test data".to_vec();
    let hash = engine.store(&test_data).unwrap();
    assert!(!hash.is_empty());
    let retrieved_data = engine.retrieve(&hash).unwrap();
    assert_eq!(retrieved_data, test_data);
}

#[test]
fn test_large_file_storage() {
    let mut engine = StorageEngine::new();
    let test_data = vec![42u8; 5 * 1024 * 1024];
    let hash = engine.store(&test_data).unwrap();
    assert!(!hash.is_empty());
    let retrieved_data = engine.retrieve(&hash).unwrap();
    assert_eq!(retrieved_data, test_data);
}

#[test]
fn test_retrieve_nonexistent_file() {
    let mut engine = StorageEngine::new();
    let result = engine.retrieve("nonexistent_hash");
    assert!(result.is_err());
}

#[test]
fn test_db_initialization() {
    let engine = StorageEngine::new();
    assert!(engine.get_raw("anything").is_none());
}

#[test]
fn simple_round_trip_every_algorithm() {
    for alg in [HashAlgorithm::Blake3, HashAlgorithm::Blake2b, HashAlgorithm::Keccak256] {
        let mut engine = StorageEngine::new();
        let data = b"round trip payload".to_vec();
        let d = engine.store_with_options(&data, alg, 0).unwrap();
        assert_eq!(engine.retrieve(&d).unwrap(), data);
        assert_eq!(engine.get_raw(&d).unwrap(), data);
    }
}

#[test]
fn empty_payload_round_trip() {
    let mut engine = StorageEngine::new();
    let d = engine.store(b"").unwrap();
    assert_eq!(d, "af1349b9f5f9a1a6a0404dea36dcc9499bcb25c9adc112b7cc9a93cae41f3262");
    assert_eq!(engine.retrieve(&d).unwrap(), Vec::<u8>::new());
}

#[test]
fn chunked_round_trip_reports_chunk_count() {
    let mut engine = StorageEngine::new();
    let data: Vec<u8> = (0..10_000u32).map(|i| (i % 251) as u8).collect();
    let d = engine.store_with_options(&data, HashAlgorithm::Keccak256, 3000).unwrap();
    let meta = stored_metadata(&engine, &d);
    assert_eq!(meta.chunks.len(), 4);
    assert_eq!(meta.chunk_size, 3000);
    assert_eq!(meta.size, 10_000);
    assert_eq!(meta.algorithm, "keccak256");
    assert_eq!(meta.hash, d);
    assert_eq!(engine.retrieve(&d).unwrap(), data);
}

#[test]
fn repeated_hash_is_identical() {
    let data = b"determinism";
    for alg in [HashAlgorithm::Blake3, HashAlgorithm::Blake2b, HashAlgorithm::Keccak256] {
        assert_eq!(calculate_hash_with_algorithm(data, alg), calculate_hash_with_algorithm(data, alg));
    }
}

#[test]
fn known_digests_of_empty_input() {
    assert_eq!(
        calculate_hash_with_algorithm(b"", HashAlgorithm::Blake3),
        "af1349b9f5f9a1a6a0404dea36dcc9499bcb25c9adc112b7cc9a93cae41f3262"
    );
    assert_eq!(
        calculate_hash_with_algorithm(b"", HashAlgorithm::Keccak256),
        "c5d2460186f7233c927e7db2dcc703c0e500b653ca82273b7bfad8045d85a470"
    );
    assert_eq!(
        calculate_hash_with_algorithm(b"", HashAlgorithm::Blake2b),
        "786a02f742015903c6c6fd852552d272912f4740e15847618a86e217f71f5419d25e1031afee585313896444934eb04b903a685b1448b755d56f701afe9be2ce"
    );
}

#[test]
fn small_chunk_size_uses_default() {
    let mut engine = StorageEngine::new();
    let data = vec![7u8; 5000];
    let d = engine.store_with_options(&data, HashAlgorithm::Blake3, 100).unwrap();
    let meta = stored_metadata(&engine, &d);
    assert_eq!(meta.chunk_size, DEFAULT_CHUNK_SIZE);
    assert_eq!(meta.chunks.len(), 1);
    assert_eq!(engine.retrieve(&d).unwrap(), data);
}

#[test]
fn missing_chunk_fails_retrieval() {
    let mut engine = StorageEngine::new();
    let data = vec![3u8; 5000];
    let d = engine.store_with_options(&data, HashAlgorithm::Blake2b, 1024).unwrap();
    engine.delete_raw(&chunk_key_string(&d, 2));
    match engine.retrieve(&d) {
        Err(StorageError::ChunkingError(msg)) => assert_eq!(msg, "Chunk 2 not found"),
        _ => panic!("expected a chunking error"),
    }
}

#[test]
fn unknown_digest_is_not_found() {
    let mut engine = StorageEngine::new();
    match engine.retrieve("not-a-real-digest") {
        Err(StorageError::HashNotFound(h)) => assert_eq!(h, "not-a-real-digest"),
        _ => panic!("expected hash not found"),
    }
}

#[test]
fn hello_scenario() {
    let mut engine = StorageEngine::new();
    let d = engine.store_with_options(b"Hello, SVDB!", HashAlgorithm::Blake3, 0).unwrap();
    assert_eq!(d.len(), 64);
    assert!(is_lower_hex(&d));
    assert_eq!(engine.retrieve(&d).unwrap(), b"Hello, SVDB!".to_vec());
}

#[test]
fn five_mebibytes_of_zeros() {
    let mut engine = StorageEngine::new();
    let data = vec![0u8; 5 * 1024 * 1024];
    let d = engine.store_with_options(&data, HashAlgorithm::Blake3, 1024 * 1024).unwrap();
    let meta = stored_metadata(&engine, &d);
    assert_eq!(meta.chunks.len(), 5);
    assert_eq!(engine.retrieve(&d).unwrap(), data);
}

#[test]
fn three_and_a_half_million_ones() {
    let data = vec![1u8; 3_500_000];
    let chunked = chunk_data(&data, 1024 * 1024, HashAlgorithm::Blake3);
    assert_eq!(chunked.chunks.len(), 4);
    assert_eq!(chunked.chunks[0].len(), 1_048_576);
    assert_eq!(chunked.chunks[1].len(), 1_048_576);
    assert_eq!(chunked.chunks[2].len(), 1_048_576);
    assert_eq!(chunked.chunks[3].len(), 354_272);
    assert!(chunked.chunks.iter().flatten().all(|b| *b == 1));
}

#[test]
fn object_digest_hashes_the_joined_chunk_digests() {
    let data = vec![9u8; 2500];
    let chunked = chunk_data_at(&data, 1024, HashAlgorithm::Blake3, 77);
    let joined = chunked.metadata.chunks.join("|");
    assert_eq!(chunked.metadata.hash, calculate_hash(joined.as_bytes()));
    assert_eq!(chunked.metadata.chunks[0], calculate_hash(&data[..1024]));
    assert_eq!(chunked.metadata.chunks[2], calculate_hash(&data[2048..]));
    assert_eq!(chunked.metadata.timestamp, 77);
    assert_ne!(chunked.metadata.hash, calculate_hash(&data));
}

#[test]
fn empty_input_has_no_chunks() {
    let chunked = chunk_data_at(b"", 4096, HashAlgorithm::Blake3, 0);
    assert_eq!(chunked.chunks.len(), 0);
    assert_eq!(chunked.metadata.size, 0);
}

#[test]
fn metadata_codec_round_trip() {
    let chunked = chunk_data_at(&vec![5u8; 3000], 1024, HashAlgorithm::Blake2b, 1_700_000_000);
    let bytes = encode_metadata(&chunked.metadata);
    let back = decode_metadata(&bytes).ok().unwrap();
    assert_eq!(back.hash, chunked.metadata.hash);
    assert_eq!(back.algorithm, "blake2b");
    assert_eq!(back.size, 3000);
    assert_eq!(back.chunk_size, 1024);
    assert_eq!(back.chunks, chunked.metadata.chunks);
    assert_eq!(back.timestamp, 1_700_000_000);
}

#[test]
fn malformed_metadata_is_a_serialization_error() {
    let chunked = chunk_data_at(&vec![5u8; 3000], 1024, HashAlgorithm::Blake3, 1);
    let bytes = encode_metadata(&chunked.metadata);
    for cut in [0usize, 5, 40, bytes.len() - 1] {
        assert!(matches!(decode_metadata(&bytes[..cut]), Err(StorageError::SerializationError(_))));
    }
    let mut longer = bytes.clone();
    longer.push(0);
    assert!(matches!(decode_metadata(&longer), Err(StorageError::SerializationError(_))));
}

#[test]
fn corrupt_metadata_fails_retrieval() {
    let mut engine = StorageEngine::new();
    let d = engine.store_with_options(&vec![1u8; 4000], HashAlgorithm::Blake3, 2048).unwrap();
    engine.delete_raw(&meta_key_string(&d));
    assert!(matches!(engine.retrieve(&d), Err(StorageError::HashNotFound(_))));
}

#[test]
fn algorithm_tokens() {
    assert!(matches!(HashAlgorithm::from_str("BLAKE3"), Ok(HashAlgorithm::Blake3)));
    assert!(matches!(HashAlgorithm::from_str("blake2b"), Ok(HashAlgorithm::Blake2b)));
    assert!(matches!(HashAlgorithm::from_str("Keccak256"), Ok(HashAlgorithm::Keccak256)));
    match HashAlgorithm::from_str("sha1") {
        Err(StorageError::InvalidAlgorithm(t)) => assert_eq!(t, "sha1"),
        _ => panic!("expected an invalid algorithm"),
    }
    assert_eq!(HashAlgorithm::Blake3.as_str(), "blake3");
    assert_eq!(HashAlgorithm::Blake2b.as_str(), "blake2b");
    assert_eq!(HashAlgorithm::Keccak256.as_str(), "keccak256");
    assert_eq!(HashAlgorithm::default(), HashAlgorithm::Blake3);
}

#[test]
fn key_layout() {
    assert_eq!(decimal_string(0), "0");
    assert_eq!(decimal_string(1234), "1234");
    assert_eq!(meta_key_string("ab"), "meta:ab");
    assert_eq!(chunk_key_string("ab", 17), "chunk:ab:17");
}

#[test]
fn error_messages() {
    assert_eq!(StorageError::HashNotFound("x".to_string()).message(), "Hash not found: x");
    assert_eq!(StorageError::ChunkingError("Chunk 1 not found".to_string()).message(), "Chunking error: Chunk 1 not found");
}

#[test]
fn cache_answers_after_raw_entry_is_removed() {
    let mut engine = StorageEngine::new();
    let d = engine.store(b"cached").unwrap();
    engine.delete_raw(&d);
    assert_eq!(engine.retrieve(&d).unwrap(), b"cached".to_vec());
}

#[test]
fn corrupted_chunk_fails_retrieval() {
    let mut engine = StorageEngine::new();
    let data = vec![3u8; 5000];
    let d = engine.store_with_options(&data, HashAlgorithm::Keccak256, 1024).unwrap();
    engine.put_raw(&chunk_key_string(&d, 3), &vec![4u8; 1024]);
    match engine.retrieve(&d) {
        Err(StorageError::ChunkingError(msg)) => assert_eq!(msg, "Chunk 3 does not match its digest"),
        _ => panic!("expected a chunking error"),
    }
}

#[test]
fn rewritten_identical_chunk_still_retrieves() {
    let mut engine = StorageEngine::new();
    let data: Vec<u8> = (0..5000u32).map(|i| (i % 7) as u8).collect();
    let d = engine.store_with_options(&data, HashAlgorithm::Blake3, 1024).unwrap();
    engine.put_raw(&chunk_key_string(&d, 1), &data[1024..2048]);
    assert_eq!(engine.retrieve(&d).unwrap(), data);
}

#[test]
fn metadata_with_unknown_algorithm_is_a_serialization_error() {
    let mut engine = StorageEngine::new();
    let data = vec![1u8; 3000];
    let d = engine.store_with_options(&data, HashAlgorithm::Blake3, 1024).unwrap();
    let mut meta = stored_metadata(&engine, &d);
    meta.algorithm = "md5".to_string();
    engine.put_raw(&meta_key_string(&d), &encode_metadata(&meta));
    assert!(matches!(engine.retrieve(&d), Err(StorageError::SerializationError(_))));
}

#[test]
fn exact_tokens() {
    assert_eq!(HashAlgorithm::from_token("blake3"), Some(HashAlgorithm::Blake3));
    assert_eq!(HashAlgorithm::from_token("blake2b"), Some(HashAlgorithm::Blake2b));
    assert_eq!(HashAlgorithm::from_token("keccak256"), Some(HashAlgorithm::Keccak256));
    assert_eq!(HashAlgorithm::from_token("BLAKE3"), None);
    assert_eq!(HashAlgorithm::from_token(""), None);
}

#[test]
fn undecodable_metadata_fails_retrieval() {
    let mut engine = StorageEngine::new();
    let d = engine.store_with_options(&vec![1u8; 4000], HashAlgorithm::Blake3, 2048).unwrap();
    engine.put_raw(&meta_key_string(&d), b"not a metadata record");
    assert!(matches!(engine.retrieve(&d), Err(StorageError::SerializationError(_))));
}

#[test]
fn blake2b_chunked_round_trip() {
    let mut engine = StorageEngine::new();
    let data: Vec<u8> = (0..6000u32).map(|i| (i % 13) as u8).collect();
    let d = engine.store_with_options(&data, HashAlgorithm::Blake2b, 2000).unwrap();
    assert_eq!(d.len(), 128);
    let meta = stored_metadata(&engine, &d);
    assert_eq!(meta.chunks.len(), 3);
    assert!(meta.chunks.iter().all(|c| c.len() == 128));
    assert_eq!(engine.retrieve(&d).unwrap(), data);
}
