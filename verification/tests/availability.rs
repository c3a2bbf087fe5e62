use archimedes::erasure::{EncodedShard, ErasureDecoder, ErasureEncoder, ErasureError};
use archimedes::sampling::{shard_of_digest, AvailabilitySampler, SampleProof};
use archimedes::storage::{ContentAddressedStorage, ContentId, StorageError};
use sha2::{Digest, Sha256};

fn sha(data: &[u8]) -> [u8; 32] {
    Sha256::digest(data).into()
}

#[test]
fn test_encode_decode() {
    let encoder = ErasureEncoder::new(4, 2);
    let decoder = ErasureDecoder::new(4, 2);

    let data = b"hello world, this is erasure coding test data".to_vec();
    let shards = encoder.encode(&data).unwrap();

    assert_eq!(shards.len(), 6);

    let recovered = decoder.decode(&shards, data.len()).unwrap();
    assert_eq!(recovered, data);
}

#[test]
fn test_partial_reconstruction() {
    let encoder = ErasureEncoder::new(4, 2);
    let decoder = ErasureDecoder::new(4, 2);

    let data = b"test data for partial recovery".to_vec();
    let shards = encoder.encode(&data).unwrap();

    let partial: Vec<_> = shards.into_iter().filter(|s| !s.is_parity).collect();

    let recovered = decoder.decode(&partial, data.len()).unwrap();
    assert_eq!(recovered, data);
}

#[test]
fn test_sample_generation() {
    let sampler = AvailabilitySampler::new(5, 16);
    let indices = sampler.generate_sample_indices(b"test_seed");

    assert_eq!(indices.len(), 5);
    for idx in &indices {
        assert!(*idx < 16);
    }
}

#[test]
fn test_create_proof() {
    let encoder = ErasureEncoder::new(4, 2);
    let shards = encoder.encode(b"test data").unwrap();

    let proof = AvailabilitySampler::create_proof(&shards[0], &shards);
    assert_eq!(proof.shard_index, 0);
    assert!(!proof.merkle_path.is_empty());
}

#[test]
fn test_store_and_retrieve() {
    let mut storage = ContentAddressedStorage::new(1024 * 1024);
    let data = b"hello world".to_vec();

    let id = storage.store(data.clone(), 100).unwrap();
    let retrieved = storage.retrieve(&id).unwrap();

    assert_eq!(retrieved, data.as_slice());
}

#[test]
fn test_content_addressing() {
    let mut storage = ContentAddressedStorage::new(1024 * 1024);
    let data = b"same content".to_vec();

    let id1 = storage.store(data.clone(), 100).unwrap();
    let id2 = storage.store(data.clone(), 200).unwrap();

    assert_eq!(id1, id2);
}

#[test]
fn test_storage_limit() {
    let mut storage = ContentAddressedStorage::new(10);
    let data = b"too much data".to_vec();

    let result = storage.store(data, 100);
    assert!(matches!(result, Err(StorageError::StorageFull)));
}

#[test]
fn content_id_is_the_digest() {
    let id = ContentId::from_data(b"abc");
    assert_eq!(id.0, sha(b"abc"));
    assert_eq!(id, ContentId::from_data(b"abc"));
    assert_ne!(id, ContentId::from_data(b"abd"));
    assert_eq!(
        id.to_hex(),
        "ba7816bf8f01cfea414140de5dae2223b00361a396177a9cb410ff61f20015ad"
    );
    assert_eq!(ContentId([0x0f; 32]).to_hex(), "0f".repeat(32));
}

#[test]
fn references_are_counted() {
    let mut storage = ContentAddressedStorage::new(100);
    let a = storage.store(b"aaaa".to_vec(), 1).unwrap();
    let b = storage.store(b"bbbbbb".to_vec(), 2).unwrap();
    assert_eq!(storage.size(), 10);
    assert_eq!(storage.store(b"aaaa".to_vec(), 3).unwrap(), a);
    assert_eq!(storage.size(), 10);
    assert!(storage.contains(&a));
    storage.remove(&a).unwrap();
    assert!(storage.contains(&a));
    assert_eq!(storage.size(), 10);
    storage.remove(&a).unwrap();
    assert!(!storage.contains(&a));
    assert_eq!(storage.size(), 6);
    assert!(storage.contains(&b));
    assert_eq!(storage.retrieve(&b).unwrap(), b"bbbbbb");
    storage.remove(&a).unwrap();
    assert_eq!(storage.size(), 6);
    match storage.retrieve(&a) {
        Err(StorageError::NotFound(text)) => assert_eq!(text, a.to_hex()),
        _ => panic!("a removed blob must not be found"),
    }
}

#[test]
fn storage_never_exceeds_its_limit() {
    let mut storage = ContentAddressedStorage::new(10);
    storage.store(b"12345".to_vec(), 0).unwrap();
    storage.store(b"abcde".to_vec(), 0).unwrap();
    assert_eq!(storage.size(), 10);
    assert!(matches!(storage.store(b"x".to_vec(), 0), Err(StorageError::StorageFull)));
    // a blob that is stored already is refused too once it no longer fits
    assert!(matches!(storage.store(b"12345".to_vec(), 0), Err(StorageError::StorageFull)));
    assert_eq!(storage.size(), 10);
    assert!(storage.store(Vec::new(), 0).is_ok());
    assert_eq!(storage.size(), 10);
}

#[test]
fn shards_follow_the_layout() {
    let encoder = ErasureEncoder::new(3, 2);
    assert_eq!(encoder.total_shards(), 5);
    let data = [1u8, 2, 3, 4, 5, 6, 7];
    let shards = encoder.encode(&data).unwrap();
    assert_eq!(shards.len(), 5);
    assert_eq!(shards[0].data, vec![1, 2, 3]);
    assert_eq!(shards[1].data, vec![4, 5, 6]);
    assert_eq!(shards[2].data, vec![7, 0, 0]);
    assert_eq!(shards[3].data, vec![(1 ^ 4 ^ 7) + 1, (2 ^ 5) + 1, (3 ^ 6) + 1]);
    assert_eq!(shards[4].data, vec![(1 ^ 4 ^ 7) + 2, (2 ^ 5) + 2, (3 ^ 6) + 2]);
    for (i, shard) in shards.iter().enumerate() {
        assert_eq!(shard.index, i);
        assert_eq!(shard.is_parity, i >= 3);
    }
    let wrapped = ErasureEncoder::new(1, 1).encode(&[0xff]).unwrap();
    assert_eq!(wrapped[1].data, vec![0]);
    let empty = ErasureEncoder::new(2, 1).encode(&[]).unwrap();
    assert_eq!(empty.len(), 3);
    assert!(empty.iter().all(|s| s.data.is_empty()));
}

#[test]
fn decode_orders_data_shards_by_index() {
    let encoder = ErasureEncoder::new(4, 2);
    let decoder = ErasureDecoder::new(4, 2);
    let data = b"0123456789abcdef".to_vec();
    let mut shards = encoder.encode(&data).unwrap();
    shards.reverse();
    assert!(decoder.can_reconstruct(&shards));
    assert_eq!(decoder.decode(&shards, data.len()).unwrap(), data);
    assert_eq!(decoder.decode(&shards, 5).unwrap(), b"01234".to_vec());
    assert_eq!(decoder.decode(&shards, 100).unwrap(), data);
    let few: Vec<EncodedShard> = shards.iter().take(3).cloned().collect();
    assert!(!decoder.can_reconstruct(&few));
    assert_eq!(
        decoder.decode(&few, data.len()),
        Err(ErasureError::InsufficientShards { have: 3, need: 4 })
    );
    // four shards of any kind are taken, though only two of them hold data
    let mixed: Vec<EncodedShard> = shards.iter().take(4).cloned().collect();
    assert!(decoder.can_reconstruct(&mixed));
    assert_eq!(decoder.decode(&mixed, data.len()).unwrap(), b"89abcdef".to_vec());
}

#[test]
fn sample_indices_follow_the_hash_chain() {
    let sampler = AvailabilitySampler::new(4, 10);
    let indices = sampler.generate_sample_indices(b"seed");
    let mut expected: Vec<usize> = Vec::new();
    let mut current = sha(b"seed");
    while expected.len() < 4 {
        let idx = u32::from_be_bytes([current[0], current[1], current[2], current[3]]) as usize % 10;
        if !expected.contains(&idx) {
            expected.push(idx);
        }
        current = sha(&current);
    }
    assert_eq!(indices, expected);
    assert_eq!(sampler.generate_sample_indices(b"seed"), expected);
    assert!(AvailabilitySampler::new(0, 10).generate_sample_indices(b"seed").is_empty());
    let all = AvailabilitySampler::new(3, 3).generate_sample_indices(b"x");
    let mut sorted = all.clone();
    sorted.sort();
    assert_eq!(sorted, vec![0, 1, 2]);
}

#[test]
fn sample_proofs_over_four_shards_verify() {
    let encoder = ErasureEncoder::new(3, 1);
    let shards = encoder.encode(b"some data to shard").unwrap();
    let hashes: Vec<[u8; 32]> = shards.iter().map(|s| sha(&s.data)).collect();
    let pair = |a: &[u8; 32], b: &[u8; 32]| {
        let mut both = a.to_vec();
        both.extend_from_slice(b);
        sha(&both)
    };
    let root = ContentId(pair(&pair(&hashes[0], &hashes[1]), &pair(&hashes[2], &hashes[3])));
    let sampler = AvailabilitySampler::new(2, 4);
    for shard in &shards {
        let proof = AvailabilitySampler::create_proof(shard, &shards);
        assert_eq!(proof.shard_hash, hashes[shard.index]);
        assert_eq!(proof.merkle_path.len(), 2);
        assert_eq!(
            proof.merkle_path,
            AvailabilitySampler::build_merkle_path(shard.index, &shards)
        );
        assert!(sampler.verify_proof(&proof, &root).unwrap());
        let mut wrong = proof.clone();
        wrong.shard_index ^= 1;
        assert!(!sampler.verify_proof(&wrong, &root).unwrap());
    }
    let bare = SampleProof { shard_index: 0, shard_hash: hashes[0], merkle_path: Vec::new() };
    assert!(sampler.verify_proof(&bare, &ContentId(hashes[0])).unwrap());
    assert!(!sampler.verify_proof(&bare, &root).unwrap());
}

#[test]
fn digests_point_at_shards() {
    let mut digest = [0u8; 32];
    digest[0] = 0x01;
    digest[1] = 0x02;
    digest[2] = 0x03;
    digest[3] = 0x04;
    digest[4] = 0xff;
    assert_eq!(shard_of_digest(&digest, 1000), 0x0102_0304 % 1000);
    assert_eq!(shard_of_digest(&digest, 1), 0);
    assert_eq!(shard_of_digest(&[0xff; 32], 7), (u32::MAX % 7) as usize);
    assert_eq!(shard_of_digest(&[0u8; 32], 16), 0);
}
