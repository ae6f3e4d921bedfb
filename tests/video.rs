use knapsack::content::content_id;
use knapsack::error::KnapError;
use knapsack::video::{split_chunks, VideoProcessor, DEFAULT_CHUNK_SIZE};
use sha2::{Digest, Sha256};

fn sample(n: usize) -> Vec<u8> {
    (0..n).map(|i| (i * 31 % 251) as u8).collect()
}

#[test]
fn content_id_of_abc_is_its_sha256_hex() {
    assert_eq!(
        content_id(b"abc"),
        "ba7816bf8f01cfea414140de5dae2223b00361a396177a9cb410ff61f20015ad"
    );
}

#[test]
fn ten_megabytes_at_four_make_three_chunks() {
    let mb = 1024 * 1024;
    let data = sample(10 * mb);
    let m = VideoProcessor::chunk_and_hash(&data, 4 * mb).unwrap();
    assert_eq!(m.chunks.len(), 3);
    let sizes: Vec<usize> = m.chunks.iter().map(|c| c.size).collect();
    assert_eq!(sizes, vec![4 * mb, 4 * mb, 2 * mb]);
    let mut concat = Vec::new();
    for (i, piece) in data.chunks(4 * mb).enumerate() {
        let d = Sha256::digest(piece);
        assert_eq!(m.chunks[i].hash, hex::encode(d));
        assert_eq!(m.chunks[i].order, i);
        concat.extend_from_slice(&d);
    }
    assert_eq!(m.hash, hex::encode(Sha256::digest(&concat)));
    assert_ne!(m.hash, hex::encode(Sha256::digest(&data)));
}

#[test]
fn empty_input_is_rejected() {
    let r = VideoProcessor::chunk_and_hash(&Vec::new(), 16);
    assert_eq!(r.unwrap_err(), KnapError::EmptyInput);
    assert_eq!(VideoProcessor::prepare_video(&Vec::new()).unwrap_err(), KnapError::EmptyInput);
}

#[test]
fn chunking_twice_gives_the_same_identifiers() {
    let data = sample(1000);
    let a = VideoProcessor::chunk_and_hash(&data, 64).unwrap();
    let b = VideoProcessor::chunk_and_hash(&data, 64).unwrap();
    assert_eq!(a.hash, b.hash);
    let ia: Vec<String> = a.chunks.iter().map(|c| c.hash.clone()).collect();
    let ib: Vec<String> = b.chunks.iter().map(|c| c.hash.clone()).collect();
    assert_eq!(ia, ib);
}

#[test]
fn chunks_put_together_give_the_input() {
    for (n, s) in [(1usize, 1usize), (7, 3), (9, 3), (100, 1000), (1000, 64)] {
        let data = sample(n);
        let parts = split_chunks(&data, s);
        let joined: Vec<u8> = parts.concat();
        assert_eq!(joined, data);
        assert_eq!(parts.len(), (n + s - 1) / s);
    }
}

#[test]
fn positions_are_dense_from_zero() {
    let data = sample(500);
    let m = VideoProcessor::chunk_and_hash(&data, 33).unwrap();
    let mut orders: Vec<usize> = m.chunks.iter().map(|c| c.order).collect();
    orders.sort();
    assert_eq!(orders, (0..m.chunks.len()).collect::<Vec<usize>>());
}

#[test]
fn small_input_is_one_chunk_at_default_size() {
    let data = sample(10);
    let m = VideoProcessor::prepare_video(&data).unwrap();
    assert_eq!(m.chunks.len(), 1);
    assert_eq!(m.chunks[0].size, 10);
    assert_eq!(m.chunks[0].hash, content_id(&data));
    assert_eq!(m.duration_ms, 0);
    assert!(DEFAULT_CHUNK_SIZE >= 1024 * 1024);
}

#[test]
fn exact_chunk_size_multiple_has_full_last_chunk() {
    let data = sample(12);
    let m = VideoProcessor::chunk_and_hash(&data, 4).unwrap();
    let sizes: Vec<usize> = m.chunks.iter().map(|c| c.size).collect();
    assert_eq!(sizes, vec![4, 4, 4]);
}

#[test]
fn error_kinds_are_told_apart() {
    assert!(KnapError::HashMismatch.is_integrity_failure());
    assert!(KnapError::IntegrityViolation.is_integrity_failure());
    assert!(!KnapError::NotFound.is_integrity_failure());
    assert!(!KnapError::Unreachable.is_integrity_failure());
    assert_eq!(KnapError::DanglingReference.kind_name(), "DanglingReference");
}

#[test]
fn chunked_metadata_is_valid_and_tampering_is_caught() {
    let data = sample(300);
    let m = VideoProcessor::chunk_and_hash(&data, 64).unwrap();
    assert!(m.validate());

    let mut bad_id = m.clone();
    bad_id.hash = content_id(&data);
    assert!(!bad_id.validate());

    let mut bad_order = m.clone();
    bad_order.chunks[1].order = 7;
    assert!(!bad_order.validate());

    let mut upper = m.clone();
    upper.chunks[0].hash = upper.chunks[0].hash.to_uppercase();
    assert!(!upper.validate());

    let mut short = m.clone();
    short.chunks[0].hash = "abcd".to_string();
    assert!(!short.validate());

    let mut not_hex = m.clone();
    not_hex.chunks[0].hash = "zz".repeat(32);
    assert!(!not_hex.validate());
}

#[test]
fn identifiers_are_sixty_four_lowercase_hex_digits() {
    let data = sample(200);
    let m = VideoProcessor::chunk_and_hash(&data, 50).unwrap();
    let is_id = |s: &str| s.len() == 64 && s.chars().all(|c| c.is_ascii_digit() || ('a'..='f').contains(&c));
    assert!(is_id(&m.hash));
    assert!(m.chunks.iter().all(|c| is_id(&c.hash)));
}

#[test]
fn every_error_kind_has_its_name() {
    let all = [
        (KnapError::EmptyInput, "EmptyInput"),
        (KnapError::DanglingReference, "DanglingReference"),
        (KnapError::HashMismatch, "HashMismatch"),
        (KnapError::NotFound, "NotFound"),
        (KnapError::IntegrityViolation, "IntegrityViolation"),
        (KnapError::TimedOut, "TimedOut"),
        (KnapError::Unreachable, "Unreachable"),
        (KnapError::OverlayUnavailable, "OverlayUnavailable"),
    ];
    for (e, name) in all {
        assert_eq!(e.kind_name(), name);
    }
}
