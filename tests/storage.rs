use knapsack::content::content_id;
use knapsack::error::KnapError;
use knapsack::storage::Storage;
use knapsack::video::{split_chunks, VideoMetadata, VideoProcessor};

fn video(title: &str, seed: u8) -> (VideoMetadata, Vec<Vec<u8>>) {
    let data: Vec<u8> = (0..100u32).map(|i| (i as u8).wrapping_mul(seed)).collect();
    let mut m = VideoProcessor::chunk_and_hash(&data, 40).unwrap();
    m.title = title.to_string();
    (m, split_chunks(&data, 40))
}

#[test]
fn chunk_of_unknown_video_is_a_dangling_reference() {
    let mut s = Storage::new();
    let payload = b"payload".to_vec();
    let id = content_id(&payload);
    let r = s.store_chunk(&id, &"00".repeat(32), &payload);
    assert_eq!(r, Err(KnapError::DanglingReference));
    assert_eq!(s.get_chunk(&id), Err(KnapError::NotFound));
}

#[test]
fn payload_under_wrong_identifier_is_a_hash_mismatch() {
    let mut s = Storage::new();
    let (m, parts) = video("a", 3);
    s.store_video(m.clone());
    let wrong = content_id(&parts[1]);
    assert_eq!(s.store_chunk(&wrong, &m.hash, &parts[0]), Err(KnapError::HashMismatch));
    assert_eq!(s.get_chunk(&wrong), Err(KnapError::NotFound));
    assert!(!s.has_chunk(&wrong));
}

#[test]
fn storing_video_twice_is_like_once() {
    let mut s = Storage::new();
    let (m, _) = video("twice", 5);
    s.store_video(m.clone());
    s.store_video(m.clone());
    let got = s.get_video(&m.hash).unwrap();
    assert_eq!(got.hash, m.hash);
    assert_eq!(got.title, "twice");
    assert_eq!(s.search(&"twice".to_string()).len(), 1);
}

#[test]
fn replacing_video_metadata_keeps_one_entry() {
    let mut s = Storage::new();
    let (mut m, _) = video("first", 5);
    s.store_video(m.clone());
    m.title = "second".to_string();
    s.store_video(m.clone());
    assert_eq!(s.get_video(&m.hash).unwrap().title, "second");
    assert_eq!(s.search(&String::new()).len(), 1);
}

#[test]
fn chunks_complete_a_video() {
    let mut s = Storage::new();
    let (m, parts) = video("full", 7);
    assert!(!s.has_all_chunks(&m.hash));
    s.store_video(m.clone());
    assert!(!s.has_all_chunks(&m.hash));
    for (c, p) in m.chunks.iter().zip(parts.iter()) {
        assert_eq!(s.store_chunk(&c.hash, &m.hash, p), Ok(()));
    }
    assert!(s.has_all_chunks(&m.hash));
    assert_eq!(s.get_chunk(&m.chunks[2].hash).unwrap(), parts[2]);
}

#[test]
fn storing_same_chunk_again_is_fine() {
    let mut s = Storage::new();
    let (m, parts) = video("again", 9);
    s.store_video(m.clone());
    assert_eq!(s.store_chunk(&m.chunks[0].hash, &m.hash, &parts[0]), Ok(()));
    assert_eq!(s.store_chunk(&m.chunks[0].hash, &m.hash, &parts[0]), Ok(()));
    assert_eq!(s.get_chunk(&m.chunks[0].hash).unwrap(), parts[0]);
}

#[test]
fn missing_video_is_not_found() {
    let s = Storage::new();
    assert_eq!(s.get_video(&"ab".to_string()).unwrap_err(), KnapError::NotFound);
}

#[test]
fn search_matches_title_substrings() {
    let mut s = Storage::new();
    s.store_video(video("all about foo", 2).0);
    s.store_video(video("bar", 3).0);
    s.store_video(video("foobar", 4).0);
    let r = s.search(&"foo".to_string());
    let titles: Vec<String> = r.iter().map(|m| m.title.clone()).collect();
    assert_eq!(titles, vec!["all about foo".to_string(), "foobar".to_string()]);
    assert!(s.search(&"baz".to_string()).is_empty());
}

#[test]
fn prepared_video_is_stored_whole() {
    let mut s = Storage::new();
    let (m, parts) = video("prepared", 11);
    assert_eq!(s.store_prepared(m.clone(), &parts), Ok(()));
    assert!(s.has_all_chunks(&m.hash));
    assert_eq!(s.get_chunk(&m.chunks[1].hash).unwrap(), parts[1]);
    assert_eq!(s.get_video(&m.hash).unwrap().title, "prepared");
}

#[test]
fn prepared_video_with_wrong_payload_stops_with_mismatch() {
    let mut s = Storage::new();
    let (m, mut parts) = video("broken", 13);
    parts.swap(1, 2);
    assert_eq!(s.store_prepared(m.clone(), &parts), Err(KnapError::HashMismatch));
    assert!(s.has_chunk(&m.chunks[0].hash));
    assert!(!s.has_chunk(&m.chunks[1].hash));
    assert!(!s.has_all_chunks(&m.hash));
    assert!(s.get_video(&m.hash).is_ok());
}
