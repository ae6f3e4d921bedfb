use knapsack::discovery::distinct_providers;
use knapsack::error::KnapError;
use knapsack::network::{handle_request, Exchange, KnapRequest, KnapResponse, PeerHandle};
use knapsack::session::{accept_metadata, locate_finished, merge_search_results, AcquireSession, SessionStatus, SlotState};
use knapsack::storage::Storage;
use knapsack::video::{split_chunks, VideoMetadata, VideoProcessor};

fn seeded_peer(title: &str, n: usize) -> (Storage, VideoMetadata) {
    let data: Vec<u8> = (0..n).map(|i| (i * 7 % 256) as u8).collect();
    let mut m = VideoProcessor::chunk_and_hash(&data, 16).unwrap();
    m.title = title.to_string();
    let parts = split_chunks(&data, 16);
    let mut s = Storage::new();
    s.store_video(m.clone());
    for (c, p) in m.chunks.iter().zip(parts.iter()) {
        s.store_chunk(&c.hash, &m.hash, p).unwrap();
    }
    (s, m)
}

/// Fetches the metadata of `video_hash` from `peer` into `local`.
fn fetch_metadata(local: &mut Storage, peer: &Storage, video_hash: &str) -> VideoMetadata {
    let req = KnapRequest::Metadata(video_hash.to_string());
    let mut e = Exchange::new(0, KnapRequest::Metadata(video_hash.to_string()), 0, 10);
    match e.receive(handle_request(peer, &req), 1).unwrap() {
        KnapResponse::Metadata(m) => {
            accept_metadata(local, &video_hash.to_string(), m.clone()).unwrap();
            m
        }
        _ => panic!("no metadata"),
    }
}

/// Runs one fetch of chunk `slot` from `peer`, answered from `source` or timing out.
fn run_fetch(s: &mut AcquireSession, local: &mut Storage, slot: usize, source: Option<&Storage>) {
    let hash = s.chunk_hashes[slot].clone();
    let mut e = Exchange::new(0, KnapRequest::Chunk(hash.clone()), 0, 10);
    let outcome = match source {
        Some(peer) => e.receive(handle_request(peer, &KnapRequest::Chunk(hash.clone())), 5),
        None => {
            e.tick(11);
            Err(KnapError::TimedOut)
        }
    };
    match outcome {
        Ok(KnapResponse::Chunk(d)) => {
            local.store_chunk(&hash, &s.video_hash, &d).unwrap();
            s.on_delivered(slot);
        }
        _ => s.on_failed(slot),
    }
}

#[test]
fn acquire_copies_every_chunk_from_a_peer() {
    let (a, v) = seeded_peer("clip", 100);
    let mut b = Storage::new();
    let m = fetch_metadata(&mut b, &a, &v.hash);
    assert_eq!(m.hash, v.hash);
    let mut s = AcquireSession::new(&m, &b, 2, 3);
    let peer_a: PeerHandle = 1;
    loop {
        let mut launched = Vec::new();
        for slot in s.missing() {
            if let Some(p) = s.next_fetch(slot, &vec![peer_a]) {
                assert_eq!(p, peer_a);
                launched.push(slot);
            }
        }
        assert!(launched.len() <= 2);
        for slot in launched {
            run_fetch(&mut s, &mut b, slot, Some(&a));
        }
        match s.end_round(&b).unwrap() {
            SessionStatus::Complete => break,
            SessionStatus::Running => {}
            SessionStatus::Cancelled => panic!("not cancelled"),
        }
    }
    assert!(b.has_all_chunks(&v.hash));
    for c in &v.chunks {
        assert_eq!(b.get_chunk(&c.hash).unwrap(), a.get_chunk(&c.hash).unwrap());
    }
}

#[test]
fn timed_out_chunk_is_fetched_from_another_provider() {
    let (a, v) = seeded_peer("clip", 40);
    let c_store = {
        let (c, _) = seeded_peer("clip", 40);
        c
    };
    let mut b = Storage::new();
    let m = fetch_metadata(&mut b, &a, &v.hash);
    let mut s = AcquireSession::new(&m, &b, 8, 3);
    let (peer_a, peer_c): (PeerHandle, PeerHandle) = (1, 2);
    let providers = vec![peer_a, peer_c];
    // every chunk is first asked of A; A dies while sending chunk 1
    for slot in s.missing() {
        assert_eq!(s.next_fetch(slot, &providers), Some(peer_a));
    }
    run_fetch(&mut s, &mut b, 0, Some(&a));
    run_fetch(&mut s, &mut b, 1, None);
    run_fetch(&mut s, &mut b, 2, Some(&a));
    assert_eq!(s.states[1], SlotState::Missing);
    assert_eq!(s.next_fetch(1, &providers), Some(peer_c));
    run_fetch(&mut s, &mut b, 1, Some(&c_store));
    assert_eq!(s.end_round(&b), Ok(SessionStatus::Complete));
    assert!(b.has_all_chunks(&v.hash));
}

#[test]
fn rounds_without_progress_end_unreachable() {
    let (a, v) = seeded_peer("clip", 20);
    let mut b = Storage::new();
    let m = fetch_metadata(&mut b, &a, &v.hash);
    let mut s = AcquireSession::new(&m, &b, 4, 2);
    assert_eq!(s.next_fetch(0, &vec![]), None);
    assert_eq!(s.end_round(&b), Ok(SessionStatus::Running));
    assert_eq!(s.idle_rounds, 1);
    assert_eq!(s.next_fetch(0, &vec![5]), Some(5));
    s.on_failed(0);
    assert_eq!(s.next_fetch(0, &vec![5]), None);
    assert_eq!(s.end_round(&b), Err(KnapError::Unreachable));
}

#[test]
fn fan_out_bounds_fetches_in_flight() {
    let (a, v) = seeded_peer("clip", 100);
    let mut b = Storage::new();
    let m = fetch_metadata(&mut b, &a, &v.hash);
    let mut s = AcquireSession::new(&m, &b, 2, 3);
    assert_eq!(s.next_fetch(0, &vec![1]), Some(1));
    assert_eq!(s.next_fetch(1, &vec![1]), Some(1));
    assert_eq!(s.next_fetch(2, &vec![1]), None);
    assert_eq!(s.in_flight(), 2);
    assert_eq!(s.next_fetch(0, &vec![1]), None);
}

#[test]
fn cancelled_session_issues_nothing_new() {
    let (a, v) = seeded_peer("clip", 40);
    let mut b = Storage::new();
    let m = fetch_metadata(&mut b, &a, &v.hash);
    let mut s = AcquireSession::new(&m, &b, 4, 3);
    assert_eq!(s.next_fetch(0, &vec![1]), Some(1));
    s.cancel();
    assert_eq!(s.next_fetch(1, &vec![1]), None);
    run_fetch(&mut s, &mut b, 0, Some(&a));
    assert_eq!(s.states[0], SlotState::Done);
    assert_eq!(s.end_round(&b), Ok(SessionStatus::Cancelled));
}

#[test]
fn stored_chunks_start_done() {
    let (a, v) = seeded_peer("clip", 40);
    let mut b = Storage::new();
    b.store_video(v.clone());
    let first = a.get_chunk(&v.chunks[0].hash).unwrap();
    b.store_chunk(&v.chunks[0].hash, &v.hash, &first).unwrap();
    let s = AcquireSession::new(&v, &b, 4, 3);
    assert_eq!(s.states[0], SlotState::Done);
    assert_eq!(s.missing(), vec![1, 2]);
    assert!(!s.is_complete());
}

#[test]
fn locate_returns_the_one_matching_video() {
    let (peer_one, _) = seeded_peer("cats", 30);
    let (peer_two, foo) = seeded_peer("the foo show", 50);
    let (peer_three, _) = seeded_peer("dogs", 70);
    let mut responses = Vec::new();
    for peer in [&peer_one, &peer_two, &peer_three] {
        match handle_request(peer, &KnapRequest::Search("foo".to_string())) {
            KnapResponse::SearchResults(v) => responses.push(v),
            _ => panic!("no results"),
        }
    }
    let found = merge_search_results(&responses);
    assert_eq!(found.len(), 1);
    assert_eq!(found[0].hash, foo.hash);
}

#[test]
fn merged_results_drop_duplicate_videos() {
    let (_, v) = seeded_peer("foo", 30);
    let (_, w) = seeded_peer("foo two", 31);
    let found = merge_search_results(&vec![vec![v.clone(), w.clone()], vec![], vec![w.clone(), v.clone()]]);
    let ids: Vec<String> = found.iter().map(|m| m.hash.clone()).collect();
    assert_eq!(ids, vec![v.hash.clone(), w.hash.clone()]);
}

#[test]
fn locate_waits_for_quorum_or_budget() {
    assert!(!locate_finished(1, 3, 2, 5, 10));
    assert!(locate_finished(2, 3, 2, 5, 10));
    assert!(locate_finished(3, 3, 5, 5, 10));
    assert!(locate_finished(0, 3, 2, 10, 10));
}

#[test]
fn providers_are_distinct_and_bounded() {
    assert_eq!(distinct_providers(&vec![3, 1, 3, 2, 1], 10), vec![3, 1, 2]);
    assert_eq!(distinct_providers(&vec![3, 1, 3, 2, 1], 2), vec![3, 1]);
    assert!(distinct_providers(&vec![], 4).is_empty());
    assert!(distinct_providers(&vec![7, 8], 0).is_empty());
}

#[test]
fn metadata_for_another_video_is_refused() {
    let (_, v) = seeded_peer("clip", 40);
    let (_, w) = seeded_peer("other", 41);
    let mut b = Storage::new();
    assert_eq!(accept_metadata(&mut b, &w.hash, v.clone()), Err(KnapError::IntegrityViolation));
    assert!(b.get_video(&v.hash).is_err());
    let mut forged = v.clone();
    forged.chunks.swap(0, 1);
    assert_eq!(accept_metadata(&mut b, &v.hash, forged), Err(KnapError::IntegrityViolation));
    assert_eq!(accept_metadata(&mut b, &v.hash, v.clone()), Ok(()));
    assert_eq!(b.get_video(&v.hash).unwrap().chunks.len(), 3);
}
