//! The chunk store: video metadata and chunk payloads keyed by identifier,
//! where every stored chunk belongs to a known video and matches its identifier.

use crate::content::{content_id, content_id_of, ContentId};
use crate::error::KnapError;
use crate::keyed::{
    keyed, keys_unique, lemma_keyed_absent, lemma_keyed_at, lemma_keyed_found, lemma_keyed_push,
    lemma_keyed_update, lemma_unique_push, Keyed,
};
use crate::video::{VideoMetadata, VideoView};
use vstd::prelude::*;

verus! {

/// A chunk payload as the store keeps it.
#[derive(Debug)]
pub struct StoredChunk {
    pub hash: ContentId,
    pub video_hash: ContentId,
    pub data: Vec<u8>,
}

/// What the store holds under a chunk identifier.
pub struct StoredChunkView {
    pub video_hash: Seq<char>,
    pub data: Seq<u8>,
}

impl View for StoredChunk {
    type V = StoredChunkView;

    open spec fn view(&self) -> StoredChunkView {
        StoredChunkView { video_hash: self.video_hash@, data: self.data@ }
    }
}

impl Keyed for StoredChunk {
    open spec fn key(&self) -> Seq<char> {
        self.hash@
    }
}

impl Keyed for VideoMetadata {
    open spec fn key(&self) -> Seq<char> {
        self.hash@
    }
}

/// `q` occurs in `t` as a contiguous run of characters.
pub open spec fn has_substring(t: Seq<char>, q: Seq<char>) -> bool {
    exists|i: int| 0 <= i && i + q.len() <= t.len() && #[trigger] t.subrange(i, i + q.len()) == q
}

/// Relies on str::contains with a `&str` pattern: whether the pattern occurs
/// in the text as a contiguous sub-slice.
#[verifier::external_body]
fn text_contains(t: &str, q: &str) -> (r: bool)
    ensures
        r == has_substring(t@, q@),
{
    t.contains(q)
}

/// A copy of a byte vector.
fn copy_bytes(b: &Vec<u8>) -> (r: Vec<u8>)
    ensures
        r@ == b@,
{
    let mut r: Vec<u8> = Vec::new();
    let mut i: usize = 0;
    while i < b.len()
        invariant
            i <= b@.len(),
            r@ == b@.subrange(0, i as int),
        decreases b.len() - i,
    {
        r.push(b[i]);
        i = i + 1;
        assert(r@ =~= b@.subrange(0, i as int));
    }
    assert(b@.subrange(0, i as int) =~= b@);
    r
}

/// Whether two byte vectors hold the same bytes.
fn bytes_equal(a: &Vec<u8>, b: &Vec<u8>) -> (r: bool)
    ensures
        r == (a@ == b@),
{
    if a.len() != b.len() {
        return false;
    }
    let mut i: usize = 0;
    while i < a.len()
        invariant
            i <= a@.len(),
            a@.len() == b@.len(),
            forall|k: int| 0 <= k < i ==> a@[k] == b@[k],
        decreases a.len() - i,
    {
        if a[i] != b[i] {
            return false;
        }
        i = i + 1;
    }
    assert(a@ =~= b@);
    true
}

/// Local storage of video metadata and chunk payloads.
pub struct Storage {
    videos: Vec<VideoMetadata>,
    chunks: Vec<StoredChunk>,
}

impl Storage {
    /// Stored metadata, by video identifier.
    pub closed spec fn video_map(&self) -> Map<Seq<char>, VideoView> {
        keyed(self.videos@)
    }

    /// Stored payloads, by chunk identifier.
    pub closed spec fn chunk_map(&self) -> Map<Seq<char>, StoredChunkView> {
        keyed(self.chunks@)
    }

    /// The store's invariant: each payload sits under its own identifier and
    /// belongs to a stored video.
    pub closed spec fn wf(&self) -> bool {
        &&& keys_unique(self.videos@)
        &&& keys_unique(self.chunks@)
        &&& forall|k: Seq<char>| #[trigger]
            self.chunk_map().contains_key(k) ==> {
                &&& content_id_of(self.chunk_map()[k].data) == k
                &&& self.video_map().contains_key(self.chunk_map()[k].video_hash)
            }
    }

    /// Every chunk of video `v` has its payload stored.
    pub open spec fn complete(&self, v: Seq<char>) -> bool {
        &&& self.video_map().contains_key(v)
        &&& forall|i: int|
            0 <= i < self.video_map()[v].chunks.len() ==> self.chunk_map().contains_key(
                (#[trigger] self.video_map()[v].chunks[i]).hash,
            )
    }

    /// `r` lists each stored video whose title contains `q`, once, and nothing else.
    pub open spec fn is_search_result(&self, q: Seq<char>, r: Seq<VideoMetadata>) -> bool {
        &&& forall|i: int|
            0 <= i < r.len() ==> {
                &&& self.video_map().contains_key((#[trigger] r[i]).hash@)
                &&& self.video_map()[r[i].hash@] == r[i]@
                &&& has_substring(r[i].title@, q)
            }
        &&& forall|k: Seq<char>|
            #![trigger self.video_map()[k]]
            self.video_map().contains_key(k) && has_substring(self.video_map()[k].title, q)
                ==> exists|i: int| 0 <= i < r.len() && (#[trigger] r[i]).hash@ == k
        &&& forall|i: int, j: int|
            0 <= i < j < r.len() ==> (#[trigger] r[i]).hash@ != (#[trigger] r[j]).hash@
    }

    /// What a well-formed store guarantees of every stored payload.
    pub proof fn lemma_integrity(&self, k: Seq<char>)
        requires
            self.wf(),
            self.chunk_map().contains_key(k),
        ensures
            content_id_of(self.chunk_map()[k].data) == k,
            self.video_map().contains_key(self.chunk_map()[k].video_hash),
    {
    }

    /// An empty store.
    pub fn new() -> (r: Storage)
        ensures
            r.wf(),
            r.video_map() == Map::<Seq<char>, VideoView>::empty(),
            r.chunk_map() == Map::<Seq<char>, StoredChunkView>::empty(),
    {
        Storage { videos: Vec::new(), chunks: Vec::new() }
    }

    fn find_video(&self, id: &String) -> (r: Option<usize>)
        requires
            self.wf(),
        ensures
            r is None <==> !self.video_map().contains_key(id@),
            r matches Some(i) ==> i < self.videos@.len() && self.videos@[i as int].hash@ == id@
                && self.video_map()[id@] == self.videos@[i as int]@,
    {
        let mut i: usize = 0;
        while i < self.videos.len()
            invariant
                self.wf(),
                i <= self.videos@.len(),
                forall|k: int| 0 <= k < i ==> (#[trigger] self.videos@[k]).key() != id@,
            decreases self.videos.len() - i,
        {
            if self.videos[i].hash == *id {
                proof {
                    lemma_keyed_at(self.videos@, i as int);
                }
                return Some(i);
            }
            i = i + 1;
        }
        proof {
            lemma_keyed_absent(self.videos@, id@);
        }
        None
    }

    fn find_chunk(&self, id: &String) -> (r: Option<usize>)
        requires
            self.wf(),
        ensures
            r is None <==> !self.chunk_map().contains_key(id@),
            r matches Some(i) ==> i < self.chunks@.len() && self.chunks@[i as int].hash@ == id@
                && self.chunk_map()[id@] == self.chunks@[i as int]@,
    {
        let mut i: usize = 0;
        while i < self.chunks.len()
            invariant
                self.wf(),
                i <= self.chunks@.len(),
                forall|k: int| 0 <= k < i ==> (#[trigger] self.chunks@[k]).key() != id@,
            decreases self.chunks.len() - i,
        {
            if self.chunks[i].hash == *id {
                proof {
                    lemma_keyed_at(self.chunks@, i as int);
                }
                return Some(i);
            }
            i = i + 1;
        }
        proof {
            lemma_keyed_absent(self.chunks@, id@);
        }
        None
    }

    /// Inserts or replaces the metadata stored under its identifier.
    pub fn store_video(&mut self, metadata: VideoMetadata)
        requires
            old(self).wf(),
        ensures
            final(self).wf(),
            final(self).video_map() == old(self).video_map().insert(metadata.hash@, metadata@),
            final(self).chunk_map() == old(self).chunk_map(),
    {
        let found = self.find_video(&metadata.hash);
        let ghost old_videos = self.videos@;
        let ghost m = metadata;
        match found {
            Some(i) => {
                self.videos.set(i, metadata);
                proof {
                    lemma_keyed_update(old_videos, i as int, m);
                }
            },
            None => {
                proof {
                    assert forall|k: int| 0 <= k < old_videos.len() implies (#[trigger] old_videos[k]).key()
                        != m.key() by {
                        if old_videos[k].key() == m.key() {
                            lemma_keyed_at(old_videos, k);
                        }
                    }
                    lemma_unique_push(old_videos, m);
                    lemma_keyed_push(old_videos, m);
                }
                self.videos.push(metadata);
            },
        }
        assert(self.chunk_map() == old(self).chunk_map());
        assert forall|k: Seq<char>| #[trigger] self.chunk_map().contains_key(k) implies {
            &&& content_id_of(self.chunk_map()[k].data) == k
            &&& self.video_map().contains_key(self.chunk_map()[k].video_hash)
        } by {
            assert(old(self).chunk_map().contains_key(k));
        }
    }

    /// Stores a chunk payload under `chunk_hash` for video `video_hash`.
    ///
    /// Fails with `DanglingReference` when the video is unknown, and with
    /// `HashMismatch` when the payload's identifier is not `chunk_hash` or a
    /// different payload is already stored under it. Storing the same payload
    /// again changes nothing. A failure leaves the store as it was.
    pub fn store_chunk(&mut self, chunk_hash: &String, video_hash: &String, data: &Vec<u8>) -> (r:
        Result<(), KnapError>)
        requires
            old(self).wf(),
        ensures
            final(self).wf(),
            final(self).video_map() == old(self).video_map(),
            !old(self).video_map().contains_key(video_hash@) ==> r == Err::<(), KnapError>(
                KnapError::DanglingReference,
            ),
            old(self).video_map().contains_key(video_hash@) && content_id_of(data@) != chunk_hash@
                ==> r == Err::<(), KnapError>(KnapError::HashMismatch),
            old(self).video_map().contains_key(video_hash@) && content_id_of(data@) == chunk_hash@
                && old(self).chunk_map().contains_key(chunk_hash@) ==> r == (if old(
                self,
            ).chunk_map()[chunk_hash@].data == data@ {
                Ok::<(), KnapError>(())
            } else {
                Err::<(), KnapError>(KnapError::HashMismatch)
            }),
            old(self).video_map().contains_key(video_hash@) && content_id_of(data@) == chunk_hash@
                && !old(self).chunk_map().contains_key(chunk_hash@) ==> r is Ok,
            r is Ok ==> final(self).chunk_map() == old(self).chunk_map().insert(
                chunk_hash@,
                if old(self).chunk_map().contains_key(chunk_hash@) {
                    old(self).chunk_map()[chunk_hash@]
                } else {
                    StoredChunkView { video_hash: video_hash@, data: data@ }
                },
            ),
            r is Err ==> final(self).chunk_map() == old(self).chunk_map(),
    {
        if self.find_video(video_hash).is_none() {
            return Err(KnapError::DanglingReference);
        }
        let actual = content_id(data.as_slice());
        if actual != *chunk_hash {
            return Err(KnapError::HashMismatch);
        }
        match self.find_chunk(chunk_hash) {
            Some(i) => {
                if bytes_equal(&self.chunks[i].data, data) {
                    proof {
                        assert(old(self).chunk_map().insert(chunk_hash@, old(self).chunk_map()[chunk_hash@])
                            =~= old(self).chunk_map());
                    }
                    Ok(())
                } else {
                    Err(KnapError::HashMismatch)
                }
            },
            None => {
                let c = StoredChunk {
                    hash: chunk_hash.clone(),
                    video_hash: video_hash.clone(),
                    data: copy_bytes(data),
                };
                let ghost old_chunks = self.chunks@;
                proof {
                    assert forall|k: int| 0 <= k < old_chunks.len() implies (#[trigger] old_chunks[k]).key()
                        != c.key() by {
                        if old_chunks[k].key() == c.key() {
                            lemma_keyed_at(old_chunks, k);
                        }
                    }
                    lemma_unique_push(old_chunks, c);
                    lemma_keyed_push(old_chunks, c);
                }
                self.chunks.push(c);
                Ok(())
            },
        }
    }

    /// Whether a payload is stored under `chunk_hash`.
    pub fn has_chunk(&self, chunk_hash: &String) -> (r: bool)
        requires
            self.wf(),
        ensures
            r == self.chunk_map().contains_key(chunk_hash@),
    {
        self.find_chunk(chunk_hash).is_some()
    }

    /// The payload stored under `chunk_hash`; `NotFound` when there is none.
    pub fn get_chunk(&self, chunk_hash: &String) -> (r: Result<Vec<u8>, KnapError>)
        requires
            self.wf(),
        ensures
            self.chunk_map().contains_key(chunk_hash@) <==> r is Ok,
            r matches Ok(d) ==> d@ == self.chunk_map()[chunk_hash@].data,
            r matches Err(e) ==> e == KnapError::NotFound,
    {
        match self.find_chunk(chunk_hash) {
            Some(i) => Ok(copy_bytes(&self.chunks[i].data)),
            None => Err(KnapError::NotFound),
        }
    }

    /// The metadata stored under `video_hash`; `NotFound` when there is none.
    pub fn get_video(&self, video_hash: &String) -> (r: Result<VideoMetadata, KnapError>)
        requires
            self.wf(),
        ensures
            self.video_map().contains_key(video_hash@) <==> r is Ok,
            r matches Ok(m) ==> m@ == self.video_map()[video_hash@],
            r matches Err(e) ==> e == KnapError::NotFound,
    {
        match self.find_video(video_hash) {
            Some(i) => Ok(self.videos[i].duplicate()),
            None => Err(KnapError::NotFound),
        }
    }

    /// Whether the video is stored and every one of its chunks has its payload.
    pub fn has_all_chunks(&self, video_hash: &String) -> (r: bool)
        requires
            self.wf(),
        ensures
            r == self.complete(video_hash@),
    {
        match self.find_video(video_hash) {
            None => false,
            Some(v) => {
                let m = &self.videos[v];
                let ghost mv = self.video_map()[video_hash@];
                assert(mv.chunks == m.chunks@.map_values(|c: crate::video::ChunkMetadata| c@));
                let mut i: usize = 0;
                while i < m.chunks.len()
                    invariant
                        self.wf(),
                        self.video_map().contains_key(video_hash@),
                        mv == self.video_map()[video_hash@],
                        i <= m.chunks@.len(),
                        mv.chunks.len() == m.chunks@.len(),
                        forall|k: int| 0 <= k < mv.chunks.len() ==> (#[trigger] mv.chunks[k]) == m.chunks@[k]@,
                        forall|k: int| 0 <= k < i ==> self.chunk_map().contains_key(
                            (#[trigger] mv.chunks[k]).hash,
                        ),
                    decreases m.chunks.len() - i,
                {
                    assert(mv.chunks[i as int] == m.chunks@[i as int]@);
                    if self.find_chunk(&m.chunks[i].hash).is_none() {
                        assert(!self.chunk_map().contains_key(mv.chunks[i as int].hash));
                        assert(!self.complete(video_hash@)) by {
                            assert(self.video_map()[video_hash@].chunks[i as int] == mv.chunks[i as int]);
                        }
                        return false;
                    }
                    i = i + 1;
                }
                true
            },
        }
    }

    /// The payloads fit the metadata: one per chunk, each under its chunk's
    /// identifier, agreeing with any payload already stored under that
    /// identifier and with each other where identifiers repeat.
    pub open spec fn payloads_fit(&self, m: VideoMetadata, p: Seq<Vec<u8>>) -> bool {
        &&& p.len() == m.chunks@.len()
        &&& forall|i: int| 0 <= i < p.len() ==> content_id_of((#[trigger] p[i])@) == m.chunks@[i].hash@
        &&& forall|i: int|
            0 <= i < p.len() && self.chunk_map().contains_key(m.chunks@[i].hash@) ==> self.chunk_map()[m.chunks@[i].hash@].data
                == (#[trigger] p[i])@
        &&& forall|i: int, j: int|
            0 <= i < p.len() && 0 <= j < p.len() && m.chunks@[i].hash@ == m.chunks@[j].hash@
                ==> (#[trigger] p[i])@ == (#[trigger] p[j])@
    }

    /// Stores a prepared video: its metadata, then the payload of each chunk
    /// in order, stopping at the first chunk that cannot be stored and
    /// returning its error. Payloads that fit the metadata are all stored.
    pub fn store_prepared(&mut self, metadata: VideoMetadata, payloads: &Vec<Vec<u8>>) -> (r: Result<(), KnapError>)
        requires
            old(self).wf(),
            payloads@.len() == metadata.chunks@.len(),
        ensures
            final(self).wf(),
            final(self).video_map() == old(self).video_map().insert(metadata.hash@, metadata@),
            r is Ok ==> final(self).complete(metadata.hash@),
            old(self).payloads_fit(metadata, payloads@) ==> r is Ok,
    {
        let ghost m = metadata;
        let copy = metadata.duplicate();
        let hash = metadata.hash.clone();
        self.store_video(metadata.duplicate());
        let ghost base = self.chunk_map();
        assert(base == old(self).chunk_map());
        assert(copy.chunks@.len() == copy@.chunks.len());
        assert(m.chunks@.len() == m@.chunks.len());
        let mut i: usize = 0;
        while i < payloads.len()
            invariant
                self.wf(),
                i <= payloads@.len(),
                payloads@.len() == copy.chunks@.len(),
                payloads@.len() == m.chunks@.len(),
                m@.chunks.len() == m.chunks@.len(),
                copy@ == m@,
                m == metadata,
                hash@ == m.hash@,
                base == old(self).chunk_map(),
                self.video_map() == old(self).video_map().insert(m.hash@, m@),
                forall|k: int| 0 <= k < i ==> self.chunk_map().contains_key((#[trigger] copy.chunks@[k]).hash@),
                forall|key: Seq<char>|
                    #![trigger base.contains_key(key)]
                    base.contains_key(key) ==> self.chunk_map().contains_key(key) && self.chunk_map()[key] == base[key],
                forall|key: Seq<char>|
                    #![trigger self.chunk_map().contains_key(key)]
                    self.chunk_map().contains_key(key) ==> base.contains_key(key) || exists|k: int|
                        0 <= k < i && (#[trigger] copy.chunks@[k]).hash@ == key,
                old(self).payloads_fit(m, payloads@) ==> forall|k: int|
                    0 <= k < i ==> self.chunk_map()[(#[trigger] copy.chunks@[k]).hash@].data == payloads@[k]@,
            decreases payloads.len() - i,
        {
            let ghost before = self.chunk_map();
            let ghost key = copy.chunks@[i as int].hash@;
            proof {
                assert(copy@.chunks[i as int] == copy.chunks@[i as int]@);
                assert(m@.chunks[i as int] == m.chunks@[i as int]@);
                assert(key == m.chunks@[i as int].hash@);
                if old(self).payloads_fit(m, payloads@) && before.contains_key(key) {
                    if !base.contains_key(key) {
                        let k = choose|k: int| 0 <= k < i && (#[trigger] copy.chunks@[k]).hash@ == key;
                        assert(copy@.chunks[k] == copy.chunks@[k]@);
                        assert(m@.chunks[k] == m.chunks@[k]@);
                        assert(payloads@[k]@ == payloads@[i as int]@);
                    }
                }
            }
            let res = self.store_chunk(&copy.chunks[i].hash, &hash, &payloads[i]);
            if res.is_err() {
                return res;
            }
            proof {
                assert forall|key2: Seq<char>|
                    #![trigger base.contains_key(key2)]
                    base.contains_key(key2) implies self.chunk_map().contains_key(key2) && self.chunk_map()[key2]
                        == base[key2] by {
                    assert(before.contains_key(key2) && before[key2] == base[key2]);
                }
                assert forall|key2: Seq<char>|
                    #![trigger self.chunk_map().contains_key(key2)]
                    self.chunk_map().contains_key(key2) implies base.contains_key(key2) || exists|k: int|
                        0 <= k < i + 1 && (#[trigger] copy.chunks@[k]).hash@ == key2 by {
                    if key2 != key && !base.contains_key(key2) {
                        assert(before.contains_key(key2));
                    }
                }
            }
            i = i + 1;
        }
        proof {
            assert forall|k: int| 0 <= k < self.video_map()[m.hash@].chunks.len() implies self.chunk_map().contains_key(
                (#[trigger] self.video_map()[m.hash@].chunks[k]).hash,
            ) by {
                assert(copy@.chunks[k] == copy.chunks@[k]@);
            }
        }
        Ok(())
    }

    /// The stored videos whose title contains `query`, each once.
    pub fn search(&self, query: &String) -> (r: Vec<VideoMetadata>)
        requires
            self.wf(),
        ensures
            self.is_search_result(query@, r@),
    {
        let mut r: Vec<VideoMetadata> = Vec::new();
        let mut i: usize = 0;
        let ghost picked: Seq<int> = Seq::empty();
        while i < self.videos.len()
            invariant
                self.wf(),
                i <= self.videos@.len(),
                picked.len() == r@.len(),
                forall|a: int|
                    0 <= a < r@.len() ==> {
                        &&& 0 <= #[trigger] picked[a] < i
                        &&& r@[a]@ == self.videos@[picked[a]]@
                        &&& has_substring(r@[a].title@, query@)
                    },
                forall|a: int, b: int| 0 <= a < b < r@.len() ==> #[trigger] picked[a] < #[trigger] picked[b],
                forall|k: int|
                    0 <= k < i && has_substring((#[trigger] self.videos@[k]).title@, query@)
                        ==> exists|a: int| 0 <= a < r@.len() && #[trigger] picked[a] == k,
            decreases self.videos.len() - i,
        {
            let m = &self.videos[i];
            if text_contains(m.title.as_str(), query.as_str()) {
                let c = m.duplicate();
                let ghost old_picked = picked;
                proof {
                    picked = picked.push(i as int);
                }
                r.push(c);
                proof {
                    assert forall|k: int|
                        0 <= k < i + 1 && has_substring((#[trigger] self.videos@[k]).title@, query@)
                            implies exists|a: int| 0 <= a < r@.len() && #[trigger] picked[a] == k by {
                        if k == i {
                            assert(picked[r@.len() - 1] == k);
                        } else {
                            let a = choose|a: int| 0 <= a < old_picked.len() && #[trigger] old_picked[a] == k;
                            assert(picked[a] == old_picked[a]);
                        }
                    }
                }
            }
            i = i + 1;
        }
        proof {
            assert forall|a: int|
                0 <= a < r@.len() implies {
                    &&& self.video_map().contains_key((#[trigger] r@[a]).hash@)
                    &&& self.video_map()[r@[a].hash@] == r@[a]@
                    &&& has_substring(r@[a].title@, query@)
                } by {
                lemma_keyed_at(self.videos@, picked[a]);
            }
            assert forall|k: Seq<char>|
                #![trigger self.video_map()[k]]
                self.video_map().contains_key(k) && has_substring(self.video_map()[k].title, query@)
                    implies exists|a: int| 0 <= a < r@.len() && (#[trigger] r@[a]).hash@ == k by {
                lemma_keyed_found(self.videos@, k);
                let j = choose|j: int| 0 <= j < self.videos@.len() && (#[trigger] self.videos@[j]).key() == k;
                lemma_keyed_at(self.videos@, j);
                let a = choose|a: int| 0 <= a < r@.len() && #[trigger] picked[a] == j;
                assert(r@[a].hash@ == k);
            }
            assert forall|a: int, b: int|
                0 <= a < b < r@.len() implies (#[trigger] r@[a]).hash@ != (#[trigger] r@[b]).hash@ by {
                assert(picked[a] < picked[b]);
                assert(self.videos@[picked[a]].key() != self.videos@[picked[b]].key());
            }
        }
        r
    }
}

/// Storing the same metadata twice leaves the store as storing it once does.
pub proof fn lemma_store_video_idempotent(s0: Storage, s1: Storage, s2: Storage, m: VideoMetadata)
    requires
        s1.video_map() == s0.video_map().insert(m.hash@, m@),
        s1.chunk_map() == s0.chunk_map(),
        s2.video_map() == s1.video_map().insert(m.hash@, m@),
        s2.chunk_map() == s1.chunk_map(),
    ensures
        s2.video_map() == s1.video_map(),
        s2.chunk_map() == s1.chunk_map(),
{
    assert(s2.video_map() =~= s1.video_map());
}

} // verus!
