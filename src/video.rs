//! Splitting a media file into chunks and computing their identifiers.

use crate::content::{
    content_id_of, hex_decode, hex_encode, hex_of, lemma_hex_injective, lemma_hex_len, sha256, sha256_of, ContentId,
    DIGEST_LEN,
};
use crate::error::KnapError;
use vstd::prelude::*;

verus! {

broadcast use Seq::lemma_flatten_push;

/// Chunk size used when none is given: four mebibytes.
pub const DEFAULT_CHUNK_SIZE: usize = 4194304;

/// Summary of one chunk of a video.
#[derive(Debug, Clone)]
pub struct ChunkMetadata {
    /// Identifier of the chunk's payload.
    pub hash: ContentId,
    /// Length of the payload in bytes.
    pub size: usize,
    /// Position of the chunk within its video, from 0.
    pub order: usize,
}

/// Description of a video and of its chunks, in order.
#[derive(Debug, Clone)]
pub struct VideoMetadata {
    /// Identifier of the video: the digest of its chunks' digests, concatenated in order.
    pub hash: ContentId,
    pub chunks: Vec<ChunkMetadata>,
    /// Length of the video in milliseconds; 0 where unknown.
    pub duration_ms: u64,
    pub codec: String,
    pub title: String,
    pub description: String,
}

/// What a chunk summary holds, as mathematical values.
pub struct ChunkView {
    pub hash: Seq<char>,
    pub size: usize,
    pub order: usize,
}

/// What video metadata holds, as mathematical values.
pub struct VideoView {
    pub hash: Seq<char>,
    pub chunks: Seq<ChunkView>,
    pub duration_ms: u64,
    pub codec: Seq<char>,
    pub title: Seq<char>,
    pub description: Seq<char>,
}

impl View for ChunkMetadata {
    type V = ChunkView;

    open spec fn view(&self) -> ChunkView {
        ChunkView { hash: self.hash@, size: self.size, order: self.order }
    }
}

impl View for VideoMetadata {
    type V = VideoView;

    open spec fn view(&self) -> VideoView {
        VideoView {
            hash: self.hash@,
            chunks: self.chunks@.map_values(|c: ChunkMetadata| c@),
            duration_ms: self.duration_ms,
            codec: self.codec@,
            title: self.title@,
            description: self.description@,
        }
    }
}

impl ChunkMetadata {
    /// A copy with the same contents.
    pub fn duplicate(&self) -> (r: ChunkMetadata)
        ensures
            r@ == self@,
    {
        ChunkMetadata { hash: self.hash.clone(), size: self.size, order: self.order }
    }
}

impl VideoMetadata {
    /// A copy with the same contents.
    pub fn duplicate(&self) -> (r: VideoMetadata)
        ensures
            r@ == self@,
    {
        let mut chunks: Vec<ChunkMetadata> = Vec::new();
        let mut i: usize = 0;
        while i < self.chunks.len()
            invariant
                i <= self.chunks@.len(),
                chunks@.len() == i,
                forall|k: int| 0 <= k < i ==> (#[trigger] chunks@[k])@ == self.chunks@[k]@,
            decreases self.chunks.len() - i,
        {
            chunks.push(self.chunks[i].duplicate());
            i = i + 1;
        }
        let r = VideoMetadata {
            hash: self.hash.clone(),
            chunks,
            duration_ms: self.duration_ms,
            codec: self.codec.clone(),
            title: self.title.clone(),
            description: self.description.clone(),
        };
        assert(r@.chunks =~= self@.chunks);
        r
    }
}

/// Splits a byte sequence into pieces of `s` bytes; the last piece may be shorter.
/// A sequence of at most `s` bytes is a single piece.
pub open spec fn chunk_seq(b: Seq<u8>, s: nat) -> Seq<Seq<u8>>
    decreases b.len(),
{
    if s == 0 || b.len() <= s {
        seq![b]
    } else {
        seq![b.subrange(0, s as int)] + chunk_seq(b.subrange(s as int, b.len() as int), s)
    }
}

/// The contents of a sequence of byte vectors.
pub open spec fn byte_views(v: Seq<Vec<u8>>) -> Seq<Seq<u8>> {
    v.map_values(|c: Vec<u8>| c@)
}

/// The digests of a sequence of payloads.
pub open spec fn digests_of(p: Seq<Seq<u8>>) -> Seq<Seq<u8>> {
    p.map_values(|c: Seq<u8>| sha256_of(c))
}

/// The identifier of a video made of the given payloads: the digest of their
/// digests, concatenated in order.
pub open spec fn video_id_of(p: Seq<Seq<u8>>) -> Seq<char> {
    hex_of(sha256_of(digests_of(p).flatten()))
}

/// `cs` describes the payloads `p` in order: identifiers, sizes and positions.
pub open spec fn describes_chunks(cs: Seq<ChunkMetadata>, p: Seq<Seq<u8>>) -> bool {
    &&& cs.len() == p.len()
    &&& forall|i: int|
        0 <= i < cs.len() ==> {
            &&& (#[trigger] cs[i]).hash@ == content_id_of(p[i])
            &&& cs[i].size == p[i].len()
            &&& cs[i].order == i
        }
}

/// `ds` are digests, in chunk order, whose hex forms are the chunks' identifiers.
pub open spec fn digests_behind(cs: Seq<ChunkMetadata>, ds: Seq<Seq<u8>>) -> bool {
    &&& ds.len() == cs.len()
    &&& forall|i: int|
        0 <= i < cs.len() ==> hex_of(#[trigger] ds[i]) == cs[i].hash@ && ds[i].len() == DIGEST_LEN
}

impl VideoMetadata {
    /// Metadata that can be accepted: positions are dense, every chunk
    /// identifier is the hex form of a digest, and the video identifier is the
    /// digest of those digests concatenated in order.
    pub open spec fn is_valid(&self) -> bool {
        &&& self.orders_dense()
        &&& exists|ds: Seq<Seq<u8>>|
            #[trigger] digests_behind(self.chunks@, ds) && self.hash@ == hex_of(sha256_of(ds.flatten()))
    }

    /// The video identifier and every chunk identifier have the width of a
    /// digest in hex: two characters per digest byte.
    pub open spec fn ids_have_digest_width(&self) -> bool {
        &&& self.hash@.len() == 2 * DIGEST_LEN
        &&& forall|i: int|
            0 <= i < self.chunks@.len() ==> (#[trigger] self.chunks@[i]).hash@.len() == 2 * DIGEST_LEN
    }

    /// The chunks' positions run 0, 1, ..., n - 1, in list order.
    pub open spec fn orders_dense(&self) -> bool {
        forall|i: int| 0 <= i < self.chunks@.len() ==> (#[trigger] self.chunks@[i]).order == i
    }

    /// Some chunk sits at position `k`.
    pub open spec fn has_order(&self, k: int) -> bool {
        exists|i: int| 0 <= i < self.chunks@.len() && (#[trigger] self.chunks@[i]).order == k
    }

    /// The metadata that chunking `b` at size `s` must produce, apart from the
    /// descriptive fields.
    pub open spec fn is_chunking_of(&self, b: Seq<u8>, s: nat) -> bool {
        &&& describes_chunks(self.chunks@, chunk_seq(b, s))
        &&& self.hash@ == video_id_of(chunk_seq(b, s))
    }
}

/// Every piece but the last has exactly `s` bytes, the last between 1 and `s`,
/// and the pieces put back together give `b`.
pub proof fn lemma_chunk_seq_shape(b: Seq<u8>, s: nat)
    requires
        s > 0,
        b.len() > 0,
    ensures
        chunk_seq(b, s).len() >= 1,
        chunk_seq(b, s).flatten() == b,
        forall|i: int|
            0 <= i < chunk_seq(b, s).len() - 1 ==> (#[trigger] chunk_seq(b, s)[i]).len() == s,
        0 < chunk_seq(b, s).last().len() <= s,
    decreases b.len(),
{
    let c = chunk_seq(b, s);
    if b.len() <= s {
        assert(c.flatten() == c[0] + c.drop_first().flatten());
        assert(c.drop_first() =~= Seq::<Seq<u8>>::empty());
        assert(c.flatten() =~= b);
    } else {
        let rest = b.subrange(s as int, b.len() as int);
        lemma_chunk_seq_shape(rest, s);
        let tail = chunk_seq(rest, s);
        assert(c.drop_first() =~= tail);
        assert(c.flatten() == c[0] + tail.flatten());
        assert(c.flatten() =~= b);
        assert forall|i: int| 0 <= i < c.len() - 1 implies (#[trigger] c[i]).len() == s by {
            if i > 0 {
                assert(c[i] == tail[i - 1]);
            }
        }
        assert(c.last() == tail.last());
    }
}

/// Splits `data` into chunks of `chunk_size` bytes; the last may be shorter.
pub fn split_chunks(data: &Vec<u8>, chunk_size: usize) -> (r: Vec<Vec<u8>>)
    requires
        chunk_size > 0,
    ensures
        byte_views(r@) == chunk_seq(data@, chunk_size as nat),
        byte_views(r@).flatten() == data@,
{
    let ghost s = chunk_size as nat;
    let mut r: Vec<Vec<u8>> = Vec::new();
    let mut start: usize = 0;
    assert(data@.subrange(0, data@.len() as int) =~= data@);
    assert(byte_views(r@) + chunk_seq(data@, s) =~= chunk_seq(data@, s));
    loop
        invariant
            chunk_size > 0,
            s == chunk_size as nat,
            start <= data.len(),
            byte_views(r@) + chunk_seq(data@.subrange(start as int, data@.len() as int), s)
                == chunk_seq(data@, s),
        decreases data.len() - start,
    {
        let ghost rest = data@.subrange(start as int, data@.len() as int);
        let remaining: usize = data.len() - start;
        let take: usize = if remaining <= chunk_size { remaining } else { chunk_size };
        let mut c: Vec<u8> = Vec::new();
        let mut j: usize = start;
        while j < start + take
            invariant
                start <= j <= start + take,
                start + take <= data.len(),
                c@ == data@.subrange(start as int, j as int),
            decreases start + take - j,
        {
            c.push(data[j]);
            j = j + 1;
            assert(c@ =~= data@.subrange(start as int, j as int));
        }
        assert(byte_views(r@.push(c)) =~= byte_views(r@).push(c@));
        r.push(c);
        if remaining <= chunk_size {
            assert(c@ =~= rest);
            assert(byte_views(r@) =~= byte_views(r@).subrange(0, r@.len() - 1) + seq![rest]);
            assert(byte_views(r@) =~= chunk_seq(data@, s));
            proof {
                lemma_chunks_cover(data@, s);
            }
            return r;
        }
        assert(c@ =~= rest.subrange(0, s as int));
        assert(rest.subrange(s as int, rest.len() as int) =~= data@.subrange(
            (start + chunk_size) as int,
            data@.len() as int,
        ));
        assert(byte_views(r@) + chunk_seq(
            data@.subrange((start + chunk_size) as int, data@.len() as int),
            s,
        ) =~= byte_views(r@).drop_last() + chunk_seq(rest, s));
        start = start + chunk_size;
    }
}

/// Concatenating the chunks of `b`, in order, gives back `b` exactly.
pub proof fn lemma_chunks_cover(b: Seq<u8>, s: nat)
    requires
        s > 0,
    ensures
        chunk_seq(b, s).flatten() == b,
{
    if b.len() == 0 {
        let c = chunk_seq(b, s);
        assert(c.flatten() == c[0] + c.drop_first().flatten());
        assert(c.drop_first() =~= Seq::<Seq<u8>>::empty());
        assert(c.flatten() =~= b);
    } else {
        lemma_chunk_seq_shape(b, s);
    }
}

/// Chunking is deterministic: two results of chunking the same bytes at the
/// same size carry the same video identifier and the same chunk identifiers.
pub proof fn lemma_chunking_deterministic(b: Seq<u8>, s: nat, m1: VideoMetadata, m2: VideoMetadata)
    requires
        m1.is_chunking_of(b, s),
        m2.is_chunking_of(b, s),
    ensures
        m1.hash@ == m2.hash@,
        m1.chunks@.len() == m2.chunks@.len(),
        forall|i: int|
            0 <= i < m1.chunks@.len() ==> (#[trigger] m1.chunks@[i]).hash@ == m2.chunks@[i].hash@,
{
    assert forall|i: int| 0 <= i < m1.chunks@.len() implies (#[trigger] m1.chunks@[i]).hash@
        == m2.chunks@[i].hash@ by {
        assert(m1.chunks@[i].hash@ == content_id_of(chunk_seq(b, s)[i]));
        assert(m2.chunks@[i].hash@ == content_id_of(chunk_seq(b, s)[i]));
    }
}

/// In metadata with dense positions, the positions are exactly 0 to n - 1:
/// each occurs once, none is missing and none is out of range.
pub proof fn lemma_dense_order(m: VideoMetadata)
    requires
        m.orders_dense(),
    ensures
        forall|i: int| 0 <= i < m.chunks@.len() ==> (#[trigger] m.chunks@[i]).order < m.chunks@.len(),
        forall|k: int| 0 <= k < m.chunks@.len() ==> #[trigger] m.has_order(k),
        forall|i: int, j: int|
            0 <= i < m.chunks@.len() && 0 <= j < m.chunks@.len() && i != j
                ==> (#[trigger] m.chunks@[i]).order != (#[trigger] m.chunks@[j]).order,
{
    assert forall|k: int| 0 <= k < m.chunks@.len() implies #[trigger] m.has_order(k) by {
        assert(m.chunks@[k].order == k);
    }
}

impl VideoMetadata {
    /// Whether the metadata is valid; see `is_valid`.
    pub fn validate(&self) -> (r: bool)
        ensures
            r == self.is_valid(),
    {
        let mut concat: Vec<u8> = Vec::new();
        let ghost ds: Seq<Seq<u8>> = Seq::empty();
        let mut i: usize = 0;
        while i < self.chunks.len()
            invariant
                i <= self.chunks@.len(),
                ds.len() == i,
                forall|k: int| 0 <= k < i ==> (#[trigger] self.chunks@[k]).order == k,
                forall|k: int|
                    0 <= k < i ==> hex_of(#[trigger] ds[k]) == self.chunks@[k].hash@ && ds[k].len()
                        == DIGEST_LEN,
                concat@ == ds.flatten(),
            decreases self.chunks.len() - i,
        {
            let c = &self.chunks[i];
            if c.order != i {
                return false;
            }
            let v = match hex_decode(c.hash.as_str()) {
                None => {
                    proof {
                        if self.is_valid() {
                            let w = choose|w: Seq<Seq<u8>>| #[trigger] digests_behind(self.chunks@, w)
                                && self.hash@ == hex_of(sha256_of(w.flatten()));
                            assert(hex_of(w[i as int]) == c.hash@);
                        }
                    }
                    return false;
                },
                Some(v) => v,
            };
            let back = hex_encode(v.as_slice());
            if back != c.hash || v.len() != DIGEST_LEN {
                proof {
                    if self.is_valid() {
                        let w = choose|w: Seq<Seq<u8>>| #[trigger] digests_behind(self.chunks@, w)
                            && self.hash@ == hex_of(sha256_of(w.flatten()));
                        assert(hex_of(w[i as int]) == c.hash@);
                        lemma_hex_injective(v@, w[i as int]);
                    }
                }
                return false;
            }
            proof {
                ds = ds.push(v@);
            }
            let mut v = v;
            concat.append(&mut v);
            i = i + 1;
        }
        let vid = hex_encode(sha256(concat.as_slice()).as_slice());
        let r = vid == self.hash;
        proof {
            if r {
                assert(digests_behind(self.chunks@, ds));
            } else if self.is_valid() {
                let w = choose|w: Seq<Seq<u8>>| #[trigger] digests_behind(self.chunks@, w)
                    && self.hash@ == hex_of(sha256_of(w.flatten()));
                assert forall|k: int| 0 <= k < ds.len() implies w[k] == ds[k] by {
                    lemma_hex_injective(w[k], ds[k]);
                }
                assert(w =~= ds);
            }
        }
        r
    }
}

pub struct VideoProcessor;

impl VideoProcessor {
    /// Chunks `data` at `chunk_size` bytes and computes every identifier.
    /// Fails with `EmptyInput` exactly when `data` is empty.
    pub fn chunk_and_hash(data: &Vec<u8>, chunk_size: usize) -> (r: Result<VideoMetadata, KnapError>)
        requires
            chunk_size > 0,
        ensures
            data@.len() == 0 <==> r == Err::<VideoMetadata, KnapError>(KnapError::EmptyInput),
            data@.len() > 0 ==> r is Ok,
            r matches Ok(m) ==> m.is_chunking_of(data@, chunk_size as nat) && m.orders_dense()
                && m.is_valid(),
            r matches Ok(m) ==> m.duration_ms == 0,
            r matches Ok(m) ==> forall|i: int|
                0 <= i < m.chunks@.len() ==> 0 < (#[trigger] m.chunks@[i]).size <= chunk_size
                    && (i < m.chunks@.len() - 1 ==> m.chunks@[i].size == chunk_size),
            r matches Ok(m) ==> m.ids_have_digest_width(),
    {
        if data.len() == 0 {
            return Err(KnapError::EmptyInput);
        }
        let payloads = split_chunks(data, chunk_size);
        let ghost p = chunk_seq(data@, chunk_size as nat);
        let mut chunks: Vec<ChunkMetadata> = Vec::new();
        let mut concat: Vec<u8> = Vec::new();
        let mut i: usize = 0;
        while i < payloads.len()
            invariant
                i <= payloads@.len(),
                byte_views(payloads@) == p,
                describes_chunks(chunks@, p.subrange(0, i as int)),
                concat@ == digests_of(p.subrange(0, i as int)).flatten(),
                forall|k: int| 0 <= k < i ==> (#[trigger] sha256_of(p[k])).len() == DIGEST_LEN,
            decreases payloads.len() - i,
        {
            let ghost before = p.subrange(0, i as int);
            assert(payloads@[i as int]@ == p[i as int]);
            let d = sha256(payloads[i].as_slice());
            let h = hex_encode(d.as_slice());
            chunks.push(ChunkMetadata { hash: h, size: payloads[i].len(), order: i });
            let mut dd = d;
            concat.append(&mut dd);
            proof {
                let after = p.subrange(0, i + 1);
                assert(after =~= before.push(p[i as int]));
                assert(digests_of(after) =~= digests_of(before).push(sha256_of(p[i as int])));
            }
            i = i + 1;
        }
        assert(p.subrange(0, i as int) =~= p);
        proof {
            let ds = digests_of(p);
            assert(digests_behind(chunks@, ds));
            lemma_chunk_seq_shape(data@, chunk_size as nat);
        }
        let vd = sha256(concat.as_slice());
        let vid = hex_encode(vd.as_slice());
        proof {
            lemma_hex_len(vd@);
            assert forall|k: int| 0 <= k < chunks@.len() implies (#[trigger] chunks@[k]).hash@.len()
                == 2 * DIGEST_LEN by {
                lemma_hex_len(sha256_of(p[k]));
            }
        }
        Ok(VideoMetadata {
            hash: vid,
            chunks,
            duration_ms: 0,
            codec: "mp4".to_string(),
            title: "Untitled".to_string(),
            description: "No description".to_string(),
        })
    }

    /// Chunks the contents of a media file at the default chunk size.
    pub fn prepare_video(data: &Vec<u8>) -> (r: Result<VideoMetadata, KnapError>)
        ensures
            data@.len() == 0 <==> r == Err::<VideoMetadata, KnapError>(KnapError::EmptyInput),
            data@.len() > 0 ==> r is Ok,
            r matches Ok(m) ==> m.is_chunking_of(data@, DEFAULT_CHUNK_SIZE as nat) && m.orders_dense()
                && m.is_valid(),
            r matches Ok(m) ==> m.duration_ms == 0,
            r matches Ok(m) ==> forall|i: int|
                0 <= i < m.chunks@.len() ==> 0 < (#[trigger] m.chunks@[i]).size <= DEFAULT_CHUNK_SIZE
                    && (i < m.chunks@.len() - 1 ==> m.chunks@[i].size == DEFAULT_CHUNK_SIZE),
            r matches Ok(m) ==> m.ids_have_digest_width(),
    {
        VideoProcessor::chunk_and_hash(data, DEFAULT_CHUNK_SIZE)
    }
}

} // verus!
