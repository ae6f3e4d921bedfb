//! Acquisition of a whole video: which chunk to fetch from which peer, with
//! bounded parallelism, retries against other providers, and rounds of
//! discovery that end in failure when they make no progress. The caller
//! performs the fetches and the lookups and reports back.

use crate::content::ContentId;
use crate::error::KnapError;
use crate::network::PeerHandle;
use crate::storage::Storage;
use crate::video::{VideoMetadata, VideoView};
use vstd::prelude::*;

verus! {

/// Where one chunk of the video stands.
#[derive(Debug, Clone, Copy, PartialEq, Eq, Structural)]
pub enum SlotState {
    /// Not stored and not being fetched.
    Missing,
    /// Being fetched from this peer.
    InFlight(PeerHandle),
    /// Stored locally.
    Done,
}

/// What the session reports after a round of discovery.
#[derive(Debug, Clone, Copy, PartialEq, Eq, Structural)]
pub enum SessionStatus {
    /// The store holds every chunk of the video.
    Complete,
    /// More fetching is needed.
    Running,
    /// The caller cancelled; nothing new is issued.
    Cancelled,
}

/// The number of chunks being fetched.
pub open spec fn in_flight_count(s: Seq<SlotState>) -> nat
    decreases s.len(),
{
    if s.len() == 0 {
        0
    } else {
        in_flight_count(s.drop_last()) + if s.last() is InFlight {
            1nat
        } else {
            0nat
        }
    }
}

/// Some entry of `providers` has not yet failed to deliver chunk `slot`.
pub open spec fn has_untried(providers: Seq<PeerHandle>, failed: Seq<(usize, PeerHandle)>, slot: usize) -> bool {
    exists|j: int| 0 <= j < providers.len() && !failed.contains((slot, #[trigger] providers[j]))
}

/// `p` is the first entry of `providers` that has not failed to deliver chunk `slot`.
pub open spec fn first_untried(
    providers: Seq<PeerHandle>,
    failed: Seq<(usize, PeerHandle)>,
    slot: usize,
    p: PeerHandle,
) -> bool {
    exists|j: int|
        0 <= j < providers.len() && providers[j] == p && !failed.contains((slot, p)) && forall|k: int|
            0 <= k < j ==> failed.contains((slot, #[trigger] providers[k]))
}

/// The acquisition of one video.
#[derive(Debug)]
pub struct AcquireSession {
    pub video_hash: ContentId,
    /// Identifier of each chunk, by position.
    pub chunk_hashes: Vec<ContentId>,
    /// Where each chunk stands, by position.
    pub states: Vec<SlotState>,
    /// Pairs of chunk position and peer that failed to deliver it in the
    /// current round of discovery.
    pub failed: Vec<(usize, PeerHandle)>,
    /// Largest number of chunks fetched at once.
    pub fan_out: usize,
    /// Rounds of discovery without progress after which acquisition fails.
    pub max_idle_rounds: u64,
    /// Rounds of discovery so far without progress.
    pub idle_rounds: u64,
    /// Whether a chunk was stored since the last round of discovery.
    pub progressed: bool,
    pub cancelled: bool,
}

impl AcquireSession {
    /// The positions line up.
    pub open spec fn wf(&self) -> bool {
        self.chunk_hashes@.len() == self.states@.len()
    }

    /// A session for the video described by `metadata`; chunks already in
    /// `store` count as done.
    pub fn new(metadata: &VideoMetadata, store: &Storage, fan_out: usize, max_idle_rounds: u64) -> (r:
        AcquireSession)
        requires
            store.wf(),
        ensures
            r.wf(),
            r.video_hash@ == metadata.hash@,
            r.states@.len() == metadata.chunks@.len(),
            forall|i: int|
                0 <= i < r.states@.len() ==> {
                    &&& (#[trigger] r.chunk_hashes@[i])@ == metadata.chunks@[i].hash@
                    &&& r.states@[i] == if store.chunk_map().contains_key(metadata.chunks@[i].hash@) {
                        SlotState::Done
                    } else {
                        SlotState::Missing
                    }
                },
            r.failed@.len() == 0,
            r.fan_out == fan_out,
            r.max_idle_rounds == max_idle_rounds,
            r.idle_rounds == 0,
            !r.progressed,
            !r.cancelled,
    {
        let mut chunk_hashes: Vec<ContentId> = Vec::new();
        let mut states: Vec<SlotState> = Vec::new();
        let mut i: usize = 0;
        while i < metadata.chunks.len()
            invariant
                store.wf(),
                i <= metadata.chunks@.len(),
                chunk_hashes@.len() == i,
                states@.len() == i,
                forall|k: int|
                    0 <= k < i ==> {
                        &&& (#[trigger] chunk_hashes@[k])@ == metadata.chunks@[k].hash@
                        &&& states@[k] == if store.chunk_map().contains_key(metadata.chunks@[k].hash@) {
                            SlotState::Done
                        } else {
                            SlotState::Missing
                        }
                    },
            decreases metadata.chunks.len() - i,
        {
            let h = &metadata.chunks[i].hash;
            let state = if store.has_chunk(h) {
                SlotState::Done
            } else {
                SlotState::Missing
            };
            let hc: String = h.clone();
            let ghost hs0 = chunk_hashes@;
            let ghost st0 = states@;
            chunk_hashes.push(hc);
            states.push(state);
            assert forall|k: int| 0 <= k < i implies chunk_hashes@[k] == hs0[k] && states@[k] == st0[k] by {}
            i = i + 1;
        }
        AcquireSession {
            video_hash: metadata.hash.clone(),
            chunk_hashes,
            states,
            failed: Vec::new(),
            fan_out,
            max_idle_rounds,
            idle_rounds: 0,
            progressed: false,
            cancelled: false,
        }
    }

    /// The number of chunks being fetched.
    pub fn in_flight(&self) -> (r: usize)
        ensures
            r == in_flight_count(self.states@),
    {
        let mut n: usize = 0;
        let mut i: usize = 0;
        while i < self.states.len()
            invariant
                i <= self.states@.len(),
                n == in_flight_count(self.states@.subrange(0, i as int)),
                n <= i,
            decreases self.states.len() - i,
        {
            proof {
                let a = self.states@.subrange(0, i as int + 1);
                assert(a.drop_last() =~= self.states@.subrange(0, i as int));
            }
            if let SlotState::InFlight(_) = self.states[i] {
                n = n + 1;
            }
            i = i + 1;
        }
        assert(self.states@.subrange(0, i as int) =~= self.states@);
        n
    }

    /// Whether every chunk is stored.
    pub fn is_complete(&self) -> (r: bool)
        ensures
            r == forall|i: int| 0 <= i < self.states@.len() ==> (#[trigger] self.states@[i]) == SlotState::Done,
    {
        let mut i: usize = 0;
        while i < self.states.len()
            invariant
                i <= self.states@.len(),
                forall|k: int| 0 <= k < i ==> (#[trigger] self.states@[k]) == SlotState::Done,
            decreases self.states.len() - i,
        {
            if self.states[i] != SlotState::Done {
                return false;
            }
            i = i + 1;
        }
        true
    }

    /// The positions of the chunks that are neither stored nor being fetched,
    /// in order: those for which the caller looks up providers.
    pub fn missing(&self) -> (r: Vec<usize>)
        ensures
            forall|k: int| 0 <= k < r@.len() ==> (#[trigger] r@[k]) < self.states@.len()
                && self.states@[r@[k] as int] == SlotState::Missing,
            forall|i: int|
                0 <= i < self.states@.len() && (#[trigger] self.states@[i]) == SlotState::Missing
                    ==> r@.contains(i as usize),
            forall|a: int, b: int| 0 <= a < b < r@.len() ==> r@[a] < r@[b],
    {
        let mut r: Vec<usize> = Vec::new();
        let mut i: usize = 0;
        while i < self.states.len()
            invariant
                i <= self.states@.len(),
                forall|k: int| 0 <= k < r@.len() ==> (#[trigger] r@[k]) < i
                    && self.states@[r@[k] as int] == SlotState::Missing,
                forall|j: int|
                    0 <= j < i && (#[trigger] self.states@[j]) == SlotState::Missing
                        ==> r@.contains(j as usize),
                forall|a: int, b: int| 0 <= a < b < r@.len() ==> r@[a] < r@[b],
            decreases self.states.len() - i,
        {
            if self.states[i] == SlotState::Missing {
                let ghost before = r@;
                r.push(i);
                assert(r@[r@.len() - 1] == i);
                assert forall|j: int|
                    0 <= j < i && (#[trigger] self.states@[j]) == SlotState::Missing
                        implies r@.contains(j as usize) by {
                    let a = choose|a: int| 0 <= a < before.len() && before[a] == j as usize;
                    assert(r@[a] == before[a]);
                }
            }
            i = i + 1;
        }
        r
    }

    /// The video, its chunks and the limits are those of `other`.
    pub open spec fn same_plan(&self, other: &AcquireSession) -> bool {
        &&& self.video_hash@ == other.video_hash@
        &&& self.chunk_hashes@ == other.chunk_hashes@
        &&& self.fan_out == other.fan_out
        &&& self.max_idle_rounds == other.max_idle_rounds
    }

    /// Whether `p` failed to deliver chunk `slot` in this round.
    pub fn has_failed(&self, slot: usize, p: PeerHandle) -> (r: bool)
        ensures
            r == self.failed@.contains((slot, p)),
    {
        let mut i: usize = 0;
        while i < self.failed.len()
            invariant
                i <= self.failed@.len(),
                forall|k: int| 0 <= k < i ==> self.failed@[k] != (slot, p),
            decreases self.failed.len() - i,
        {
            let (s, q) = self.failed[i];
            if s == slot && q == p {
                assert(self.failed@[i as int] == (slot, p));
                return true;
            }
            i = i + 1;
        }
        false
    }

    /// Picks the peer to fetch chunk `slot` from: the first of `providers` that
    /// has not failed for it in this round. Nothing is picked once cancelled,
    /// with `fan_out` fetches under way, or for a chunk that is stored or
    /// being fetched. The chunk is then being fetched from the peer picked.
    pub fn next_fetch(&mut self, slot: usize, providers: &Vec<PeerHandle>) -> (r: Option<PeerHandle>)
        requires
            old(self).wf(),
        ensures
            final(self).wf(),
            final(self).same_plan(old(self)),
            final(self).failed@ == old(self).failed@,
            final(self).idle_rounds == old(self).idle_rounds,
            final(self).progressed == old(self).progressed,
            final(self).cancelled == old(self).cancelled,
            r is Some <==> {
                &&& !old(self).cancelled
                &&& in_flight_count(old(self).states@) < old(self).fan_out
                &&& slot < old(self).states@.len()
                &&& old(self).states@[slot as int] == SlotState::Missing
                &&& has_untried(providers@, old(self).failed@, slot)
            },
            r matches Some(p) ==> first_untried(providers@, old(self).failed@, slot, p)
                && final(self).states@ == old(self).states@.update(slot as int, SlotState::InFlight(p)),
            r is None ==> final(self).states@ == old(self).states@,
    {
        if self.cancelled || slot >= self.states.len() || self.states[slot] != SlotState::Missing {
            return None;
        }
        if self.in_flight() >= self.fan_out {
            return None;
        }
        let mut j: usize = 0;
        while j < providers.len()
            invariant
                *self == *old(self),
                self.wf(),
                slot < self.states@.len(),
                self.states@[slot as int] == SlotState::Missing,
                !self.cancelled,
                in_flight_count(self.states@) < self.fan_out,
                j <= providers@.len(),
                forall|k: int| 0 <= k < j ==> self.failed@.contains((slot, #[trigger] providers@[k])),
            decreases providers.len() - j,
        {
            let p = providers[j];
            if !self.has_failed(slot, p) {
                self.states.set(slot, SlotState::InFlight(p));
                assert(providers@[j as int] == p);
                return Some(p);
            }
            j = j + 1;
        }
        None
    }

    /// Records that chunk `slot` has been stored. Storing a chunk that was not
    /// stored before counts as progress.
    pub fn on_delivered(&mut self, slot: usize)
        requires
            old(self).wf(),
            slot < old(self).states@.len(),
        ensures
            final(self).wf(),
            final(self).same_plan(old(self)),
            final(self).failed@ == old(self).failed@,
            final(self).idle_rounds == old(self).idle_rounds,
            final(self).cancelled == old(self).cancelled,
            final(self).states@ == old(self).states@.update(slot as int, SlotState::Done),
            final(self).progressed == (old(self).progressed || old(self).states@[slot as int]
                != SlotState::Done),
    {
        if self.states[slot] != SlotState::Done {
            self.progressed = true;
        }
        self.states.set(slot, SlotState::Done);
    }

    /// Records that the fetch of chunk `slot` failed (it timed out, errored or
    /// did not verify): the chunk is missing again and its peer is not asked
    /// for it again in this round.
    pub fn on_failed(&mut self, slot: usize)
        requires
            old(self).wf(),
            slot < old(self).states@.len(),
        ensures
            final(self).wf(),
            final(self).same_plan(old(self)),
            final(self).idle_rounds == old(self).idle_rounds,
            final(self).progressed == old(self).progressed,
            final(self).cancelled == old(self).cancelled,
            old(self).states@[slot as int] matches SlotState::InFlight(p) ==> final(self).states@
                == old(self).states@.update(slot as int, SlotState::Missing) && final(self).failed@
                == old(self).failed@.push((slot, p)),
            !(old(self).states@[slot as int] is InFlight) ==> final(self).states@ == old(
                self,
            ).states@ && final(self).failed@ == old(self).failed@,
    {
        if let SlotState::InFlight(p) = self.states[slot] {
            self.states.set(slot, SlotState::Missing);
            self.failed.push((slot, p));
        }
    }

    /// Stops issuing new fetches; those under way may still be delivered.
    pub fn cancel(&mut self)
        ensures
            final(self).cancelled,
            final(self).same_plan(old(self)),
            final(self).states@ == old(self).states@,
            final(self).failed@ == old(self).failed@,
            final(self).idle_rounds == old(self).idle_rounds,
            final(self).progressed == old(self).progressed,
    {
        self.cancelled = true;
    }

    /// Closes a round of discovery, after which the caller looks up providers
    /// again. When `store` holds every chunk of the video the session reports
    /// `Complete`; otherwise a cancelled one reports `Cancelled`. Otherwise the
    /// peers that failed become eligible again; a round with progress resets
    /// the count of idle rounds, and a round without adds one to it, failing
    /// with `Unreachable` once it reaches `max_idle_rounds`.
    pub fn end_round(&mut self, store: &Storage) -> (r: Result<SessionStatus, KnapError>)
        requires
            old(self).wf(),
            store.wf(),
        ensures
            final(self).wf(),
            final(self).same_plan(old(self)),
            final(self).states@ == old(self).states@,
            final(self).cancelled == old(self).cancelled,
            store.complete(old(self).video_hash@) ==> r == Ok::<SessionStatus, KnapError>(
                SessionStatus::Complete,
            ) && final(self).failed@ == old(self).failed@ && final(self).idle_rounds == old(
                self,
            ).idle_rounds && final(self).progressed == old(self).progressed,
            !store.complete(old(self).video_hash@) ==> {
                if old(self).cancelled {
                    &&& r == Ok::<SessionStatus, KnapError>(SessionStatus::Cancelled)
                    &&& final(self).failed@ == old(self).failed@
                    &&& final(self).idle_rounds == old(self).idle_rounds
                    &&& final(self).progressed == old(self).progressed
                } else {
                    &&& final(self).failed@.len() == 0
                    &&& !final(self).progressed
                    &&& final(self).idle_rounds == if old(self).progressed {
                        0
                    } else if old(self).idle_rounds < u64::MAX {
                        old(self).idle_rounds + 1
                    } else {
                        u64::MAX as int
                    }
                    &&& r == if final(self).idle_rounds >= old(self).max_idle_rounds {
                        Err::<SessionStatus, KnapError>(KnapError::Unreachable)
                    } else {
                        Ok::<SessionStatus, KnapError>(SessionStatus::Running)
                    }
                }
            },
    {
        if store.has_all_chunks(&self.video_hash) {
            return Ok(SessionStatus::Complete);
        }
        if self.cancelled {
            return Ok(SessionStatus::Cancelled);
        }
        if self.progressed {
            self.idle_rounds = 0;
        } else {
            self.idle_rounds = self.idle_rounds.saturating_add(1);
        }
        self.progressed = false;
        self.failed = Vec::new();
        if self.idle_rounds >= self.max_idle_rounds {
            Err(KnapError::Unreachable)
        } else {
            Ok(SessionStatus::Running)
        }
    }
}

/// Accepts metadata that a peer sent for video `expected`: it is stored when
/// it carries that identifier and is valid, and is otherwise refused as an
/// `IntegrityViolation`, leaving the store as it was.
pub fn accept_metadata(store: &mut Storage, expected: &String, m: VideoMetadata) -> (r: Result<(), KnapError>)
    requires
        old(store).wf(),
    ensures
        final(store).wf(),
        r is Ok <==> (m.hash@ == expected@ && m.is_valid()),
        r matches Err(e) ==> e == KnapError::IntegrityViolation && final(store).video_map() == old(
            store,
        ).video_map(),
        r is Ok ==> final(store).video_map() == old(store).video_map().insert(m.hash@, m@),
        final(store).chunk_map() == old(store).chunk_map(),
{
    if m.hash != *expected || !m.validate() {
        return Err(KnapError::IntegrityViolation);
    }
    store.store_video(m);
    Ok(())
}

/// Whether a search has heard enough: a quorum of the peers asked has
/// answered, every peer asked has answered, or the time budget is spent.
pub fn locate_finished(answered: usize, asked: usize, quorum: usize, now: u64, deadline: u64) -> (r: bool)
    ensures
        r == (answered >= quorum || answered >= asked || now >= deadline),
{
    answered >= quorum || answered >= asked || now >= deadline
}

/// Some peer returned video metadata with view `m`.
pub open spec fn received(responses: Seq<Vec<VideoMetadata>>, m: VideoView) -> bool {
    exists|x: int, y: int|
        0 <= x < responses.len() && 0 <= y < responses[x]@.len() && (#[trigger] responses[x]@[y])@ == m
}

/// Some entry of `r` carries video identifier `h`.
pub open spec fn listed(r: Seq<VideoMetadata>, h: Seq<char>) -> bool {
    exists|i: int| 0 <= i < r.len() && (#[trigger] r[i]).hash@ == h
}

/// The union of the search results that peers returned, one entry per video
/// identifier, the first received kept, in the order received.
pub fn merge_search_results(responses: &Vec<Vec<VideoMetadata>>) -> (r: Vec<VideoMetadata>)
    ensures
        forall|i: int| 0 <= i < r@.len() ==> #[trigger] received(responses@, r@[i]@),
        forall|a: int, b: int|
            0 <= a < responses@.len() && 0 <= b < responses@[a]@.len() ==> listed(
                r@,
                (#[trigger] responses@[a]@[b]).hash@,
            ),
        forall|i: int, j: int|
            0 <= i < j < r@.len() ==> (#[trigger] r@[i]).hash@ != (#[trigger] r@[j]).hash@,
{
    let mut r: Vec<VideoMetadata> = Vec::new();
    let mut a: usize = 0;
    while a < responses.len()
        invariant
            a <= responses@.len(),
            forall|i: int| 0 <= i < r@.len() ==> #[trigger] received(responses@, r@[i]@),
            forall|x: int, y: int|
                0 <= x < a && 0 <= y < responses@[x]@.len() ==> listed(
                    r@,
                    (#[trigger] responses@[x]@[y]).hash@,
                ),
            forall|i: int, j: int|
                0 <= i < j < r@.len() ==> (#[trigger] r@[i]).hash@ != (#[trigger] r@[j]).hash@,
        decreases responses.len() - a,
    {
        let list = &responses[a];
        let mut b: usize = 0;
        while b < list.len()
            invariant
                a < responses@.len(),
                *list == responses@[a as int],
                b <= list@.len(),
                forall|i: int| 0 <= i < r@.len() ==> #[trigger] received(responses@, r@[i]@),
                forall|x: int, y: int|
                    ((0 <= x < a && 0 <= y < responses@[x]@.len()) || (x == a && 0 <= y < b)) ==> listed(
                        r@,
                        (#[trigger] responses@[x]@[y]).hash@,
                    ),
                forall|i: int, j: int|
                    0 <= i < j < r@.len() ==> (#[trigger] r@[i]).hash@ != (#[trigger] r@[j]).hash@,
            decreases list.len() - b,
        {
            let m = &list[b];
            assert(responses@[a as int]@[b as int] == *m);
            let mut seen = false;
            let mut k: usize = 0;
            while k < r.len()
                invariant
                    k <= r@.len(),
                    !seen ==> forall|t: int| 0 <= t < k ==> (#[trigger] r@[t]).hash@ != m.hash@,
                    seen ==> listed(r@, m.hash@),
                decreases r.len() - k,
            {
                if r[k].hash == m.hash {
                    seen = true;
                }
                k = k + 1;
            }
            let ghost before = r@;
            if !seen {
                let c = m.duplicate();
                r.push(c);
                proof {
                    assert(r@[r@.len() - 1] == c);
                    assert forall|i: int| 0 <= i < r@.len() implies #[trigger] received(responses@, r@[i]@) by {
                        if i < before.len() {
                            assert(r@[i] == before[i]);
                            assert(received(responses@, before[i]@));
                        }
                    }
                    assert(listed(r@, m.hash@));
                }
            }
            proof {
                assert forall|x: int, y: int|
                    ((0 <= x < a && 0 <= y < responses@[x]@.len()) || (x == a && 0 <= y < b + 1)) implies listed(
                        r@,
                        (#[trigger] responses@[x]@[y]).hash@,
                    ) by {
                    if !(x == a && y == b) {
                        assert(listed(before, responses@[x]@[y].hash@));
                        let i = choose|i: int| 0 <= i < before.len() && (#[trigger] before[i]).hash@ == responses@[x]@[y].hash@;
                        assert(r@[i] == before[i]);
                    }
                }
            }
            b = b + 1;
        }
        a = a + 1;
    }
    r
}

} // verus!
