//! The registry of sounding voices.
//!
//! A voice pairs the caller's output handle with the state of its envelope.
//! The registry never touches a handle: it keeps it while the voice lives,
//! drops it when the voice is replaced or removed, and tells the caller
//! which gain each voice is to be given.

use crate::envelope::{lemma_release_idempotent, Envelope, EnvelopeState, GAIN_ONE};
use std::collections::HashMap;
use vstd::prelude::*;

verus! {

broadcast use vstd::std_specs::hash::group_hash_axioms;

/// One sounding note.
pub struct Voice<H> {
    pub handle: H,
    pub state: EnvelopeState,
}

/// The gain a voice is to be given.
#[derive(Clone, Copy, Debug, PartialEq, Eq, Structural)]
pub struct GainUpdate {
    pub source_id: u8,
    pub gain: u64,
}

/// The voices after `source_id` is triggered at `now`: a fresh voice for that
/// id, in place of any voice it had.
pub open spec fn triggered<H>(
    voices: Map<u8, Voice<H>>,
    source_id: u8,
    handle: H,
    envelope: Envelope,
    now: u64,
) -> Map<u8, Voice<H>> {
    voices.insert(source_id, Voice { handle, state: EnvelopeState::started(envelope, now) })
}

/// The voices after a release request for `source_id` at `now`: its voice,
/// if it has one, is released; nothing else changes.
pub open spec fn released<H>(voices: Map<u8, Voice<H>>, source_id: u8, now: u64) -> Map<
    u8,
    Voice<H>,
> {
    if voices.contains_key(source_id) {
        voices.insert(
            source_id,
            Voice {
                handle: voices[source_id].handle,
                state: voices[source_id].state.released(now),
            },
        )
    } else {
        voices
    }
}

/// The voices after a release request for every id at `now`.
pub open spec fn all_released<H>(voices: Map<u8, Voice<H>>, now: u64) -> Map<u8, Voice<H>> {
    Map::new(
        |id: u8| voices.contains_key(id),
        |id: u8| Voice { handle: voices[id].handle, state: voices[id].state.released(now) },
    )
}

/// The voices that are kept at `now`: those that have not finished.
pub open spec fn survivors<H>(voices: Map<u8, Voice<H>>, now: u64) -> Map<u8, Voice<H>> {
    Map::new(
        |id: u8| voices.contains_key(id) && !voices[id].state.finished_at(now),
        |id: u8| voices[id],
    )
}

/// Whether `gains` lists the gain at `now` of every voice, once each, by
/// rising id.
pub open spec fn gains_of<H>(gains: Seq<GainUpdate>, voices: Map<u8, Voice<H>>, now: u64) -> bool {
    &&& forall|k: int|
        0 <= k < gains.len() ==> voices.contains_key((#[trigger] gains[k]).source_id)
            && gains[k].gain == voices[gains[k].source_id].state.gain_at(now)
    &&& forall|j: int, k: int|
        0 <= j < k < gains.len() ==> (#[trigger] gains[j]).source_id < (
        #[trigger] gains[k]).source_id
    &&& forall|id: u8| #[trigger]
        voices.contains_key(id) ==> exists|k: int|
            0 <= k < gains.len() && (#[trigger] gains[k]).source_id == id
}

/// The voice registry.
pub struct Synth<H> {
    voices: HashMap<u8, Voice<H>>,
}

impl<H> View for Synth<H> {
    type V = Map<u8, Voice<H>>;

    closed spec fn view(&self) -> Map<u8, Voice<H>> {
        self.voices@
    }
}

impl<H> Synth<H> {
    /// A registry without voices.
    pub fn new() -> (s: Synth<H>)
        ensures
            s@ == Map::<u8, Voice<H>>::empty(),
    {
        Synth { voices: HashMap::new() }
    }

    /// Triggers a voice for `source_id` at `now`, replacing and dropping the
    /// voice the id had, if any.
    pub fn play_source(&mut self, handle: H, source_id: u8, envelope: Envelope, now: u64)
        ensures
            final(self)@ == triggered(old(self)@, source_id, handle, envelope, now),
    {
        let state = EnvelopeState::new(envelope, now);
        self.voices.insert(source_id, Voice { handle, state });
    }

    /// Requests the release of the voice of `source_id` at `now`. Without
    /// such a voice, or with one that is already releasing, nothing changes.
    pub fn release_source(&mut self, source_id: u8, now: u64)
        ensures
            final(self)@ == released(old(self)@, source_id, now),
    {
        match self.voices.remove(&source_id) {
            Some(voice) => {
                let mut voice = voice;
                voice.state.release(now);
                self.voices.insert(source_id, voice);
                assert(self.voices@ =~= released(old(self)@, source_id, now));
            },
            None => {
                assert(self.voices@ =~= old(self)@);
            },
        }
    }

    /// Requests the release of every voice at `now`, as when playback is
    /// cancelled: held voices start their release and then fade out and are
    /// removed by the ticks that follow; releasing voices are left as they
    /// are.
    pub fn release_all(&mut self, now: u64)
        ensures
            final(self)@ == all_released(old(self)@, now),
    {
        let mut next: u16 = 0;
        while next < 256
            invariant
                next <= 256,
                forall|id: u8| self@.contains_key(id) <==> old(self)@.contains_key(id),
                forall|id: u8|
                    id < next && #[trigger] self@.contains_key(id) ==> self@[id] == (Voice {
                        handle: old(self)@[id].handle,
                        state: old(self)@[id].state.released(now),
                    }),
                forall|id: u8|
                    id >= next && #[trigger] self@.contains_key(id) ==> self@[id] == old(
                        self,
                    )@[id],
            decreases 256 - next,
        {
            self.release_source(next as u8, now);
            next = next + 1;
        }
        assert(self@ =~= all_released(old(self)@, now));
    }

    /// One tick of the registry at `now`: reports the gain of every voice and
    /// then removes, and drops, the voices that have finished.
    pub fn update(&mut self, now: u64) -> (gains: Vec<GainUpdate>)
        ensures
            gains_of(gains@, old(self)@, now),
            final(self)@ == survivors(old(self)@, now),
    {
        let mut gains: Vec<GainUpdate> = Vec::new();
        let mut to_remove: Vec<u8> = Vec::new();
        let mut next: u16 = 0;
        while next < 256
            invariant
                next <= 256,
                self.voices@ == old(self)@,
                forall|k: int|
                    0 <= k < gains.len() ==> (#[trigger] gains[k]).source_id < next
                        && self.voices@.contains_key(gains[k].source_id) && gains[k].gain
                        == self.voices@[gains[k].source_id].state.gain_at(now),
                forall|j: int, k: int|
                    0 <= j < k < gains.len() ==> (#[trigger] gains[j]).source_id < (
                    #[trigger] gains[k]).source_id,
                forall|id: u8| #[trigger]
                    self.voices@.contains_key(id) && id < next ==> exists|k: int|
                        0 <= k < gains.len() && (#[trigger] gains[k]).source_id == id,
                forall|k: int|
                    0 <= k < to_remove.len() ==> self.voices@.contains_key(#[trigger] to_remove[k])
                        && self.voices@[to_remove[k]].state.finished_at(now),
                forall|id: u8| #[trigger]
                    self.voices@.contains_key(id) && id < next && self.voices@[id].state.finished_at(
                        now,
                    ) ==> exists|k: int| 0 <= k < to_remove.len() && #[trigger] to_remove[k] == id,
            decreases 256 - next,
        {
            let source_id: u8 = next as u8;
            match self.voices.get(&source_id) {
                Some(voice) => {
                    let gain: u64 = voice.state.gain(now);
                    let done: bool = voice.state.is_finished(now);
                    let ghost before = gains@;
                    gains.push(GainUpdate { source_id, gain });
                    proof {
                        assert forall|id: u8| #[trigger]
                            self.voices@.contains_key(id) && id < next + 1 implies exists|k: int|
                            0 <= k < gains.len() && (#[trigger] gains[k]).source_id == id by {
                            if id == source_id {
                                assert(gains[gains.len() - 1].source_id == id);
                            } else {
                                let k = choose|k: int|
                                    0 <= k < before.len() && (#[trigger] before[k]).source_id
                                        == id;
                                assert(gains[k].source_id == id);
                            }
                        }
                    }
                    if done {
                        let ghost listed = to_remove@;
                        to_remove.push(source_id);
                        proof {
                            assert forall|id: u8| #[trigger]
                                self.voices@.contains_key(id) && id < next + 1
                                    && self.voices@[id].state.finished_at(now) implies exists|
                                k: int,
                            | 0 <= k < to_remove.len() && #[trigger] to_remove[k] == id by {
                                if id == source_id {
                                    assert(to_remove[to_remove.len() - 1] == id);
                                } else {
                                    let k = choose|k: int|
                                        0 <= k < listed.len() && #[trigger] listed[k] == id;
                                    assert(to_remove[k] == id);
                                }
                            }
                        }
                    }
                },
                None => {},
            }
            next = next + 1;
        }
        let mut i: usize = 0;
        while i < to_remove.len()
            invariant
                i <= to_remove.len(),
                forall|k: int|
                    0 <= k < to_remove.len() ==> old(self)@.contains_key(#[trigger] to_remove[k])
                        && old(self)@[to_remove[k]].state.finished_at(now),
                forall|id: u8| #[trigger]
                    self.voices@.contains_key(id) <==> old(self)@.contains_key(id) && !exists|
                        k: int,
                    | 0 <= k < i && #[trigger] to_remove[k] == id,
                forall|id: u8| #[trigger]
                    self.voices@.contains_key(id) ==> self.voices@[id] == old(self)@[id],
            decreases to_remove.len() - i,
        {
            let source_id: u8 = to_remove[i];
            let ghost map_before = self.voices@;
            self.voices.remove(&source_id);
            proof {
                assert forall|id: u8| #[trigger]
                    self.voices@.contains_key(id) <==> old(self)@.contains_key(id) && !exists|
                        k: int,
                    | 0 <= k < i + 1 && #[trigger] to_remove[k] == id by {
                    if id == source_id {
                        assert(to_remove[i as int] == id);
                    } else if map_before.contains_key(id) {
                        if exists|k: int| 0 <= k < i + 1 && #[trigger] to_remove[k] == id {
                            let k = choose|k: int| 0 <= k < i + 1 && #[trigger] to_remove[k] == id;
                            assert(k < i);
                        }
                    } else if old(self)@.contains_key(id) {
                        let k = choose|k: int| 0 <= k < i && #[trigger] to_remove[k] == id;
                        assert(0 <= k < i + 1 && to_remove[k] == id);
                    }
                }
            }
            i = i + 1;
        }
        proof {
            assert forall|id: u8|
                self.voices@.contains_key(id) <==> survivors(old(self)@, now).contains_key(
                    id,
                ) by {
                if old(self)@.contains_key(id) && old(self)@[id].state.finished_at(now) {
                    let k = choose|k: int| 0 <= k < to_remove.len() && #[trigger] to_remove[k] == id;
                    assert(to_remove[k] == id);
                } else if old(self)@.contains_key(id) {
                    if exists|k: int| 0 <= k < i && #[trigger] to_remove[k] == id {
                        let k = choose|k: int| 0 <= k < i && #[trigger] to_remove[k] == id;
                        assert(old(self)@[to_remove[k]].state.finished_at(now));
                    }
                }
            }
            assert(self.voices@ =~= survivors(old(self)@, now));
        }
        gains
    }

    /// Whether `source_id` has a voice.
    pub fn contains(&self, source_id: u8) -> (r: bool)
        ensures
            r == self@.contains_key(source_id),
    {
        self.voices.contains_key(&source_id)
    }

    /// The number of voices.
    pub fn len(&self) -> (n: usize)
        ensures
            n == self@.len(),
    {
        self.voices.len()
    }

    /// The output handle of the voice of `source_id`.
    pub fn handle(&self, source_id: u8) -> (r: Option<&H>)
        ensures
            match r {
                Some(h) => self@.contains_key(source_id) && *h == self@[source_id].handle,
                None => !self@.contains_key(source_id),
            },
    {
        match self.voices.get(&source_id) {
            Some(voice) => Some(&voice.handle),
            None => None,
        }
    }

    /// The envelope state of the voice of `source_id`.
    pub fn state(&self, source_id: u8) -> (r: Option<EnvelopeState>)
        ensures
            match r {
                Some(s) => self@.contains_key(source_id) && s == self@[source_id].state,
                None => !self@.contains_key(source_id),
            },
    {
        match self.voices.get(&source_id) {
            Some(voice) => Some(voice.state),
            None => None,
        }
    }
}

/// Releasing a voice twice is releasing it once: the second request leaves
/// every voice, and the time of the first release, as they were.
pub proof fn lemma_release_twice<H>(
    voices: Map<u8, Voice<H>>,
    source_id: u8,
    first: u64,
    second: u64,
)
    ensures
        released(released(voices, source_id, first), source_id, second) == released(
            voices,
            source_id,
            first,
        ),
{
    if voices.contains_key(source_id) {
        lemma_release_idempotent(voices[source_id].state, first, second);
    }
    assert(released(released(voices, source_id, first), source_id, second) =~= released(
        voices,
        source_id,
        first,
    ));
}

/// Triggering an id twice leaves what triggering it the second time alone
/// would: one voice for the id, with the second handle and envelope, and the
/// other voices untouched.
pub proof fn lemma_trigger_twice<H>(
    voices: Map<u8, Voice<H>>,
    source_id: u8,
    first: (H, Envelope, u64),
    second: (H, Envelope, u64),
)
    ensures
        triggered(
            triggered(voices, source_id, first.0, first.1, first.2),
            source_id,
            second.0,
            second.1,
            second.2,
        ) == triggered(voices, source_id, second.0, second.1, second.2),
        triggered(voices, source_id, second.0, second.1, second.2).dom() == voices.dom().insert(
            source_id,
        ),
        triggered(voices, source_id, second.0, second.1, second.2)[source_id] == (Voice {
            handle: second.0,
            state: EnvelopeState::started(second.1, second.2),
        }),
{
    assert(triggered(
        triggered(voices, source_id, first.0, first.1, first.2),
        source_id,
        second.0,
        second.1,
        second.2,
    ) =~= triggered(voices, source_id, second.0, second.1, second.2));
    assert(triggered(voices, source_id, second.0, second.1, second.2).dom() =~= voices.dom().insert(
        source_id,
    ));
}

/// Releasing an id that has no voice changes nothing and makes no voice.
pub proof fn lemma_release_unknown<H>(voices: Map<u8, Voice<H>>, source_id: u8, now: u64)
    requires
        !voices.contains_key(source_id),
    ensures
        released(voices, source_id, now) == voices,
        !released(voices, source_id, now).contains_key(source_id),
{
}

/// A release request never adds or removes a voice, whatever the id.
pub proof fn lemma_release_keeps_ids<H>(voices: Map<u8, Voice<H>>, source_id: u8, now: u64)
    ensures
        released(voices, source_id, now).dom() == voices.dom(),
{
    assert(released(voices, source_id, now).dom() =~= voices.dom());
}

/// Every gain a tick reports is between nothing and full scale.
pub proof fn lemma_reported_gains_in_range<H>(
    gains: Seq<GainUpdate>,
    voices: Map<u8, Voice<H>>,
    now: u64,
    k: int,
)
    requires
        gains_of(gains, voices, now),
        0 <= k < gains.len(),
    ensures
        0 <= gains[k].gain <= GAIN_ONE,
{
    let state = voices[gains[k].source_id].state;
    crate::envelope::lemma_gain_in_range(
        state.envelope,
        state.since_start(now),
        state.since_release(now),
    );
}

} // verus!
