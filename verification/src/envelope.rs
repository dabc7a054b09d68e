//! Attack-decay-sustain-release amplitude shaping.
//!
//! Durations are microseconds; gain is a fixed-point fraction in which
//! [`GAIN_ONE`] stands for full scale.

use vstd::prelude::*;

verus! {

/// The fixed-point value of a gain of one.
pub const GAIN_ONE: u64 = 1_000_000;

/// How long, in microseconds, a voice is kept after its release ramp has ended.
pub const RELEASE_MARGIN_US: u64 = 100_000;

/// The four parameters of an envelope.
///
/// `attack`, `decay` and `release` are durations in microseconds; a duration of
/// zero makes its phase an instantaneous jump. `sustain` is a gain in
/// millionths; values above [`GAIN_ONE`] act as [`GAIN_ONE`].
#[derive(Clone, Copy, Debug, PartialEq, Eq, Structural)]
pub struct Envelope {
    pub attack: u64,
    pub decay: u64,
    pub sustain: u64,
    pub release: u64,
}

/// Where a voice is in its life.
#[derive(Clone, Copy, Debug, PartialEq, Eq, Structural)]
pub enum Phase {
    /// Ramping up to full scale.
    Attack,
    /// Ramping down from full scale to the sustain level.
    Decay,
    /// Held at the sustain level.
    Sustain,
    /// Released and past both ramps: fading out, or silent within the
    /// settling margin.
    Release,
    /// Released, faded out and past the settling margin: to be removed.
    Finished,
}

/// Reads an optional machine integer as an optional mathematical one.
pub open spec fn opt_int(t: Option<u64>) -> Option<int> {
    match t {
        Some(v) => Some(v as int),
        None => None,
    }
}

impl Envelope {
    /// The level held during the sustain phase: `sustain`, capped at full scale.
    pub open spec fn level(self) -> int {
        if self.sustain <= GAIN_ONE {
            self.sustain as int
        } else {
            GAIN_ONE as int
        }
    }

    /// The gain `elapsed` microseconds after the trigger.
    ///
    /// `since_release` is `None` while the note is held and otherwise the time
    /// since the release request. The phases are tried in order: attack ramp,
    /// decay ramp, then release ramp or the held sustain level. Ramps round
    /// the travelled distance down to a whole millionth.
    pub open spec fn gain_at(self, elapsed: int, since_release: Option<int>) -> int {
        if elapsed < self.attack {
            elapsed * GAIN_ONE / (self.attack as int)
        } else if elapsed < self.attack + self.decay {
            GAIN_ONE - (elapsed - self.attack) * (GAIN_ONE - self.level()) / (self.decay as int)
        } else {
            match since_release {
                Some(r) => {
                    if self.release == 0 {
                        0
                    } else {
                        let ramp = if r < self.release {
                            r
                        } else {
                            self.release as int
                        };
                        self.level() - ramp * self.level() / (self.release as int)
                    }
                },
                None => self.level(),
            }
        }
    }

    /// Whether a voice released `since_release` microseconds ago may be removed:
    /// the release ramp and the settling margin have both passed.
    pub open spec fn finished_at(self, since_release: Option<int>) -> bool {
        match since_release {
            Some(r) => r >= self.release + RELEASE_MARGIN_US,
            None => false,
        }
    }

    /// The phase of a voice `elapsed` microseconds after its trigger.
    ///
    /// A voice that may be removed is finished, whenever it was released.
    /// Otherwise the time since the trigger decides between attack and decay,
    /// also for a voice released that early; past both ramps a voice is in
    /// release once released and is sustained until then.
    pub open spec fn phase_at(self, elapsed: int, since_release: Option<int>) -> Phase {
        if self.finished_at(since_release) {
            Phase::Finished
        } else if elapsed < self.attack {
            Phase::Attack
        } else if elapsed < self.attack + self.decay {
            Phase::Decay
        } else if since_release is Some {
            Phase::Release
        } else {
            Phase::Sustain
        }
    }

    pub fn new(attack: u64, decay: u64, sustain: u64, release: u64) -> (e: Envelope)
        ensures
            e.attack == attack,
            e.decay == decay,
            e.sustain == sustain,
            e.release == release,
    {
        Envelope { attack, decay, sustain, release }
    }

    /// Computes [`Envelope::gain_at`].
    pub fn gain(&self, elapsed: u64, since_release: Option<u64>) -> (g: u64)
        ensures
            g == self.gain_at(elapsed as int, opt_int(since_release)),
            g <= GAIN_ONE,
    {
        let level: u64 = if self.sustain <= GAIN_ONE {
            self.sustain
        } else {
            GAIN_ONE
        };
        if elapsed < self.attack {
            let num: u128 = (elapsed as u128) * (GAIN_ONE as u128);
            let q: u128 = num / (self.attack as u128);
            proof {
                lemma_ramp_bounds(elapsed as int, self.attack as int, GAIN_ONE as int);
            }
            q as u64
        } else {
            let past: u64 = elapsed - self.attack;
            if past < self.decay {
                let span: u64 = GAIN_ONE - level;
                proof {
                    lemma_product_fits(past as int, span as int);
                }
                let num: u128 = (past as u128) * (span as u128);
                let fall: u128 = num / (self.decay as u128);
                proof {
                    lemma_ramp_bounds(past as int, self.decay as int, span as int);
                }
                GAIN_ONE - (fall as u64)
            } else {
                match since_release {
                    Some(r) => {
                        if self.release == 0 {
                            0
                        } else {
                            let ramp: u64 = if r < self.release {
                                r
                            } else {
                                self.release
                            };
                            proof {
                                lemma_product_fits(ramp as int, level as int);
                            }
                            let num: u128 = (ramp as u128) * (level as u128);
                            let fall: u128 = num / (self.release as u128);
                            proof {
                                lemma_ramp_bounds(ramp as int, self.release as int, level as int);
                            }
                            level - (fall as u64)
                        }
                    },
                    None => level,
                }
            }
        }
    }

    /// Computes [`Envelope::phase_at`].
    pub fn phase(&self, elapsed: u64, since_release: Option<u64>) -> (p: Phase)
        ensures
            p == self.phase_at(elapsed as int, opt_int(since_release)),
    {
        if self.finished(since_release) {
            Phase::Finished
        } else if elapsed < self.attack {
            Phase::Attack
        } else if elapsed - self.attack < self.decay {
            Phase::Decay
        } else if since_release.is_some() {
            Phase::Release
        } else {
            Phase::Sustain
        }
    }

    /// Computes [`Envelope::finished_at`].
    pub fn finished(&self, since_release: Option<u64>) -> (done: bool)
        ensures
            done == self.finished_at(opt_int(since_release)),
    {
        match since_release {
            Some(r) => r >= self.release && r - self.release >= RELEASE_MARGIN_US,
            None => false,
        }
    }
}

/// A time in microseconds multiplied by a gain stays far below the 128-bit
/// limit.
proof fn lemma_product_fits(t: int, g: int)
    requires
        0 <= t <= u64::MAX,
        0 <= g <= GAIN_ONE,
    ensures
        0 <= t * g <= u64::MAX * GAIN_ONE,
        t * g <= u128::MAX,
{
    assert(0 <= t * g <= u64::MAX * GAIN_ONE) by (nonlinear_arith)
        requires
            0 <= t <= u64::MAX,
            0 <= g <= GAIN_ONE,
    ;
}

/// A ramp that has covered no time has travelled no distance.
proof fn lemma_ramp_start(t: int, d: int, span: int)
    requires
        t == 0,
        0 < d,
    ensures
        t * span / d == 0,
{
    assert(t * span == 0) by (nonlinear_arith)
        requires
            t == 0,
    ;
}

/// A ramp that has covered `t` of `d` time units has travelled
/// `t * span / d` of its `span`, which is within the span and, strictly
/// before the end, short of it whenever the span is not empty.
pub proof fn lemma_ramp_bounds(t: int, d: int, span: int)
    requires
        0 <= t <= d,
        0 < d,
        0 <= span,
    ensures
        0 <= t * span,
        t * span <= d * span,
        0 <= t * span / d <= span,
        t < d && 0 < span ==> t * span / d < span,
{
    assert(0 <= t * span && t * span <= d * span) by (nonlinear_arith)
        requires
            0 <= t <= d,
            0 <= span,
    ;
    assert(0 <= t * span / d <= span) by (nonlinear_arith)
        requires
            0 <= t * span <= d * span,
            0 < d,
    ;
    if t < d && 0 < span {
        assert(t * span < d * span) by (nonlinear_arith)
            requires
                0 <= t < d,
                0 < span,
        ;
        assert(t * span / d < span) by (nonlinear_arith)
            requires
                0 <= t * span < d * span,
                0 < d,
        ;
    }
}

/// The envelope of one sounding voice: its parameters, when it was triggered
/// and, once released, when. Times are microseconds on the caller's clock.
#[derive(Clone, Copy, Debug, PartialEq, Eq, Structural)]
pub struct EnvelopeState {
    pub envelope: Envelope,
    pub start_time: u64,
    pub time_released: Option<u64>,
}

/// The time from `then` to `now`, and zero where `now` is the earlier.
pub open spec fn time_between(then: u64, now: u64) -> int {
    if now >= then {
        now - then
    } else {
        0
    }
}

impl EnvelopeState {
    /// The state of a voice triggered at `now`.
    pub open spec fn started(envelope: Envelope, now: u64) -> EnvelopeState {
        EnvelopeState { envelope, start_time: now, time_released: None }
    }

    pub open spec fn releasing(self) -> bool {
        self.time_released is Some
    }

    pub open spec fn since_start(self, now: u64) -> int {
        time_between(self.start_time, now)
    }

    pub open spec fn since_release(self, now: u64) -> Option<int> {
        match self.time_released {
            Some(t) => Some(time_between(t, now)),
            None => None,
        }
    }

    /// The state after a release request at `now`: a held voice starts its
    /// release, a voice already releasing is left as it is.
    pub open spec fn released(self, now: u64) -> EnvelopeState {
        if self.releasing() {
            self
        } else {
            EnvelopeState { time_released: Some(now), ..self }
        }
    }

    /// The gain of the voice at `now`.
    pub open spec fn gain_at(self, now: u64) -> int {
        self.envelope.gain_at(self.since_start(now), self.since_release(now))
    }

    /// The phase of the voice at `now`.
    pub open spec fn phase_at(self, now: u64) -> Phase {
        self.envelope.phase_at(self.since_start(now), self.since_release(now))
    }

    /// Whether the voice may be removed at `now`.
    pub open spec fn finished_at(self, now: u64) -> bool {
        self.envelope.finished_at(self.since_release(now))
    }

    pub fn new(envelope: Envelope, now: u64) -> (s: EnvelopeState)
        ensures
            s == EnvelopeState::started(envelope, now),
    {
        EnvelopeState { envelope, start_time: now, time_released: None }
    }

    pub fn is_releasing(&self) -> (r: bool)
        ensures
            r == self.releasing(),
    {
        self.time_released.is_some()
    }

    pub fn time_since_start(&self, now: u64) -> (t: u64)
        ensures
            t == self.since_start(now),
    {
        if now >= self.start_time {
            now - self.start_time
        } else {
            0
        }
    }

    pub fn time_since_release(&self, now: u64) -> (t: Option<u64>)
        ensures
            opt_int(t) == self.since_release(now),
    {
        match self.time_released {
            Some(then) => Some(
                if now >= then {
                    now - then
                } else {
                    0
                },
            ),
            None => None,
        }
    }

    /// Requests the release of the voice at `now`.
    pub fn release(&mut self, now: u64)
        ensures
            *final(self) == old(self).released(now),
    {
        if self.time_released.is_none() {
            self.time_released = Some(now);
        }
    }

    /// Computes [`EnvelopeState::gain_at`].
    pub fn gain(&self, now: u64) -> (g: u64)
        ensures
            g == self.gain_at(now),
            g <= GAIN_ONE,
    {
        self.envelope.gain(self.time_since_start(now), self.time_since_release(now))
    }

    /// Computes [`EnvelopeState::phase_at`].
    pub fn phase(&self, now: u64) -> (p: Phase)
        ensures
            p == self.phase_at(now),
    {
        self.envelope.phase(self.time_since_start(now), self.time_since_release(now))
    }

    /// Computes [`EnvelopeState::finished_at`].
    pub fn is_finished(&self, now: u64) -> (done: bool)
        ensures
            done == self.finished_at(now),
    {
        self.envelope.finished(self.time_since_release(now))
    }
}

/// Whatever the parameters, the gain is between nothing and full scale.
pub proof fn lemma_gain_in_range(e: Envelope, elapsed: int, since_release: Option<int>)
    requires
        0 <= elapsed,
        since_release is Some ==> 0 <= since_release->Some_0,
    ensures
        0 <= e.gain_at(elapsed, since_release) <= GAIN_ONE,
{
    let level = e.level();
    if elapsed < e.attack {
        lemma_ramp_bounds(elapsed, e.attack as int, GAIN_ONE as int);
    } else if elapsed < e.attack + e.decay {
        lemma_ramp_bounds(elapsed - e.attack, e.decay as int, GAIN_ONE - level);
    } else if since_release is Some && e.release != 0 {
        let r = since_release->Some_0;
        let ramp = if r < e.release {
            r
        } else {
            e.release as int
        };
        lemma_ramp_bounds(ramp, e.release as int, level);
    }
}

/// The attack ramp starts from nothing and stays short of full scale, the
/// decay ramp stays between full scale and the sustain level, a held voice
/// past both ramps sits at the sustain level, and a released one is at or
/// below it and silent from the end of the release on.
pub proof fn lemma_gain_by_phase(e: Envelope, elapsed: int, since_release: Option<int>)
    requires
        0 <= elapsed,
        since_release is Some ==> 0 <= since_release->Some_0,
    ensures
        elapsed == 0 && e.attack > 0 ==> e.gain_at(elapsed, since_release) == 0,
        elapsed < e.attack ==> e.gain_at(elapsed, since_release) < GAIN_ONE,
        e.attack <= elapsed < e.attack + e.decay ==> e.level() <= e.gain_at(
            elapsed,
            since_release,
        ) <= GAIN_ONE,
        elapsed == e.attack && e.decay > 0 ==> e.gain_at(elapsed, since_release) == GAIN_ONE,
        elapsed >= e.attack + e.decay && since_release is None ==> e.gain_at(
            elapsed,
            since_release,
        ) == e.level(),
        elapsed >= e.attack + e.decay && since_release is Some ==> e.gain_at(
            elapsed,
            since_release,
        ) <= e.level(),
        elapsed >= e.attack + e.decay && since_release == Some(0int) && e.release > 0
            ==> e.gain_at(elapsed, since_release) == e.level(),
        elapsed >= e.attack + e.decay && since_release is Some && since_release->Some_0
            >= e.release ==> e.gain_at(elapsed, since_release) == 0,
{
    let level = e.level();
    if elapsed < e.attack {
        lemma_ramp_bounds(elapsed, e.attack as int, GAIN_ONE as int);
    } else if elapsed < e.attack + e.decay {
        lemma_ramp_bounds(elapsed - e.attack, e.decay as int, GAIN_ONE - level);
        if elapsed == e.attack {
            lemma_ramp_start(elapsed - e.attack, e.decay as int, GAIN_ONE - level);
        }
    } else if since_release is Some && e.release != 0 {
        let r = since_release->Some_0;
        let ramp = if r < e.release {
            r
        } else {
            e.release as int
        };
        lemma_ramp_bounds(ramp, e.release as int, level);
        if r == 0 {
            lemma_ramp_start(ramp, e.release as int, level);
        }
        if r >= e.release {
            let d = e.release as int;
            assert(d * level / d == level) by (nonlinear_arith)
                requires
                    d > 0,
            ;
        }
    }
}

/// A held voice moves through attack, decay and sustain in that order and
/// never back; a released voice finishes exactly when the release time and
/// the settling margin have passed since the release, and stays finished.
pub proof fn lemma_phase_order(e: Envelope, earlier: int, later: int, since_release: Option<int>)
    requires
        0 <= earlier <= later,
    ensures
        e.phase_at(earlier, None) == Phase::Decay ==> e.phase_at(later, None) != Phase::Attack,
        e.phase_at(earlier, None) == Phase::Sustain ==> e.phase_at(later, None)
            == Phase::Sustain,
        e.phase_at(later, None) != Phase::Finished && e.phase_at(later, None) != Phase::Release,
        e.phase_at(later, since_release) == Phase::Finished <==> since_release is Some
            && since_release->Some_0 >= e.release + RELEASE_MARGIN_US,
        e.phase_at(earlier, since_release) == Phase::Finished ==> e.phase_at(
            later,
            Some(since_release->Some_0 + (later - earlier)),
        ) == Phase::Finished,
{
}

/// With no attack time the attack ramp is never taken: from the first
/// moment the gain is that of the decay ramp, which starts at full scale, or,
/// with no decay time either, that of the sustain or release phase.
pub proof fn lemma_zero_attack(e: Envelope, elapsed: int, since_release: Option<int>)
    requires
        e.attack == 0,
        0 <= elapsed,
    ensures
        e.decay > 0 && elapsed == 0 ==> e.gain_at(elapsed, since_release) == GAIN_ONE,
        elapsed < e.decay ==> e.gain_at(elapsed, since_release) == GAIN_ONE - elapsed * (GAIN_ONE
            - e.level()) / (e.decay as int),
        e.decay == 0 && since_release is None ==> e.gain_at(elapsed, since_release) == e.level(),
        e.decay == 0 && e.sustain >= GAIN_ONE && since_release is None ==> e.gain_at(
            elapsed,
            since_release,
        ) == GAIN_ONE,
{
}

/// A second release request changes nothing: the time of the first stands.
pub proof fn lemma_release_idempotent(s: EnvelopeState, first: u64, second: u64)
    ensures
        s.released(first).released(second) == s.released(first),
        s.released(first).releasing(),
        !s.releasing() ==> s.released(first).time_released == Some(first),
{
}

} // verus!
