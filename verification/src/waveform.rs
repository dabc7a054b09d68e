//! Waveform generation on integers.
//!
//! An oscillator keeps its place within the period as a whole number of
//! phase units and never ends. The shapes that are straight lines in the
//! phase are computed here; the sine is left to the caller, who gets the
//! phase.

use vstd::prelude::*;

verus! {

/// Samples per second.
pub const SAMPLE_RATE: u32 = 48_000;

/// Phase units in one period: with frequencies in thousandths of a hertz, a
/// sample moves the phase by the frequency.
pub const PHASE_ONE: u32 = 48_000_000;

/// The fixed-point value of a sample of one.
pub const SAMPLE_ONE: i32 = 1_000_000;

/// The shape of a waveform.
#[derive(Clone, Copy, Debug, PartialEq, Eq, Structural)]
pub enum WaveformKind {
    Sine,
    Square,
    Sawtooth,
    Triangle,
}

/// The phase of sample `n` of a wave of `millihertz` thousandths of a hertz:
/// the part of a period that `n` samples have gone beyond whole periods.
pub open spec fn phase_at(millihertz: u32, n: nat) -> int {
    (millihertz * n) % (PHASE_ONE as int)
}

/// The square wave: one in the first half of the period, minus one in the
/// second, and never zero.
pub open spec fn square_at(phase: int) -> int {
    if 2 * phase < PHASE_ONE {
        SAMPLE_ONE as int
    } else {
        -SAMPLE_ONE
    }
}

/// The sawtooth wave: a straight ramp from minus one to one over the period.
pub open spec fn sawtooth_at(phase: int) -> int {
    2 * phase * SAMPLE_ONE / (PHASE_ONE as int) - SAMPLE_ONE
}

/// The triangle wave: up from zero to one over the first quarter of the
/// period, down to minus one over the next two, and back up to zero over the
/// last.
pub open spec fn triangle_at(phase: int) -> int {
    if 4 * phase <= PHASE_ONE {
        4 * phase * SAMPLE_ONE / (PHASE_ONE as int)
    } else if 4 * phase <= 3 * PHASE_ONE {
        2 * SAMPLE_ONE - 4 * phase * SAMPLE_ONE / (PHASE_ONE as int)
    } else {
        4 * phase * SAMPLE_ONE / (PHASE_ONE as int) - 4 * SAMPLE_ONE
    }
}

/// The sample of a shape at a phase, for the shapes that are straight lines
/// in the phase. A phase of a period or more counts from the start of the
/// period it falls in.
pub open spec fn sample_at(kind: WaveformKind, phase: int) -> Option<int> {
    let within = phase % (PHASE_ONE as int);
    match kind {
        WaveformKind::Sine => None,
        WaveformKind::Square => Some(square_at(within)),
        WaveformKind::Sawtooth => Some(sawtooth_at(within)),
        WaveformKind::Triangle => Some(triangle_at(within)),
    }
}

/// Computes [`sample_at`]; `None` for the sine.
pub fn sample(kind: WaveformKind, phase: u32) -> (s: Option<i32>)
    ensures
        match s {
            Some(v) => sample_at(kind, phase as int) == Some(v as int) && -SAMPLE_ONE <= v
                <= SAMPLE_ONE,
            None => sample_at(kind, phase as int).is_none(),
        },
{
    let p: i64 = (phase % PHASE_ONE) as i64;
    match kind {
        WaveformKind::Sine => None,
        WaveformKind::Square => {
            if 2 * p < (PHASE_ONE as i64) {
                Some(SAMPLE_ONE)
            } else {
                Some(-SAMPLE_ONE)
            }
        },
        WaveformKind::Sawtooth => {
            let up: i64 = 2 * p * (SAMPLE_ONE as i64) / (PHASE_ONE as i64);
            Some((up - (SAMPLE_ONE as i64)) as i32)
        },
        WaveformKind::Triangle => {
            let up: i64 = 4 * p * (SAMPLE_ONE as i64) / (PHASE_ONE as i64);
            if 4 * p <= (PHASE_ONE as i64) {
                Some(up as i32)
            } else if 4 * p <= 3 * (PHASE_ONE as i64) {
                Some((2 * (SAMPLE_ONE as i64) - up) as i32)
            } else {
                Some((up - 4 * (SAMPLE_ONE as i64)) as i32)
            }
        },
    }
}

/// A generator of one wave: an endless run of samples, each one step further
/// in phase.
pub struct Oscillator {
    kind: WaveformKind,
    millihertz: u32,
    phase: u32,
    /// How many samples have been taken.
    taken: Ghost<nat>,
}

impl Oscillator {
    pub closed spec fn kind(self) -> WaveformKind {
        self.kind
    }

    pub closed spec fn millihertz(self) -> u32 {
        self.millihertz
    }

    /// The number of samples taken so far.
    pub closed spec fn taken(self) -> nat {
        self.taken@
    }

    /// The phase of the next sample.
    pub closed spec fn phase(self) -> int {
        self.phase as int
    }

    /// The invariant of an oscillator: its phase is that of the sample it is
    /// at.
    pub closed spec fn wf(self) -> bool {
        self.phase == phase_at(self.millihertz, self.taken@)
    }

    /// An oscillator at its first sample.
    pub fn new(kind: WaveformKind, millihertz: u32) -> (o: Oscillator)
        ensures
            o.wf(),
            o.kind() == kind,
            o.millihertz() == millihertz,
            o.taken() == 0,
    {
        assert(millihertz * 0nat == 0) by (nonlinear_arith);
        Oscillator { kind, millihertz, phase: 0, taken: Ghost(0) }
    }

    pub fn sine_wave(millihertz: u32) -> (o: Oscillator)
        ensures
            o.wf(),
            o.kind() == WaveformKind::Sine,
            o.millihertz() == millihertz,
            o.taken() == 0,
    {
        Oscillator::new(WaveformKind::Sine, millihertz)
    }

    pub fn square_wave(millihertz: u32) -> (o: Oscillator)
        ensures
            o.wf(),
            o.kind() == WaveformKind::Square,
            o.millihertz() == millihertz,
            o.taken() == 0,
    {
        Oscillator::new(WaveformKind::Square, millihertz)
    }

    pub fn sawtooth_wave(millihertz: u32) -> (o: Oscillator)
        ensures
            o.wf(),
            o.kind() == WaveformKind::Sawtooth,
            o.millihertz() == millihertz,
            o.taken() == 0,
    {
        Oscillator::new(WaveformKind::Sawtooth, millihertz)
    }

    pub fn triangle_wave(millihertz: u32) -> (o: Oscillator)
        ensures
            o.wf(),
            o.kind() == WaveformKind::Triangle,
            o.millihertz() == millihertz,
            o.taken() == 0,
    {
        Oscillator::new(WaveformKind::Triangle, millihertz)
    }

    /// The shape of the wave.
    pub fn waveform(&self) -> (k: WaveformKind)
        ensures
            k == self.kind(),
    {
        self.kind
    }

    /// Takes the next sample: hands out its phase and, for the shapes
    /// computed here, its value, and moves on by one sample.
    pub fn next(&mut self) -> (r: (u32, Option<i32>))
        requires
            old(self).wf(),
        ensures
            final(self).wf(),
            final(self).kind() == old(self).kind(),
            final(self).millihertz() == old(self).millihertz(),
            final(self).taken() == old(self).taken() + 1,
            r.0 == phase_at(old(self).millihertz(), old(self).taken()),
            match r.1 {
                Some(v) => sample_at(old(self).kind(), r.0 as int) == Some(v as int),
                None => sample_at(old(self).kind(), r.0 as int).is_none(),
            },
    {
        let phase: u32 = self.phase;
        proof {
            lemma_phase_step(self.millihertz, self.taken@);
        }
        let value = sample(self.kind, phase);
        let step: u64 = (self.millihertz as u64) % (PHASE_ONE as u64);
        let moved: u64 = ((phase as u64) + step) % (PHASE_ONE as u64);
        self.phase = moved as u32;
        self.taken = Ghost((self.taken@ + 1) as nat);
        (phase, value)
    }
}

/// From one sample to the next the phase moves by the frequency, around the
/// period.
pub proof fn lemma_phase_step(millihertz: u32, n: nat)
    ensures
        phase_at(millihertz, n + 1) == (phase_at(millihertz, n) + (millihertz as int) % (
        PHASE_ONE as int)) % (PHASE_ONE as int),
        0 <= phase_at(millihertz, n) < PHASE_ONE,
{
    let m = millihertz as int;
    let p = PHASE_ONE as int;
    let a = m * n;
    assert(m * (n + 1) == a + m) by (nonlinear_arith)
        requires
            a == m * n,
    ;
    vstd::arithmetic::div_mod::lemma_add_mod_noop(a, m, p);
}

/// Every sample computed here is between minus one and one, and the square
/// wave is never zero.
pub proof fn lemma_sample_in_range(kind: WaveformKind, phase: int)
    requires
        kind != WaveformKind::Sine,
    ensures
        -SAMPLE_ONE <= sample_at(kind, phase)->Some_0 <= SAMPLE_ONE,
        kind == WaveformKind::Square ==> sample_at(kind, phase)->Some_0 != 0,
{
}

} // verus!
