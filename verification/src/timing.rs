//! Tick arithmetic: how long a tick lasts, where a track's events fall, and
//! how far through a piece a moment is.

use crate::midi::{FrameRate, MidiError, Timing, TrackEvent};
use vstd::prelude::*;

verus! {

/// Microseconds per quarter note where a file sets no tempo: 120 beats per
/// minute.
pub const DEFAULT_TEMPO: u32 = 500_000;

/// The progress value that stands for the whole piece.
pub const PROGRESS_FULL: u64 = 1_000_000;

/// The length of one tick as the fraction `num / den` of a microsecond.
#[derive(Clone, Copy, Debug, PartialEq, Eq, Structural)]
pub struct TickLength {
    pub num: u32,
    pub den: u32,
}

/// Microseconds in the frames counted by `frame_count`: a second, or 1.001
/// seconds for the drop-frame rate.
pub open spec fn frame_micros(rate: FrameRate) -> u32 {
    match rate {
        FrameRate::Fps29 => 1_001_000,
        _ => 1_000_000,
    }
}

/// Frames in the span of `frame_micros`.
pub open spec fn frame_count(rate: FrameRate) -> u32 {
    match rate {
        FrameRate::Fps24 => 24,
        FrameRate::Fps25 => 25,
        FrameRate::Fps29 => 30,
        FrameRate::Fps30 => 30,
    }
}

/// The length of a tick under `timing` at `tempo` microseconds per quarter
/// note.
///
/// Metrical timing divides the quarter note into ticks; timecode timing
/// divides the frame into ticks and ignores the tempo. A division into zero
/// ticks has no tick length.
pub open spec fn tick_length(timing: Timing, tempo: u32) -> Option<TickLength> {
    match timing {
        Timing::Metrical(per_quarter) => if per_quarter == 0 {
            None
        } else {
            Some(TickLength { num: tempo, den: per_quarter as u32 })
        },
        Timing::Timecode(rate, per_frame) => if per_frame == 0 {
            None
        } else {
            Some(
                TickLength {
                    num: frame_micros(rate),
                    den: (frame_count(rate) * per_frame) as u32,
                },
            )
        },
    }
}

/// Computes [`tick_length`]; a timing without one is a malformed file.
pub fn time_per_tick(timing: Timing, tempo: u32) -> (r: Result<TickLength, MidiError>)
    ensures
        match tick_length(timing, tempo) {
            Some(t) => r == Ok::<TickLength, MidiError>(t) && t.den > 0,
            None => r == Err::<TickLength, MidiError>(MidiError::MalformedMidiFile),
        },
{
    match timing {
        Timing::Metrical(per_quarter) => {
            if per_quarter == 0 {
                Err(MidiError::MalformedMidiFile)
            } else {
                Ok(TickLength { num: tempo, den: per_quarter as u32 })
            }
        },
        Timing::Timecode(rate, per_frame) => {
            if per_frame == 0 {
                Err(MidiError::MalformedMidiFile)
            } else {
                let micros: u32 = match rate {
                    FrameRate::Fps29 => 1_001_000,
                    _ => 1_000_000,
                };
                let frames: u32 = match rate {
                    FrameRate::Fps24 => 24,
                    FrameRate::Fps25 => 25,
                    FrameRate::Fps29 => 30,
                    FrameRate::Fps30 => 30,
                };
                Ok(TickLength { num: micros, den: frames * (per_frame as u32) })
            }
        },
    }
}

/// The tick at which event `n` of a track falls due counted from the start:
/// the sum of the deltas of the events before it.
pub open spec fn ticks_before(track: Seq<TrackEvent>, n: int) -> int
    decreases n,
{
    if n <= 0 {
        0
    } else {
        ticks_before(track, n - 1) + track[n - 1].delta
    }
}

/// The microsecond in which tick `ticks` falls, rounded down.
pub open spec fn time_of(ticks: int, tick: TickLength) -> int {
    ticks * tick.num / (tick.den as int)
}

/// Whether a span of `ticks` can be timed in 64 bits: both the tick count and
/// the microseconds before rounding fit.
pub open spec fn timeable(ticks: int, tick: TickLength) -> bool {
    ticks <= u64::MAX && ticks * tick.num <= u64::MAX
}

/// How far `elapsed` is through `total`, in parts of [`PROGRESS_FULL`],
/// rounded down and never above it.
pub open spec fn progress_at(elapsed: int, total: int) -> int {
    if elapsed >= total {
        PROGRESS_FULL as int
    } else {
        elapsed * PROGRESS_FULL / total
    }
}

/// Tick positions never go down along a track and grow by at most the
/// largest delta per event.
pub proof fn lemma_ticks_before_monotonic(track: Seq<TrackEvent>, a: int, b: int)
    requires
        0 <= a <= b,
    ensures
        0 <= ticks_before(track, a) <= ticks_before(track, b),
        ticks_before(track, b) <= b * u32::MAX,
    decreases b,
{
    if b > 0 {
        if a < b {
            lemma_ticks_before_monotonic(track, a, b - 1);
        } else {
            lemma_ticks_before_monotonic(track, a - 1, b - 1);
        }
    }
}

/// A later tick does not fall in an earlier microsecond.
pub proof fn lemma_time_of_monotonic(a: int, b: int, tick: TickLength)
    requires
        0 <= a <= b,
        tick.den > 0,
    ensures
        0 <= time_of(a, tick) <= time_of(b, tick),
        time_of(b, tick) <= b * tick.num,
{
    let n = tick.num as int;
    let d = tick.den as int;
    assert(0 <= a * n <= b * n) by (nonlinear_arith)
        requires
            0 <= a <= b,
            0 <= n,
    ;
    assert(0 <= (a * n) / d <= (b * n) / d <= b * n) by (nonlinear_arith)
        requires
            0 <= a * n <= b * n,
            d > 0,
    ;
}

/// Computes [`time_of`] for a span that is [`timeable`].
pub fn tick_time(ticks: u64, tick: TickLength) -> (t: u64)
    requires
        tick.den > 0,
        timeable(ticks as int, tick),
    ensures
        t == time_of(ticks as int, tick),
{
    let scaled: u128 = (ticks as u128) * (tick.num as u128);
    let t: u128 = scaled / (tick.den as u128);
    proof {
        lemma_time_of_monotonic(ticks as int, ticks as int, tick);
    }
    t as u64
}

/// Computes [`progress_at`].
pub fn progress(elapsed: u64, total: u64) -> (p: u64)
    ensures
        p == progress_at(elapsed as int, total as int),
        p <= PROGRESS_FULL,
{
    if elapsed >= total {
        PROGRESS_FULL
    } else {
        assert(elapsed * PROGRESS_FULL <= u64::MAX * PROGRESS_FULL) by (nonlinear_arith)
            requires
                elapsed <= u64::MAX,
        ;
        let scaled: u128 = (elapsed as u128) * (PROGRESS_FULL as u128);
        let p: u128 = scaled / (total as u128);
        proof {
            lemma_progress_bounds(elapsed as int, total as int);
        }
        p as u64
    }
}

/// Progress lies between nothing and the whole, and is the whole exactly
/// from the total on.
pub proof fn lemma_progress_bounds(elapsed: int, total: int)
    requires
        0 <= elapsed,
    ensures
        0 <= progress_at(elapsed, total) <= PROGRESS_FULL,
        progress_at(elapsed, total) == PROGRESS_FULL <==> elapsed >= total,
{
    if elapsed < total {
        let f = PROGRESS_FULL as int;
        assert(0 <= elapsed * f < total * f) by (nonlinear_arith)
            requires
                0 <= elapsed < total,
                f > 0,
        ;
        assert(0 <= (elapsed * f) / total < f) by (nonlinear_arith)
            requires
                0 <= elapsed * f < total * f,
                total > 0,
        ;
    }
}

/// Progress never goes down as time goes on.
pub proof fn lemma_progress_monotonic(earlier: int, later: int, total: int)
    requires
        0 <= earlier <= later,
    ensures
        progress_at(earlier, total) <= progress_at(later, total),
{
    lemma_progress_bounds(earlier, total);
    lemma_progress_bounds(later, total);
    if later < total {
        let f = PROGRESS_FULL as int;
        assert(earlier * f <= later * f) by (nonlinear_arith)
            requires
                0 <= earlier <= later,
                f > 0,
        ;
        assert((earlier * f) / total <= (later * f) / total) by (nonlinear_arith)
            requires
                earlier * f <= later * f,
                total > 0,
        ;
    }
}

} // verus!
