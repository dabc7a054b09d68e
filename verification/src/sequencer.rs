//! Playback of several tracks against one clock.
//!
//! The sequencer decides; the caller acts. Each call of [`Sequencer::step`]
//! is one iteration of playback: it hands out the notes that are due at the
//! clock and moves the clock to the next deadline, until which the caller
//! waits.

use crate::arrangement::{
    closed_at_end, closes, describes, played, reads, tick_of, MidiData, TrackPlus,
};
use crate::midi::{MidiError, TrackEvent};
use crate::note::{note_event, note_of, NoteEvent};
use crate::timing::{
    lemma_progress_bounds, lemma_progress_monotonic, lemma_ticks_before_monotonic,
    lemma_time_of_monotonic, progress, progress_at, tick_length, tick_time, ticks_before,
    time_of, time_per_tick, timeable, TickLength, PROGRESS_FULL,
};
use vstd::prelude::*;

verus! {

/// Where playback stands in one track.
pub struct CursorView {
    pub events: Seq<TrackEvent>,
    pub tick: TickLength,
    /// How many events have been handed out.
    pub position: int,
}

/// The notes among a run of events, in order.
pub open spec fn notes_of(events: Seq<TrackEvent>) -> Seq<NoteEvent>
    decreases events.len(),
{
    if events.len() == 0 {
        Seq::empty()
    } else {
        let before = notes_of(events.drop_last());
        match note_of(events.last().kind) {
            Some(note) => before.push(note),
            None => before,
        }
    }
}

impl CursorView {
    pub open spec fn valid(self) -> bool {
        &&& self.tick.den > 0
        &&& 0 <= self.position <= self.events.len()
    }

    /// The moment event `k` falls due: its own delta and those of all events
    /// before it, in microseconds.
    pub open spec fn event_time(self, k: int) -> int {
        time_of(ticks_before(self.events, k + 1), self.tick)
    }

    /// Whether every event has been handed out.
    pub open spec fn finished(self) -> bool {
        self.position >= self.events.len()
    }

    /// The moment the next event falls due.
    pub open spec fn next_event_time(self) -> int {
        self.event_time(self.position)
    }

    /// The moment the last event falls due, and zero for a track without
    /// events.
    pub open spec fn end_time(self) -> int {
        time_of(ticks_before(self.events, self.events.len() as int), self.tick)
    }

    /// How far the track is handed out once every event from `from` on that
    /// is due by `elapsed` has gone.
    pub open spec fn served(self, elapsed: int, from: int) -> int
        decreases self.events.len() - from,
    {
        if 0 <= from < self.events.len() && self.event_time(from) <= elapsed {
            self.served(elapsed, from + 1)
        } else {
            from
        }
    }

    /// The events an iteration at `elapsed` hands out: those not yet handed
    /// out that are due.
    pub open spec fn pulled(self, elapsed: int) -> Seq<TrackEvent> {
        self.events.subrange(self.position, self.served(elapsed, self.position))
    }

    /// The track after an iteration at `elapsed`.
    pub open spec fn advance(self, elapsed: int) -> CursorView {
        CursorView { position: self.served(elapsed, self.position), ..self }
    }
}

/// A playback session: its tracks, its clock and the length of the piece.
pub struct SequencerView {
    pub cursors: Seq<CursorView>,
    /// Microseconds since playback began.
    pub elapsed: int,
    /// The length of the piece in microseconds.
    pub total: int,
}

impl SequencerView {
    /// Track `i` is in step with the clock: a finished track ended by now,
    /// and the next event of an unfinished one is not overdue.
    pub open spec fn settled(self, i: int) -> bool {
        let c = self.cursors[i];
        &&& c.valid()
        &&& c.finished() ==> c.end_time() <= self.elapsed
        &&& !c.finished() ==> c.next_event_time() >= self.elapsed
    }

    /// Track `i` has its next event, or had its last, exactly at `t`.
    pub open spec fn meets(self, i: int, t: int) -> bool {
        &&& 0 <= i < self.cursors.len()
        &&& if self.cursors[i].finished() {
            self.cursors[i].end_time() == t
        } else {
            self.cursors[i].next_event_time() == t
        }
    }

    /// Track `i` is unfinished and its next event falls due exactly at `t`.
    pub open spec fn waits_until(self, i: int, t: int) -> bool {
        self.meets(i, t) && !self.cursors[i].finished()
    }

    /// Every track is in step with the clock, and the clock stands at zero or
    /// at the time of an event.
    pub open spec fn valid(self) -> bool {
        &&& 0 <= self.elapsed
        &&& forall|i: int| 0 <= i < self.cursors.len() ==> #[trigger] self.settled(i)
        &&& (self.elapsed == 0 || exists|i: int| #[trigger] self.meets(i, self.elapsed))
    }

    /// Every track has finished.
    pub open spec fn done(self) -> bool {
        forall|i: int| 0 <= i < self.cursors.len() ==> (#[trigger] self.cursors[i]).finished()
    }

    /// `t` is the earliest moment at which an unfinished track has an event
    /// due.
    pub open spec fn earliest(self, t: int) -> bool {
        &&& exists|i: int| #[trigger] self.waits_until(i, t)
        &&& forall|i: int|
            0 <= i < self.cursors.len() && !(#[trigger] self.cursors[i]).finished()
                ==> self.cursors[i].next_event_time() >= t
    }

    /// The tracks after one iteration.
    pub open spec fn advanced(self) -> Seq<CursorView> {
        Seq::new(self.cursors.len(), |i: int| self.cursors[i].advance(self.elapsed))
    }

    /// The notes one iteration dispatches from the first `n` tracks: track
    /// by track, and within a track in the order of its events.
    pub open spec fn notes(self, n: int) -> Seq<NoteEvent>
        decreases n,
    {
        if n <= 0 {
            Seq::empty()
        } else {
            self.notes(n - 1) + notes_of(self.cursors[n - 1].pulled(self.elapsed))
        }
    }

    /// How far through the piece the clock is.
    pub open spec fn progress(self) -> int {
        progress_at(self.elapsed, self.total)
    }

    /// Whether `next` is the session after one iteration of `self`: every
    /// track gave up the events that were due, and the clock moved to the
    /// earliest event of an unfinished track, or stayed once none is
    /// unfinished.
    pub open spec fn steps_to(self, next: SequencerView) -> bool {
        &&& next.cursors == self.advanced()
        &&& next.total == self.total
        &&& if next.done() {
            next.elapsed == self.elapsed
        } else {
            next.earliest(next.elapsed)
        }
    }

    /// Whether `total` is the moment the last track finishes.
    pub open spec fn ends_with_last_track(self) -> bool {
        &&& forall|i: int|
            0 <= i < self.cursors.len() ==> (#[trigger] self.cursors[i]).end_time() <= self.total
        &&& exists|i: int|
            0 <= i < self.cursors.len() && (#[trigger] self.cursors[i]).end_time() == self.total
    }
}

/// Along a track no event falls due before the one in front of it, none
/// before the start, and none after the end of the track.
pub proof fn lemma_event_times(c: CursorView, j: int, k: int)
    requires
        c.tick.den > 0,
        0 <= j <= k < c.events.len(),
    ensures
        0 <= c.event_time(j) <= c.event_time(k) <= c.end_time(),
{
    lemma_ticks_before_monotonic(c.events, 0, j + 1);
    lemma_ticks_before_monotonic(c.events, j + 1, k + 1);
    lemma_ticks_before_monotonic(c.events, k + 1, c.events.len() as int);
    lemma_time_of_monotonic(ticks_before(c.events, j + 1), ticks_before(c.events, k + 1), c.tick);
    lemma_time_of_monotonic(
        ticks_before(c.events, k + 1),
        ticks_before(c.events, c.events.len() as int),
        c.tick,
    );
}

/// Serving a track hands out exactly the events that are due: all of them
/// are due, and the first one left, if any, is not.
pub proof fn lemma_served(c: CursorView, elapsed: int, from: int)
    requires
        0 <= from <= c.events.len(),
    ensures
        from <= c.served(elapsed, from) <= c.events.len(),
        forall|k: int| from <= k < c.served(elapsed, from) ==> #[trigger] c.event_time(k) <= elapsed,
        c.served(elapsed, from) < c.events.len() ==> c.event_time(c.served(elapsed, from))
            > elapsed,
    decreases c.events.len() - from,
{
    if from < c.events.len() && c.event_time(from) <= elapsed {
        lemma_served(c, elapsed, from + 1);
    }
}

/// One iteration on a track that is in step with the clock hands out its
/// events at their own time, neither early nor late, and leaves the track in
/// step with the clock.
pub proof fn lemma_advance(c: CursorView, elapsed: int)
    requires
        c.valid(),
        c.finished() ==> c.end_time() <= elapsed,
        !c.finished() ==> c.next_event_time() >= elapsed,
    ensures
        c.advance(elapsed).valid(),
        c.advance(elapsed).events == c.events,
        c.advance(elapsed).tick == c.tick,
        c.advance(elapsed).end_time() == c.end_time(),
        c.position <= c.advance(elapsed).position,
        forall|k: int|
            c.position <= k < c.advance(elapsed).position ==> #[trigger] c.event_time(k)
                == elapsed,
        c.advance(elapsed).finished() ==> c.advance(elapsed).end_time() <= elapsed,
        c.advance(elapsed).finished() && !c.finished() ==> c.end_time() == elapsed,
        !c.advance(elapsed).finished() ==> c.advance(elapsed).next_event_time() > elapsed,
        !c.advance(elapsed).finished() ==> c.advance(elapsed).next_event_time() <= c.end_time(),
        0 <= c.end_time(),
        c.finished() ==> c.advance(elapsed) == c,
{
    let a = c.advance(elapsed);
    lemma_served(c, elapsed, c.position);
    lemma_ticks_before_monotonic(c.events, 0, c.events.len() as int);
    lemma_time_of_monotonic(0, ticks_before(c.events, c.events.len() as int), c.tick);
    assert forall|k: int| c.position <= k < a.position implies #[trigger] c.event_time(k)
        == elapsed by {
        lemma_event_times(c, c.position, k);
    }
    if a.finished() && !c.finished() {
        let last = c.events.len() - 1;
        assert(c.event_time(last) == elapsed);
    }
    if !a.finished() {
        lemma_event_times(c, a.position, a.position);
    }
}

/// An iteration keeps a session valid and never turns the clock back; while
/// a track is left unfinished it moves the clock on.
pub proof fn lemma_step_valid(s: SequencerView, next: SequencerView)
    requires
        s.valid(),
        s.steps_to(next),
    ensures
        next.valid(),
        next.elapsed >= s.elapsed,
        !next.done() ==> next.elapsed > s.elapsed,
        next.cursors.len() == s.cursors.len(),
{
    assert forall|i: int| 0 <= i < s.cursors.len() implies next.cursors[i].valid() && (
    next.cursors[i].finished() ==> next.cursors[i].end_time() <= s.elapsed) && (
    !next.cursors[i].finished() ==> next.cursors[i].next_event_time() > s.elapsed) by {
        assert(s.settled(i));
        lemma_advance(s.cursors[i], s.elapsed);
    }
    if next.done() {
        assert forall|i: int| 0 <= i < next.cursors.len() implies #[trigger] next.settled(i) by {}
        if s.elapsed != 0 {
            let w = choose|i: int| #[trigger] s.meets(i, s.elapsed);
            assert(s.settled(w));
            lemma_advance(s.cursors[w], s.elapsed);
            assert(next.cursors[w].finished());
            assert(next.meets(w, next.elapsed));
        }
    } else {
        let w = choose|i: int| #[trigger] next.waits_until(i, next.elapsed);
        assert(next.meets(w, next.elapsed));
        assert(!next.cursors[w].finished());
        assert forall|i: int| 0 <= i < next.cursors.len() implies #[trigger] next.settled(i) by {
            assert(s.settled(i));
            lemma_advance(s.cursors[i], s.elapsed);
        }
    }
}

/// Every event an iteration hands out falls due exactly at the clock of the
/// iteration: none goes out before its time, and none is left behind.
pub proof fn lemma_dispatched_on_time(s: SequencerView, i: int, k: int)
    requires
        s.valid(),
        0 <= i < s.cursors.len(),
        s.cursors[i].position <= k < s.advanced()[i].position,
    ensures
        s.cursors[i].event_time(k) == s.elapsed,
{
    assert(s.settled(i));
    lemma_advance(s.cursors[i], s.elapsed);
}

/// Progress never goes down from one iteration to the next.
pub proof fn lemma_progress_never_falls(s: SequencerView, next: SequencerView)
    requires
        s.valid(),
        s.steps_to(next),
    ensures
        s.elapsed <= next.elapsed,
        s.progress() <= next.progress(),
        0 <= s.progress() <= PROGRESS_FULL,
{
    lemma_step_valid(s, next);
    lemma_progress_monotonic(s.elapsed, next.elapsed, s.total);
    lemma_progress_bounds(s.elapsed, s.total);
}

/// The iteration on which the last track finishes runs at the moment that
/// track ends, and by then every track has ended.
pub proof fn lemma_finish_time(s: SequencerView, next: SequencerView)
    requires
        s.valid(),
        s.steps_to(next),
        !s.done(),
        next.done(),
    ensures
        next.elapsed == s.elapsed,
        forall|i: int|
            0 <= i < s.cursors.len() ==> (#[trigger] s.cursors[i]).end_time() <= s.elapsed,
        exists|i: int|
            0 <= i < s.cursors.len() && (#[trigger] s.cursors[i]).end_time() == s.elapsed,
{
    assert forall|i: int| 0 <= i < s.cursors.len() implies (#[trigger] s.cursors[i]).end_time()
        <= s.elapsed by {
        assert(s.settled(i));
        lemma_advance(s.cursors[i], s.elapsed);
        assert(next.cursors[i].finished());
    }
    let w = choose|i: int| 0 <= i < s.cursors.len() && !(#[trigger] s.cursors[i]).finished();
    assert(s.settled(w));
    lemma_advance(s.cursors[w], s.elapsed);
    assert(next.cursors[w].finished());
    assert(s.cursors[w].end_time() == s.elapsed);
}

/// An iteration does not move the end of any track, so the length of the
/// piece stays the moment the last track finishes.
pub proof fn lemma_ends_with_last_track_kept(s: SequencerView, next: SequencerView)
    requires
        s.valid(),
        s.ends_with_last_track(),
        s.steps_to(next),
    ensures
        next.ends_with_last_track(),
{
    assert forall|i: int| 0 <= i < next.cursors.len() implies (#[trigger] next.cursors[i]).end_time()
        == s.cursors[i].end_time() by {
        assert(s.settled(i));
        lemma_advance(s.cursors[i], s.elapsed);
    }
    let last = choose|i: int|
        0 <= i < s.cursors.len() && (#[trigger] s.cursors[i]).end_time() == s.total;
    assert(next.cursors[last].end_time() == next.total);
}

/// Where the length of the piece is the moment its last track finishes,
/// an iteration shows full progress exactly if it is one after which no
/// track has an event left: less than full while events are left, and full
/// on the iteration on which the last track finishes.
pub proof fn lemma_progress_full_at_finish(s: SequencerView, next: SequencerView)
    requires
        s.valid(),
        s.ends_with_last_track(),
        s.steps_to(next),
    ensures
        s.elapsed <= s.total,
        s.progress() == PROGRESS_FULL <==> next.done(),
        s.progress() == PROGRESS_FULL <==> s.elapsed == s.total,
{
    let last = choose|i: int|
        0 <= i < s.cursors.len() && (#[trigger] s.cursors[i]).end_time() == s.total;
    assert(s.settled(last));
    lemma_advance(s.cursors[last], s.elapsed);
    if s.elapsed != 0 {
        let w = choose|i: int| #[trigger] s.meets(i, s.elapsed);
        assert(s.settled(w));
        lemma_advance(s.cursors[w], s.elapsed);
        if !s.cursors[w].finished() {
            lemma_event_times(s.cursors[w], s.cursors[w].position, s.cursors[w].position);
        }
    }
    lemma_progress_bounds(s.elapsed, s.total);
    if next.done() {
        assert(next.cursors[last].finished());
        assert(s.cursors[last].end_time() <= s.elapsed);
    } else {
        let w = choose|i: int| 0 <= i < next.cursors.len() && !(#[trigger] next.cursors[i]).finished();
        assert(s.settled(w));
        lemma_advance(s.cursors[w], s.elapsed);
        assert(s.cursors[w].end_time() <= s.total);
    }
}

/// The length a file states is the moment the last played track finishes,
/// where every track of the file ends in its end-of-track marker and holds
/// no other, some track is played, and the tempo track, if there is one, is
/// not the only longest track.
pub proof fn lemma_total_is_last_end(
    tracks: Seq<Seq<TrackEvent>>,
    data: MidiData,
    tick: TickLength,
    s: SequencerView,
)
    requires
        describes(data, tracks),
        forall|i: int| 0 <= i < tracks.len() ==> closed_at_end(#[trigger] tracks[i]),
        match data.meta_track_index {
            Some(m) => exists|i: int|
                0 <= i < tracks.len() && i != m && ticks_before(
                    #[trigger] tracks[i],
                    tracks[i].len() as int,
                ) >= ticks_before(tracks[m as int], tracks[m as int].len() as int),
            None => tracks.len() > 0,
        },
        tick.den > 0,
        s.cursors.len() == played(tracks, data.meta_track_index).len(),
        forall|k: int|
            0 <= k < s.cursors.len() ==> (#[trigger] s.cursors[k]).events == played(
                tracks,
                data.meta_track_index,
            )[k] && s.cursors[k].tick == tick,
        s.total == time_of(data.length_in_ticks as int, tick),
    ensures
        s.ends_with_last_track(),
{
    let length = data.length_in_ticks as int;
    let kept = played(tracks, data.meta_track_index);
    // Every track ends by the stated length.
    assert forall|i: int| 0 <= i < tracks.len() implies 0 <= ticks_before(
        #[trigger] tracks[i],
        tracks[i].len() as int,
    ) <= length by {
        assert(closed_at_end(tracks[i]));
        assert(closes(tracks, i, tracks[i].len() - 1));
        lemma_ticks_before_monotonic(tracks[i], 0, tracks[i].len() as int);
    }
    // Some track ends exactly at it.
    let longest: int = if length != 0 {
        let found = choose|i: int, j: int| #[trigger]
            closes(tracks, i, j) && tick_of(tracks, i, j) == length;
        found.0
    } else {
        0
    };
    if length != 0 {
        let found = choose|i: int, j: int| #[trigger]
            closes(tracks, i, j) && tick_of(tracks, i, j) == length;
        assert(closes(tracks, found.0, found.1) && tick_of(tracks, found.0, found.1) == length);
        assert(closed_at_end(tracks[found.0]));
        assert(found.1 == tracks[found.0].len() - 1) by {
            if found.1 < tracks[found.0].len() - 1 {
                assert(reads(tracks[found.0], tracks[found.0].len() - 1));
            }
        }
    }
    assert(0 <= longest < tracks.len() && ticks_before(
        tracks[longest],
        tracks[longest].len() as int,
    ) == length);
    // One that is played does.
    let source: int = match data.meta_track_index {
        Some(m) => {
            if longest != m {
                longest
            } else {
                choose|i: int|
                    0 <= i < tracks.len() && i != m && ticks_before(
                        #[trigger] tracks[i],
                        tracks[i].len() as int,
                    ) >= ticks_before(tracks[m as int], tracks[m as int].len() as int)
            }
        },
        None => longest,
    };
    assert(0 <= source < tracks.len());
    assert(ticks_before(tracks[source], tracks[source].len() as int) == length);
    let at: int = match data.meta_track_index {
        Some(m) => if m < tracks.len() && source > m {
            source - 1
        } else {
            source
        },
        None => source,
    };
    assert(0 <= at < kept.len() && kept[at] == tracks[source]);
    assert(s.cursors[at].events == tracks[source]);
    assert(s.cursors[at].end_time() == s.total);
    assert forall|k: int| 0 <= k < s.cursors.len() implies (#[trigger] s.cursors[k]).end_time()
        <= s.total by {
        let from: int = match data.meta_track_index {
            Some(m) => if m < tracks.len() && k >= m {
                k + 1
            } else {
                k
            },
            None => k,
        };
        assert(0 <= from < tracks.len() && kept[k] == tracks[from]);
        assert(s.cursors[k].events == tracks[from]);
        lemma_time_of_monotonic(ticks_before(tracks[from], tracks[from].len() as int), length, tick);
    }
}

/// The cursor of one track: its events, their timing, and how far playback
/// has come.
struct PlaybackCursor {
    events: Vec<TrackEvent>,
    tick: TickLength,
    position: usize,
    /// Ticks of the events handed out so far.
    ticks: u64,
}

impl PlaybackCursor {
    spec fn view(&self) -> CursorView {
        CursorView { events: self.events@, tick: self.tick, position: self.position as int }
    }

    spec fn wf(&self) -> bool {
        &&& self.view().valid()
        &&& self.ticks == ticks_before(self.events@, self.position as int)
        &&& timeable(ticks_before(self.events@, self.events.len() as int), self.tick)
    }

    fn finished(&self) -> (r: bool)
        requires
            self.wf(),
        ensures
            r == self.view().finished(),
    {
        self.position >= self.events.len()
    }

    /// Computes `next_event_time` of an unfinished track.
    fn next_event_time(&self) -> (t: u64)
        requires
            self.wf(),
            !self.view().finished(),
        ensures
            t == self.view().next_event_time(),
    {
        proof {
            lemma_within_track(self.events@, self.position + 1, self.tick);
        }
        tick_time(self.ticks + (self.events[self.position].delta as u64), self.tick)
    }

    /// One iteration on this track: hands out the events that are due and
    /// appends the notes among them to `notes`.
    fn serve(&mut self, elapsed: u64, notes: &mut Vec<NoteEvent>)
        requires
            old(self).wf(),
        ensures
            final(self).wf(),
            final(self).view() == old(self).view().advance(elapsed as int),
            final(notes)@ == old(notes)@ + notes_of(old(self).view().pulled(elapsed as int)),
    {
        let ghost start = self.view();
        let ghost before = notes@;
        let n: usize = self.events.len();
        loop
            invariant
                self.wf(),
                n == self.events.len(),
                self.events@ == start.events,
                self.tick == start.tick,
                0 <= start.position <= self.position <= n,
                start.served(elapsed as int, self.position as int) == start.served(
                    elapsed as int,
                    start.position,
                ),
                notes@ == before + notes_of(
                    start.events.subrange(start.position, self.position as int),
                ),
            ensures
                self.wf(),
                self.events@ == start.events,
                self.tick == start.tick,
                self.position == start.served(elapsed as int, start.position),
                notes@ == before + notes_of(
                    start.events.subrange(start.position, self.position as int),
                ),
            decreases n - self.position,
        {
            if self.position >= n {
                break ;
            }
            let t: u64 = self.next_event_time();
            if t > elapsed {
                break ;
            }
            let e = self.events[self.position];
            proof {
                lemma_within_track(self.events@, self.position + 1, self.tick);
                let run = start.events.subrange(start.position, self.position + 1);
                assert(run.drop_last() =~= start.events.subrange(
                    start.position,
                    self.position as int,
                ));
                assert(run.last() == e);
            }
            self.ticks = self.ticks + (e.delta as u64);
            self.position = self.position + 1;
            match note_event(e.kind) {
                Some(note) => {
                    notes.push(note);
                },
                None => {},
            }
            assert(notes@ =~= before + notes_of(
                start.events.subrange(start.position, self.position as int),
            ));
        }
    }
}

/// A prefix of a timeable track is timeable.
proof fn lemma_within_track(events: Seq<TrackEvent>, n: int, tick: TickLength)
    requires
        0 <= n <= events.len(),
        timeable(ticks_before(events, events.len() as int), tick),
    ensures
        0 <= ticks_before(events, n),
        timeable(ticks_before(events, n), tick),
{
    lemma_ticks_before_monotonic(events, n, events.len() as int);
    let a = ticks_before(events, n);
    let b = ticks_before(events, events.len() as int);
    let m = tick.num as int;
    assert(a * m <= b * m) by (nonlinear_arith)
        requires
            0 <= a <= b,
            0 <= m,
    ;
}

/// What one iteration of playback asks of the caller.
#[derive(Debug)]
pub struct Step {
    /// The notes to dispatch now, in order.
    pub notes: Vec<NoteEvent>,
    /// Progress through the piece at this iteration, out of
    /// [`PROGRESS_FULL`].
    pub progress: u64,
    /// Whether playback has ended. If not, the next iteration is due at the
    /// sequencer's new clock.
    pub finished: bool,
}

/// A playback session over a set of tracks.
pub struct Sequencer {
    cursors: Vec<PlaybackCursor>,
    elapsed: u64,
    total: u64,
}

/// The cursor a track starts playback with.
pub open spec fn start_of(track: TrackPlus, tempo: u32) -> CursorView {
    CursorView {
        events: track.track@,
        tick: tick_length(track.timing, tempo)->Some_0,
        position: 0,
    }
}

/// Whether a track can be played at `tempo` as part of a piece of `length`
/// ticks: its timing has a tick length, and both the track and the piece can
/// be timed with it.
pub open spec fn playable(track: TrackPlus, tempo: u32, length: int) -> bool {
    match tick_length(track.timing, tempo) {
        Some(tick) => timeable(ticks_before(track.track@, track.track.len() as int), tick)
            && timeable(length, tick),
        None => false,
    }
}

/// The length of the piece in microseconds as track `i` measures it.
pub open spec fn length_by(tracks: Seq<TrackPlus>, tempo: u32, length: int, i: int) -> int {
    time_of(length, tick_length(tracks[i].timing, tempo)->Some_0)
}

/// Whether `total` is the greatest length of the piece by any track, or
/// zero where there is no track.
pub open spec fn longest(tracks: Seq<TrackPlus>, tempo: u32, length: int, total: int) -> bool {
    &&& forall|i: int|
        0 <= i < tracks.len() ==> #[trigger] length_by(tracks, tempo, length, i) <= total
    &&& (total == 0 || exists|i: int|
        0 <= i < tracks.len() && #[trigger] length_by(tracks, tempo, length, i) == total)
}

impl View for Sequencer {
    type V = SequencerView;

    closed spec fn view(&self) -> SequencerView {
        SequencerView {
            cursors: Seq::new(self.cursors.len() as nat, |i: int| self.cursors[i].view()),
            elapsed: self.elapsed as int,
            total: self.total as int,
        }
    }
}

impl Sequencer {
    /// The invariant of a session: it is valid, and every track can be timed
    /// in 64 bits to its end.
    pub closed spec fn wf(&self) -> bool {
        &&& self@.valid()
        &&& forall|i: int| 0 <= i < self.cursors.len() ==> (#[trigger] self.cursors[i]).wf()
    }

    /// Starts a session before the first event of every track, with the
    /// clock at zero.
    ///
    /// `tempo` is in microseconds per quarter note and `length_in_ticks` is
    /// the length of the piece. The file is malformed exactly where some
    /// track is not [`playable`].
    pub fn new(tracks: &Vec<TrackPlus>, tempo: u32, length_in_ticks: u128) -> (r: Result<
        Sequencer,
        MidiError,
    >)
        ensures
            match r {
                Ok(s) => {
                    &&& forall|i: int|
                        0 <= i < tracks.len() ==> playable(
                            #[trigger] tracks[i],
                            tempo,
                            length_in_ticks as int,
                        )
                    &&& s.wf()
                    &&& s@.valid()
                    &&& s@.cursors == Seq::new(
                        tracks.len() as nat,
                        |i: int| start_of(tracks[i], tempo),
                    )
                    &&& s@.elapsed == 0
                    &&& longest(tracks@, tempo, length_in_ticks as int, s@.total)
                },
                Err(e) => {
                    &&& e == MidiError::MalformedMidiFile
                    &&& exists|i: int|
                        0 <= i < tracks.len() && !playable(
                            #[trigger] tracks[i],
                            tempo,
                            length_in_ticks as int,
                        )
                },
            },
    {
        let mut cursors: Vec<PlaybackCursor> = Vec::new();
        let mut total: u64 = 0;
        let mut i: usize = 0;
        while i < tracks.len()
            invariant
                i <= tracks.len(),
                cursors.len() == i,
                forall|k: int|
                    0 <= k < i ==> playable(#[trigger] tracks[k], tempo, length_in_ticks as int),
                forall|k: int| 0 <= k < i ==> (#[trigger] cursors[k]).wf(),
                forall|k: int|
                    0 <= k < i ==> (#[trigger] cursors[k]).view() == start_of(tracks[k], tempo),
                forall|k: int|
                    0 <= k < i ==> #[trigger] length_by(tracks@, tempo, length_in_ticks as int, k)
                        <= total,
                total == 0 || exists|k: int|
                    0 <= k < i && #[trigger] length_by(tracks@, tempo, length_in_ticks as int, k)
                        == total,
            decreases tracks.len() - i,
        {
            match start_cursor(&tracks[i], tempo, length_in_ticks) {
                Some((cursor, length)) => {
                    assert(length == length_by(tracks@, tempo, length_in_ticks as int, i as int));
                    if length > total {
                        total = length;
                    }
                    cursors.push(cursor);
                },
                None => {
                    return Err(MidiError::MalformedMidiFile);
                },
            }
            i = i + 1;
        }
        let s = Sequencer { cursors, elapsed: 0, total };
        proof {
            assert(s@.cursors =~= Seq::new(
                tracks.len() as nat,
                |i: int| start_of(tracks[i], tempo),
            ));
            assert forall|k: int| 0 <= k < s@.cursors.len() implies #[trigger] s@.settled(k) by {
                let c = s@.cursors[k];
                assert(s.cursors[k].wf());
                if c.finished() {
                    assert(ticks_before(c.events, 0) == 0);
                    lemma_time_of_monotonic(0, 0, c.tick);
                } else {
                    lemma_event_times(c, 0, 0);
                }
            }
        }
        Ok(s)
    }

    /// Microseconds since playback began: the moment of the next iteration.
    pub fn elapsed(&self) -> (t: u64)
        ensures
            t == self@.elapsed,
    {
        self.elapsed
    }

    /// The length of the piece in microseconds.
    pub fn total(&self) -> (t: u64)
        ensures
            t == self@.total,
    {
        self.total
    }

    /// The number of tracks in the session.
    pub fn track_count(&self) -> (n: usize)
        ensures
            n == self@.cursors.len(),
    {
        self.cursors.len()
    }

    /// Runs one iteration of playback.
    ///
    /// Every track gives up the events that are due at the clock. The notes
    /// among them are handed out track by track, each track's in the order of
    /// its events. The clock then moves to the earliest event of an
    /// unfinished track; once every track has finished it stays, and the
    /// step reports the end of playback. Progress is that of the clock
    /// before it moves.
    pub fn step(&mut self) -> (out: Step)
        requires
            old(self).wf(),
        ensures
            final(self).wf(),
            final(self)@.valid(),
            old(self)@.steps_to(final(self)@),
            out.notes@ == old(self)@.notes(old(self)@.cursors.len() as int),
            out.progress == old(self)@.progress(),
            out.finished == final(self)@.done(),
    {
        let ghost before = self@;
        let elapsed: u64 = self.elapsed;
        let n: usize = self.cursors.len();
        let mut notes: Vec<NoteEvent> = Vec::new();
        let mut pending: Option<u64> = None;
        let ghost mut first: int = 0;
        let mut i: usize = 0;
        while i < n
            invariant
                before.valid(),
                before.cursors.len() == n,
                before.elapsed == elapsed,
                self.cursors.len() == n,
                self.elapsed == elapsed,
                self.total == before.total,
                i <= n,
                forall|k: int| 0 <= k < n ==> (#[trigger] self.cursors[k]).wf(),
                forall|k: int|
                    0 <= k < i ==> (#[trigger] self.cursors[k]).view()
                        == before.cursors[k].advance(elapsed as int),
                forall|k: int|
                    i <= k < n ==> (#[trigger] self.cursors[k]).view() == before.cursors[k],
                notes@ == before.notes(i as int),
                match pending {
                    Some(t) => {
                        &&& 0 <= first < i
                        &&& !self.cursors[first].view().finished()
                        &&& self.cursors[first].view().next_event_time() == t
                        &&& forall|k: int|
                            0 <= k < i && !(#[trigger] self.cursors[k]).view().finished()
                                ==> self.cursors[k].view().next_event_time() >= t
                    },
                    None => forall|k: int|
                        0 <= k < i ==> (#[trigger] self.cursors[k]).view().finished(),
                },
            decreases n - i,
        {
            self.cursors[i].serve(elapsed, &mut notes);
            if !self.cursors[i].finished() {
                let t: u64 = self.cursors[i].next_event_time();
                match pending {
                    Some(least) => {
                        if t < least {
                            pending = Some(t);
                            proof {
                                first = i as int;
                            }
                        }
                    },
                    None => {
                        pending = Some(t);
                        proof {
                            first = i as int;
                        }
                    },
                }
            }
            i = i + 1;
        }
        let shown: u64 = progress(elapsed, self.total);
        let finished: bool = match pending {
            Some(t) => {
                self.elapsed = t;
                false
            },
            None => true,
        };
        proof {
            let after = self@;
            assert(after.cursors =~= before.advanced());
            match pending {
                Some(t) => {
                    assert(after.waits_until(first, t as int));
                    assert(!after.cursors[first].finished());
                    assert(!after.done());
                    assert forall|k: int|
                        0 <= k < after.cursors.len() && !(#[trigger] after.cursors[k]).finished()
                        implies after.cursors[k].next_event_time() >= t by {
                        assert(!self.cursors[k].view().finished());
                    }
                },
                None => {
                    assert forall|k: int| 0 <= k < after.cursors.len() implies (
                    #[trigger] after.cursors[k]).finished() by {
                        assert(self.cursors[k].view().finished());
                    }
                },
            }
            assert(before.steps_to(after));
            lemma_step_valid(before, after);
        }
        Step { notes, progress: shown, finished }
    }
}

/// Builds the cursor of one track and measures the piece by the track's
/// timing; `None` where the track is not playable.
fn start_cursor(track: &TrackPlus, tempo: u32, length_in_ticks: u128) -> (r: Option<
    (PlaybackCursor, u64),
>)
    ensures
        match r {
            Some((cursor, length)) => {
                &&& playable(*track, tempo, length_in_ticks as int)
                &&& cursor.wf()
                &&& cursor.view() == start_of(*track, tempo)
                &&& length == time_of(
                    length_in_ticks as int,
                    tick_length(track.timing, tempo)->Some_0,
                )
            },
            None => !playable(*track, tempo, length_in_ticks as int),
        },
{
    let tick = match time_per_tick(track.timing, tempo) {
        Ok(tick) => tick,
        Err(_) => {
            return None;
        },
    };
    let n: usize = track.track.len();
    let mut events: Vec<TrackEvent> = Vec::new();
    let mut ticks: u128 = 0;
    let mut j: usize = 0;
    while j < n
        invariant
            n == track.track.len(),
            j <= n,
            events@ == track.track@.take(j as int),
            ticks == ticks_before(track.track@, j as int),
            ticks <= j * u32::MAX,
        decreases n - j,
    {
        let e = track.track[j];
        proof {
            lemma_ticks_before_monotonic(track.track@, j as int, j + 1);
        }
        ticks = ticks + (e.delta as u128);
        events.push(e);
        j = j + 1;
    }
    assert(events@ == track.track@);
    if !fits(ticks, tick) || !fits(length_in_ticks, tick) {
        return None;
    }
    let length: u64 = tick_time(length_in_ticks as u64, tick);
    let cursor = PlaybackCursor { events, tick, position: 0, ticks: 0 };
    Some((cursor, length))
}

/// Computes [`timeable`].
fn fits(ticks: u128, tick: TickLength) -> (ok: bool)
    ensures
        ok == timeable(ticks as int, tick),
{
    if ticks > (u64::MAX as u128) {
        false
    } else {
        assert(ticks * tick.num <= u64::MAX * u32::MAX) by (nonlinear_arith)
            requires
                ticks <= u64::MAX,
                tick.num <= u32::MAX,
        ;
        ticks * (tick.num as u128) <= (u64::MAX as u128)
    }
}

} // verus!
