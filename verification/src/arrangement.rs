//! What a file says about its own playback: tempo, length, and which of its
//! tracks are played.

use crate::midi::{tracks_view, EventKind, MidiFile, Timing, TrackEvent};
use crate::timing::{ticks_before, lemma_ticks_before_monotonic, DEFAULT_TEMPO};
use vstd::prelude::*;

verus! {

/// The facts of a file that playback starts from.
#[derive(Clone, Copy, Debug, PartialEq, Eq, Structural)]
pub struct MidiData {
    /// Microseconds per quarter note.
    pub tempo: u32,
    /// The latest tick at which a track is closed.
    pub length_in_ticks: u128,
    /// The track that sets the tempo, which is not played.
    pub meta_track_index: Option<usize>,
}

/// A track to play together with the timing its ticks are measured in.
#[derive(Debug)]
pub struct TrackPlus {
    pub track: Vec<TrackEvent>,
    pub timing: Timing,
}

/// Whether event `j` of a track is read: it exists and no end-of-track
/// comes before it.
pub open spec fn reads(track: Seq<TrackEvent>, j: int) -> bool {
    0 <= j < track.len() && forall|k: int| 0 <= k < j ==> !ends_at(track, k)
}

/// Whether event `k` of a track is an end-of-track.
pub open spec fn ends_at(track: Seq<TrackEvent>, k: int) -> bool {
    track[k].kind is EndOfTrack
}

/// Whether event `j` of track `i` is read and sets a tempo.
pub open spec fn tempo_at(tracks: Seq<Seq<TrackEvent>>, i: int, j: int) -> bool {
    0 <= i < tracks.len() && reads(tracks[i], j) && tracks[i][j].kind is Tempo
}

/// Whether event `j` of track `i` is the end-of-track that closes the track.
pub open spec fn closes(tracks: Seq<Seq<TrackEvent>>, i: int, j: int) -> bool {
    0 <= i < tracks.len() && reads(tracks[i], j) && ends_at(tracks[i], j)
}

/// Whether a track ends in its end-of-track marker and holds no other.
pub open spec fn closed_at_end(track: Seq<TrackEvent>) -> bool {
    reads(track, track.len() - 1) && ends_at(track, track.len() - 1)
}

/// The tick at which event `j` of track `i` falls.
pub open spec fn tick_of(tracks: Seq<Seq<TrackEvent>>, i: int, j: int) -> int {
    ticks_before(tracks[i], j + 1)
}

/// Whether place `(i2, j2)` comes after place `(i, j)` when the tracks are
/// read one after the other.
pub open spec fn after(i: int, j: int, i2: int, j2: int) -> bool {
    i2 > i || (i2 == i && j2 > j)
}

/// Whether the tempo set at `(i, j)` is the last one the file sets.
pub open spec fn last_tempo_at(tracks: Seq<Seq<TrackEvent>>, i: int, j: int) -> bool {
    tempo_at(tracks, i, j) && forall|i2: int, j2: int|
        after(i, j, i2, j2) ==> !#[trigger] tempo_at(tracks, i2, j2)
}

/// Whether `data` is what `tracks` say of their playback.
///
/// The tempo is the one set last among the events read, and the track that
/// sets it is the tempo track; without any, the tempo is [`DEFAULT_TEMPO`]
/// and there is no tempo track. The length is the latest tick at which a
/// track is closed, and zero where none is.
pub open spec fn describes(data: MidiData, tracks: Seq<Seq<TrackEvent>>) -> bool {
    &&& match data.meta_track_index {
        Some(m) => exists|j: int|
            #[trigger] last_tempo_at(tracks, m as int, j) && tracks[m as int][j].kind
                == EventKind::Tempo(data.tempo),
        None => data.tempo == DEFAULT_TEMPO && forall|i: int, j: int|
            !#[trigger] tempo_at(tracks, i, j),
    }
    &&& forall|i: int, j: int| #[trigger]
        closes(tracks, i, j) ==> tick_of(tracks, i, j) <= data.length_in_ticks
    &&& (data.length_in_ticks == 0 || exists|i: int, j: int| #[trigger]
        closes(tracks, i, j) && tick_of(tracks, i, j) == data.length_in_ticks)
}

/// Scans one track: the tempo and tempo track after it, and the length so
/// far.
fn scan_track(
    tracks: &Vec<Vec<TrackEvent>>,
    i: usize,
    before: MidiData,
    Ghost(at): Ghost<int>,
) -> (r: (MidiData, Ghost<int>))
    requires
        i < tracks.len(),
        scanned(before, tracks_view(*tracks), i as int, at),
    ensures
        scanned(r.0, tracks_view(*tracks), i + 1, r.1@),
{
    let ghost tv = tracks_view(*tracks);
    let track = &tracks[i];
    let n: usize = track.len();
    let mut data = before;
    let ghost mut at = at;
    let ghost mut closed_at: (int, int) = choose|p: (int, int)|
        closes(tv, p.0, p.1) && p.0 < i && tick_of(tv, p.0, p.1) == before.length_in_ticks;
    let mut ticks: u128 = 0;
    let mut j: usize = 0;
    let mut live: bool = true;
    assert(tv[i as int] == track@);
    while live && j < n
        invariant
            tv == tracks_view(*tracks),
            i < tracks.len(),
            tv[i as int] == track@,
            n == track.len(),
            j <= n,
            ticks == ticks_before(track@, j as int),
            ticks <= j * u32::MAX,
            live ==> forall|k: int| 0 <= k < j ==> !ends_at(track@, k),
            !live ==> j >= 1 && reads(track@, j - 1) && ends_at(track@, j - 1),
            match data.meta_track_index {
                Some(m) => m <= i && tempo_at(tv, m as int, at) && tv[m as int][at].kind
                    == EventKind::Tempo(data.tempo) && (m == i ==> at < j) && forall|
                    i2: int,
                    j2: int,
                |
                    after(m as int, at, i2, j2) && after(i2, j2, i as int, j as int)
                        ==> !#[trigger] tempo_at(tv, i2, j2),
                None => data.tempo == DEFAULT_TEMPO && forall|i2: int, j2: int|
                    after(i2, j2, i as int, j as int) ==> !#[trigger] tempo_at(tv, i2, j2),
            },
            forall|i2: int, j2: int|
                after(i2, j2, i as int, j as int) && #[trigger] closes(tv, i2, j2) ==> tick_of(
                    tv,
                    i2,
                    j2,
                ) <= data.length_in_ticks,
            data.length_in_ticks == 0 || (closes(tv, closed_at.0, closed_at.1) && after(
                closed_at.0,
                closed_at.1,
                i as int,
                j as int,
            ) && tick_of(tv, closed_at.0, closed_at.1) == data.length_in_ticks),
        decreases (if live { 1int } else { 0int }) + n - j,
    {
        let e = track[j];
        proof {
            lemma_ticks_before_monotonic(track@, j as int, j + 1);
            assert(reads(track@, j as int));
        }
        ticks = ticks + (e.delta as u128);
        match e.kind {
            EventKind::Tempo(t) => {
                data.tempo = t;
                data.meta_track_index = Some(i);
                proof {
                    at = j as int;
                }
            },
            EventKind::EndOfTrack => {
                if ticks > data.length_in_ticks {
                    data.length_in_ticks = ticks;
                    proof {
                        closed_at = (i as int, j as int);
                    }
                }
                live = false;
            },
            _ => {},
        }
        j = j + 1;
    }
    proof {
        // Events of this track from `j` on are not read: either there are
        // none, or the track was closed just before them.
        assert forall|j2: int| j2 >= j implies !reads(track@, j2) by {
            if !live && j2 < n {
                assert(ends_at(track@, j - 1));
            }
        }
    }
    (data, Ghost(at))
}

/// What holds of `data` once the first `upto` tracks have been scanned; `at`
/// is where the tempo track sets the tempo last.
pub closed spec fn scanned(data: MidiData, tracks: Seq<Seq<TrackEvent>>, upto: int, at: int) -> bool {
    &&& 0 <= upto <= tracks.len()
    &&& match data.meta_track_index {
        Some(m) => m < upto && tempo_at(tracks, m as int, at) && tracks[m as int][at].kind
            == EventKind::Tempo(data.tempo) && forall|i2: int, j2: int|
            after(m as int, at, i2, j2) && i2 < upto ==> !#[trigger] tempo_at(tracks, i2, j2),
        None => data.tempo == DEFAULT_TEMPO && forall|i2: int, j2: int|
            i2 < upto ==> !#[trigger] tempo_at(tracks, i2, j2),
    }
    &&& forall|i2: int, j2: int|
        i2 < upto && #[trigger] closes(tracks, i2, j2) ==> tick_of(tracks, i2, j2)
            <= data.length_in_ticks
    &&& (data.length_in_ticks == 0 || exists|p: (int, int)|
        closes(tracks, p.0, p.1) && p.0 < upto && tick_of(tracks, p.0, p.1)
            == data.length_in_ticks)
}

/// Reads tempo, tempo track and length off the tracks of a file.
pub fn get_midi_data(tracks: &Vec<Vec<TrackEvent>>) -> (data: MidiData)
    ensures
        describes(data, tracks_view(*tracks)),
{
    let ghost tv = tracks_view(*tracks);
    let mut data = MidiData { tempo: DEFAULT_TEMPO, length_in_ticks: 0, meta_track_index: None };
    let ghost mut at: int = 0;
    let mut i: usize = 0;
    while i < tracks.len()
        invariant
            tv == tracks_view(*tracks),
            i <= tracks.len(),
            scanned(data, tv, i as int, at),
        decreases tracks.len() - i,
    {
        let r = scan_track(tracks, i, data, Ghost(at));
        data = r.0;
        proof {
            at = r.1@;
        }
        i = i + 1;
    }
    proof {
        match data.meta_track_index {
            Some(m) => {
                assert(last_tempo_at(tv, m as int, at));
            },
            None => {},
        }
        if data.length_in_ticks != 0 {
            let p = choose|p: (int, int)|
                closes(tv, p.0, p.1) && p.0 < i && tick_of(tv, p.0, p.1) == data.length_in_ticks;
            assert(closes(tv, p.0, p.1));
        }
    }
    data
}

/// The tracks of a file that are played: all of them but the tempo track.
pub open spec fn played(tracks: Seq<Seq<TrackEvent>>, meta_track_index: Option<usize>) -> Seq<
    Seq<TrackEvent>,
> {
    match meta_track_index {
        Some(m) => if m < tracks.len() {
            tracks.remove(m as int)
        } else {
            tracks
        },
        None => tracks,
    }
}

/// The events of the tracks of an arrangement.
pub open spec fn arrangement_view(tracks: Vec<TrackPlus>) -> Seq<Seq<TrackEvent>> {
    Seq::new(tracks.len() as nat, |i: int| tracks[i].track@)
}

/// A copy of a track.
fn copy_events(track: &Vec<TrackEvent>) -> (copy: Vec<TrackEvent>)
    ensures
        copy@ == track@,
{
    let mut copy: Vec<TrackEvent> = Vec::new();
    let mut j: usize = 0;
    while j < track.len()
        invariant
            j <= track.len(),
            copy@ == track@.take(j as int),
        decreases track.len() - j,
    {
        copy.push(track[j]);
        j = j + 1;
    }
    assert(track@.take(track.len() as int) =~= track@);
    copy
}

/// Lays out the tracks of a file for playback: every track but the tempo
/// track, in file order, each with the timing of the file.
pub fn arrange(file: &MidiFile, meta_track_index: Option<usize>) -> (tracks: Vec<TrackPlus>)
    ensures
        arrangement_view(tracks) == played(file.tracks_seq(), meta_track_index),
        forall|i: int| 0 <= i < tracks.len() ==> (#[trigger] tracks[i]).timing == file.timing,
{
    let ghost all = file.tracks_seq();
    let n: usize = file.tracks.len();
    let skip: usize = match meta_track_index {
        Some(m) => if m < n {
            m
        } else {
            n
        },
        None => n,
    };
    let mut tracks: Vec<TrackPlus> = Vec::new();
    let mut i: usize = 0;
    while i < n
        invariant
            all == file.tracks_seq(),
            n == file.tracks.len(),
            skip <= n,
            i <= n,
            tracks.len() == (if i <= skip {
                i as int
            } else {
                i - 1
            }),
            forall|k: int|
                0 <= k < tracks.len() ==> (#[trigger] tracks[k]).track@ == (if k < skip {
                    all[k]
                } else {
                    all[k + 1]
                }),
            forall|k: int| 0 <= k < tracks.len() ==> (#[trigger] tracks[k]).timing == file.timing,
        decreases n - i,
    {
        if i != skip {
            let track = copy_events(&file.tracks[i]);
            tracks.push(TrackPlus { track, timing: file.timing });
        }
        i = i + 1;
    }
    assert(arrangement_view(tracks) =~= played(all, meta_track_index));
    tracks
}

} // verus!
