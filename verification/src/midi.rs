//! The Standard MIDI File model the sequencer works on, and its decoding.
//!
//! Decoding the bytes is done by the `midly` crate. What it yields is carried
//! over, event by event, into the plain types of this module.

use vstd::prelude::*;

verus! {

/// Frames per second of a timecode-timed file.
#[derive(Clone, Copy, Debug, PartialEq, Eq, Structural)]
pub enum FrameRate {
    Fps24,
    Fps25,
    /// 29.97 frames per second, that is 30 / 1.001.
    Fps29,
    Fps30,
}

/// How a file measures its ticks.
#[derive(Clone, Copy, Debug, PartialEq, Eq, Structural)]
pub enum Timing {
    /// Ticks per quarter note.
    Metrical(u16),
    /// Frames per second and ticks per frame.
    Timecode(FrameRate, u8),
}

/// What an event of a track is, as far as playback reads it.
#[derive(Clone, Copy, Debug, PartialEq, Eq, Structural)]
pub enum EventKind {
    NoteOn { key: u8, vel: u8 },
    NoteOff { key: u8, vel: u8 },
    /// Microseconds per quarter note.
    Tempo(u32),
    EndOfTrack,
    /// Any event that playback passes over.
    Other,
}

/// One event of a track: `delta` ticks after the event before it.
#[derive(Clone, Copy, Debug, PartialEq, Eq, Structural)]
pub struct TrackEvent {
    pub delta: u32,
    pub kind: EventKind,
}

/// A decoded file: its timing and its tracks in file order.
#[derive(Debug)]
pub struct MidiFile {
    pub timing: Timing,
    pub tracks: Vec<Vec<TrackEvent>>,
}

/// Why a file could not be used.
#[derive(Clone, Copy, Debug, PartialEq, Eq, Structural)]
pub enum MidiError {
    /// The bytes are not a well-formed Standard MIDI File, or the file's
    /// timing cannot be played.
    MalformedMidiFile,
}

/// The tracks of a vector of tracks, as sequences of events.
pub open spec fn tracks_view(tracks: Vec<Vec<TrackEvent>>) -> Seq<Seq<TrackEvent>> {
    Seq::new(tracks.len() as nat, |i: int| tracks[i]@)
}

impl MidiFile {
    /// The tracks of the file, as sequences of events.
    pub open spec fn tracks_seq(self) -> Seq<Seq<TrackEvent>> {
        tracks_view(self.tracks)
    }
}

/// `midly::Smf`, a decoded file, taken as opaque: all that is read of it
/// goes through [`smf_timing`] and [`smf_tracks`].
#[verifier::external_type_specification]
#[verifier::external_body]
pub struct ExSmf<'a>(midly::Smf<'a>);

/// `midly::Error`, taken as opaque: nothing is read of it.
#[verifier::external_type_specification]
#[verifier::external_body]
pub struct ExSmfError(midly::Error);

/// The tracks held by a decoded `midly::Smf`, each event carried over into
/// [`TrackEvent`].
pub uninterp spec fn smf_tracks(smf: midly::Smf) -> Seq<Seq<TrackEvent>>;

/// The timing in the header of a decoded `midly::Smf`.
pub uninterp spec fn smf_timing(smf: midly::Smf) -> Timing;

/// What `midly::Smf::parse` makes of `bytes`: the timing and tracks of the
/// file it decodes, or `None` where it reports an error.
pub uninterp spec fn parsed_smf(bytes: Seq<u8>) -> Option<(Timing, Seq<Seq<TrackEvent>>)>;

/// Whether the name of a header chunk, the four bytes `MThd`, stands at `p`
/// with the byte `0x80` where the high byte of that header's timing would
/// be, twelve bytes on.
pub open spec fn bad_division_at(bytes: Seq<u8>, p: int) -> bool {
    &&& 0 <= p
    &&& p + 12 < bytes.len()
    &&& bytes[p] == 0x4D
    &&& bytes[p + 1] == 0x54
    &&& bytes[p + 2] == 0x68
    &&& bytes[p + 3] == 0x64
    &&& bytes[p + 12] == 0x80
}

/// Whether the bytes may hold a header whose timing is timecode at a frame
/// rate of 128: no such rate exists, and the decoder is not to be given it.
pub open spec fn has_bad_division(bytes: Seq<u8>) -> bool {
    exists|p: int| #[trigger] bad_division_at(bytes, p)
}

/// Calls `midly::Smf::parse`. Nothing is claimed about which bytes decode:
/// only that the outcome is the one named by [`parsed_smf`], and that a
/// decoded file holds exactly the named timing and tracks.
///
/// `midly` reads the timing of every header chunk it meets and negates the
/// high byte of a timecode timing as a signed byte, which overflows for
/// `0x80`. Bytes that could lead it there are left out.
#[verifier::external_body]
fn parse_smf(bytes: &[u8]) -> (r: Result<midly::Smf<'_>, midly::Error>)
    requires
        !has_bad_division(bytes@),
    ensures
        match r {
            Ok(smf) => parsed_smf(bytes@) == Some((smf_timing(smf), smf_tracks(smf))),
            Err(_) => parsed_smf(bytes@).is_none(),
        },
{
    midly::Smf::parse(bytes)
}

/// Computes [`has_bad_division`].
fn find_bad_division(bytes: &[u8]) -> (found: bool)
    ensures
        found == has_bad_division(bytes@),
{
    let n: usize = bytes.len();
    if n < 13 {
        assert forall|p: int| !#[trigger] bad_division_at(bytes@, p) by {}
        return false;
    }
    let last: usize = n - 13;
    let mut p: usize = 0;
    while p <= last
        invariant
            n == bytes.len(),
            n >= 13,
            last == n - 13,
            p <= last + 1,
            forall|q: int| 0 <= q < p ==> !#[trigger] bad_division_at(bytes@, q),
        decreases last + 1 - p,
    {
        if bytes[p] == 0x4D && bytes[p + 1] == 0x54 && bytes[p + 2] == 0x68 && bytes[p + 3] == 0x64
            && bytes[p + 12] == 0x80 {
            assert(bad_division_at(bytes@, p as int));
            return true;
        }
        p = p + 1;
    }
    assert forall|q: int| !#[trigger] bad_division_at(bytes@, q) by {}
    false
}

/// Reads `header.timing` of a `midly::Smf`, variant by variant.
#[verifier::external_body]
fn smf_header_timing(smf: &midly::Smf) -> (t: Timing)
    ensures
        t == smf_timing(*smf),
{
    match smf.header.timing {
        midly::Timing::Metrical(t) => Timing::Metrical(t.as_int()),
        midly::Timing::Timecode(midly::Fps::Fps24, s) => Timing::Timecode(FrameRate::Fps24, s),
        midly::Timing::Timecode(midly::Fps::Fps25, s) => Timing::Timecode(FrameRate::Fps25, s),
        midly::Timing::Timecode(midly::Fps::Fps29, s) => Timing::Timecode(FrameRate::Fps29, s),
        midly::Timing::Timecode(midly::Fps::Fps30, s) => Timing::Timecode(FrameRate::Fps30, s),
    }
}

/// The length of the field `tracks` of a `midly::Smf`.
#[verifier::external_body]
fn smf_track_count(smf: &midly::Smf) -> (n: usize)
    ensures
        n == smf_tracks(*smf).len(),
{
    smf.tracks.len()
}

/// The length of track `i` of a `midly::Smf`.
#[verifier::external_body]
fn smf_track_len(smf: &midly::Smf, i: usize) -> (n: usize)
    requires
        i < smf_tracks(*smf).len(),
    ensures
        n == smf_tracks(*smf)[i as int].len(),
{
    smf.tracks[i].len()
}

/// Reads event `j` of track `i` of a `midly::Smf`: its `delta`, and of its
/// `kind` the note, tempo and end-of-track variants with their fields; every
/// other variant is carried over as [`EventKind::Other`].
#[verifier::external_body]
fn smf_event(smf: &midly::Smf, i: usize, j: usize) -> (e: TrackEvent)
    requires
        i < smf_tracks(*smf).len(),
        j < smf_tracks(*smf)[i as int].len(),
    ensures
        e == smf_tracks(*smf)[i as int][j as int],
{
    let ev = &smf.tracks[i][j];
    let kind = match ev.kind {
        midly::TrackEventKind::Midi { message: midly::MidiMessage::NoteOn { key, vel }, .. } => {
            EventKind::NoteOn { key: key.as_int(), vel: vel.as_int() }
        },
        midly::TrackEventKind::Midi { message: midly::MidiMessage::NoteOff { key, vel }, .. } => {
            EventKind::NoteOff { key: key.as_int(), vel: vel.as_int() }
        },
        midly::TrackEventKind::Meta(midly::MetaMessage::Tempo(t)) => EventKind::Tempo(t.as_int()),
        midly::TrackEventKind::Meta(midly::MetaMessage::EndOfTrack) => EventKind::EndOfTrack,
        _ => EventKind::Other,
    };
    TrackEvent { delta: ev.delta.as_int(), kind }
}

/// Carries track `i` of a decoded file over into a vector of events.
fn copy_track(smf: &midly::Smf, i: usize) -> (track: Vec<TrackEvent>)
    requires
        i < smf_tracks(*smf).len(),
    ensures
        track@ == smf_tracks(*smf)[i as int],
{
    let n: usize = smf_track_len(smf, i);
    let mut track: Vec<TrackEvent> = Vec::new();
    let mut j: usize = 0;
    while j < n
        invariant
            i < smf_tracks(*smf).len(),
            n == smf_tracks(*smf)[i as int].len(),
            j <= n,
            track@ == smf_tracks(*smf)[i as int].take(j as int),
        decreases n - j,
    {
        let e = smf_event(smf, i, j);
        track.push(e);
        j = j + 1;
    }
    track
}

/// Carries a decoded file over into a [`MidiFile`].
fn copy_smf(smf: &midly::Smf) -> (file: MidiFile)
    ensures
        file.timing == smf_timing(*smf),
        file.tracks_seq() == smf_tracks(*smf),
{
    let timing = smf_header_timing(smf);
    let n: usize = smf_track_count(smf);
    let mut tracks: Vec<Vec<TrackEvent>> = Vec::new();
    let mut i: usize = 0;
    while i < n
        invariant
            n == smf_tracks(*smf).len(),
            i <= n,
            tracks.len() == i,
            forall|k: int| 0 <= k < i ==> (#[trigger] tracks[k])@ == smf_tracks(*smf)[k],
        decreases n - i,
    {
        let track = copy_track(smf, i);
        tracks.push(track);
        i = i + 1;
    }
    let file = MidiFile { timing, tracks };
    assert(file.tracks_seq() =~= smf_tracks(*smf));
    file
}

/// Decodes the bytes of a Standard MIDI File.
///
/// Bytes that may hold a header with a timecode rate of 128 are refused as
/// malformed without decoding. For all others the result is an error exactly
/// where the decoder rejects the bytes, and otherwise the file with the
/// decoder's timing and tracks.
pub fn load_midi(bytes: &[u8]) -> (r: Result<MidiFile, MidiError>)
    ensures
        has_bad_division(bytes@) ==> r == Err::<MidiFile, MidiError>(MidiError::MalformedMidiFile),
        !has_bad_division(bytes@) ==> match parsed_smf(bytes@) {
            Some((timing, tracks)) => r is Ok && r->Ok_0.timing == timing && r->Ok_0.tracks_seq()
                == tracks,
            None => r == Err::<MidiFile, MidiError>(MidiError::MalformedMidiFile),
        },
{
    if find_bad_division(bytes) {
        return Err(MidiError::MalformedMidiFile);
    }
    match parse_smf(bytes) {
        Ok(smf) => Ok(copy_smf(&smf)),
        Err(_) => Err(MidiError::MalformedMidiFile),
    }
}

} // verus!
