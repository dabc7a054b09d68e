use ui_synth::arrangement::{arrange, get_midi_data};
use ui_synth::midi::{load_midi, EventKind, FrameRate, MidiError, Timing, TrackEvent};
use ui_synth::sequencer::Sequencer;

fn chunk(name: &[u8; 4], body: &[u8]) -> Vec<u8> {
    let mut out = name.to_vec();
    out.extend_from_slice(&(body.len() as u32).to_be_bytes());
    out.extend_from_slice(body);
    out
}

fn header(format: u16, tracks: u16, division: [u8; 2]) -> Vec<u8> {
    let mut body = format.to_be_bytes().to_vec();
    body.extend_from_slice(&tracks.to_be_bytes());
    body.extend_from_slice(&division);
    chunk(b"MThd", &body)
}

fn two_track_file() -> Vec<u8> {
    let mut file = header(1, 2, [0x01, 0xE0]);
    // tempo 600000, then end of track after 16 ticks
    file.extend(chunk(b"MTrk", &[0x00, 0xFF, 0x51, 0x03, 0x09, 0x27, 0xC0, 0x10, 0xFF, 0x2F, 0x00]));
    // note on, note off after 480 ticks, a controller change, end of track
    file.extend(chunk(
        b"MTrk",
        &[
            0x00, 0x90, 0x3C, 0x40, 0x83, 0x60, 0x80, 0x3C, 0x20, 0x05, 0xB0, 0x07, 0x64, 0x00,
            0xFF, 0x2F, 0x00,
        ],
    ));
    file
}

#[test]
fn load_reads_timing_and_tracks() {
    let file = load_midi(&two_track_file()).unwrap();
    assert_eq!(file.timing, Timing::Metrical(480));
    assert_eq!(file.tracks.len(), 2);
    assert_eq!(
        file.tracks[0],
        vec![
            TrackEvent { delta: 0, kind: EventKind::Tempo(600_000) },
            TrackEvent { delta: 16, kind: EventKind::EndOfTrack },
        ]
    );
    assert_eq!(
        file.tracks[1],
        vec![
            TrackEvent { delta: 0, kind: EventKind::NoteOn { key: 60, vel: 64 } },
            TrackEvent { delta: 480, kind: EventKind::NoteOff { key: 60, vel: 32 } },
            TrackEvent { delta: 5, kind: EventKind::Other },
            TrackEvent { delta: 0, kind: EventKind::EndOfTrack },
        ]
    );
}

#[test]
fn load_reads_timecode_timing() {
    for (byte, rate) in [
        (0xE8u8, FrameRate::Fps24),
        (0xE7, FrameRate::Fps25),
        (0xE3, FrameRate::Fps29),
        (0xE2, FrameRate::Fps30),
    ] {
        let mut bytes = header(0, 1, [byte, 40]);
        bytes.extend(chunk(b"MTrk", &[0x00, 0xFF, 0x2F, 0x00]));
        let file = load_midi(&bytes).unwrap();
        assert_eq!(file.timing, Timing::Timecode(rate, 40));
    }
}

#[test]
fn load_reads_a_file_without_tracks() {
    let file = load_midi(&header(1, 0, [0x00, 0x60])).unwrap();
    assert_eq!(file.timing, Timing::Metrical(96));
    assert_eq!(file.tracks.len(), 0);
}

#[test]
fn load_refuses_what_is_no_midi_file() {
    assert_eq!(load_midi(&[]).err(), Some(MidiError::MalformedMidiFile));
    assert_eq!(load_midi(b"not a midi file").err(), Some(MidiError::MalformedMidiFile));
    assert_eq!(load_midi(&[0x4D, 0x54, 0x68, 0x64, 0, 0, 0, 6, 0]).err(), Some(MidiError::MalformedMidiFile));
}

#[test]
fn load_refuses_a_file_without_timing() {
    // a track chunk with no header chunk before it
    let bytes = chunk(b"MTrk", &[0x00, 0xFF, 0x2F, 0x00]);
    assert_eq!(load_midi(&bytes).err(), Some(MidiError::MalformedMidiFile));
}

#[test]
fn loaded_file_plays_without_its_tempo_track() {
    let file = load_midi(&two_track_file()).unwrap();
    let data = get_midi_data(&file.tracks);
    assert_eq!(data.tempo, 600_000);
    assert_eq!(data.meta_track_index, Some(0));
    assert_eq!(data.length_in_ticks, 485);
    let tracks = arrange(&file, data.meta_track_index);
    assert_eq!(tracks.len(), 1);
    let mut s = Sequencer::new(&tracks, data.tempo, data.length_in_ticks).unwrap();
    assert_eq!(s.total(), 606_250);
    let mut notes = Vec::new();
    loop {
        let at = s.elapsed();
        let step = s.step();
        for note in step.notes.iter() {
            notes.push((at, note.to_message()));
        }
        if step.finished {
            break;
        }
    }
    assert_eq!(notes, vec![(0, vec![144, 60, 64]), (600_000, vec![128, 60, 32])]);
    assert_eq!(s.elapsed(), 606_250);
}

#[test]
fn load_refuses_a_timecode_rate_of_128() {
    let bytes = [0x4D, 0x54, 0x68, 0x64, 0, 0, 0, 6, 0, 1, 0, 0, 0x80, 0];
    assert_eq!(load_midi(&bytes).err(), Some(MidiError::MalformedMidiFile));

    let mut with_track = header(1, 1, [0x80, 40]);
    with_track.extend(chunk(b"MTrk", &[0x00, 0xFF, 0x2F, 0x00]));
    assert_eq!(load_midi(&with_track).err(), Some(MidiError::MalformedMidiFile));
}

#[test]
fn load_refuses_a_second_header_with_a_rate_of_128() {
    let mut bytes = header(1, 1, [0x01, 0xE0]);
    bytes.extend(header(1, 1, [0x80, 0x00]));
    bytes.extend(chunk(b"MTrk", &[0x00, 0xFF, 0x2F, 0x00]));
    assert_eq!(load_midi(&bytes).err(), Some(MidiError::MalformedMidiFile));
}

#[test]
fn load_refuses_a_rate_of_128_inside_a_riff_wrapper() {
    let inner = header(1, 0, [0x80, 0x01]);
    let mut body = b"RMID".to_vec();
    body.extend_from_slice(b"data");
    body.extend_from_slice(&(inner.len() as u32).to_le_bytes());
    body.extend_from_slice(&inner);
    let mut bytes = b"RIFF".to_vec();
    bytes.extend_from_slice(&(body.len() as u32).to_le_bytes());
    bytes.extend_from_slice(&body);
    assert_eq!(load_midi(&bytes).err(), Some(MidiError::MalformedMidiFile));
}

#[test]
fn load_refuses_a_header_name_with_the_byte_where_a_timing_would_be() {
    // a text event that spells the name of a header chunk, with 0x80 twelve
    // bytes after its start
    let mut bytes = header(1, 1, [0x01, 0xE0]);
    bytes.extend(chunk(
        b"MTrk",
        &[
            0x00, 0xFF, 0x01, 0x04, b'M', b'T', b'h', b'd', 0x00, 0x90, 0x3C, 0x40, 0x00, 0x3E,
            0x40, 0x00, 0x80, 0x3C, 0x00, 0x00, 0xFF, 0x2F, 0x00,
        ],
    ));
    assert_eq!(load_midi(&bytes).err(), Some(MidiError::MalformedMidiFile));
}

#[test]
fn load_reads_other_timings_and_note_offs() {
    // the byte 0x80 elsewhere, and other high bytes in the timing, are read
    let file = load_midi(&two_track_file()).unwrap();
    assert_eq!(file.tracks[1][1].kind, EventKind::NoteOff { key: 60, vel: 32 });
    let mut odd = header(1, 0, [0x81, 0x02]);
    assert_eq!(load_midi(&odd).err(), Some(MidiError::MalformedMidiFile));
    odd = header(1, 0, [0x7F, 0xFF]);
    assert_eq!(load_midi(&odd).unwrap().timing, Timing::Metrical(0x7FFF));
}
