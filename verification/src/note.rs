//! Note events and their three-byte wire form `[status, key, velocity]`.

use crate::midi::EventKind;
use vstd::prelude::*;

verus! {

/// Status byte of a note-on message.
pub const NOTE_ON: u8 = 144;

/// Status byte of a note-off message.
pub const NOTE_OFF: u8 = 128;

/// Largest key or velocity a message can carry.
pub const DATA_MAX: u8 = 127;

/// A request to start or to stop the voice of a key.
#[derive(Clone, Copy, Debug, PartialEq, Eq, Structural)]
pub enum NoteEvent {
    On { key: u8, velocity: u8 },
    Off { key: u8, velocity: u8 },
}

/// The note event a track event stands for, if any: a note-on with a
/// velocity above zero starts a note, a note-on with velocity zero and every
/// note-off stop one, and all other events carry no note.
pub open spec fn note_of(kind: EventKind) -> Option<NoteEvent> {
    match kind {
        EventKind::NoteOn { key, vel } => if vel > 0 {
            Some(NoteEvent::On { key, velocity: vel })
        } else {
            Some(NoteEvent::Off { key, velocity: vel })
        },
        EventKind::NoteOff { key, vel } => Some(NoteEvent::Off { key, velocity: vel }),
        _ => None,
    }
}

/// Computes [`note_of`].
pub fn note_event(kind: EventKind) -> (r: Option<NoteEvent>)
    ensures
        r == note_of(kind),
{
    match kind {
        EventKind::NoteOn { key, vel } => if vel > 0 {
            Some(NoteEvent::On { key, velocity: vel })
        } else {
            Some(NoteEvent::Off { key, velocity: vel })
        },
        EventKind::NoteOff { key, vel } => Some(NoteEvent::Off { key, velocity: vel }),
        _ => None,
    }
}

impl NoteEvent {
    /// The key the event is about.
    pub open spec fn spec_key(self) -> u8 {
        match self {
            NoteEvent::On { key, .. } => key,
            NoteEvent::Off { key, .. } => key,
        }
    }

    /// The three bytes of the event on the wire.
    pub open spec fn message(self) -> Seq<u8> {
        match self {
            NoteEvent::On { key, velocity } => seq![NOTE_ON, key, velocity],
            NoteEvent::Off { key, velocity } => seq![NOTE_OFF, key, velocity],
        }
    }

    /// The event that three bytes on the wire stand for.
    ///
    /// Only messages of exactly three bytes with key and velocity up to
    /// [`DATA_MAX`] are events. Status [`NOTE_ON`] starts a note when the
    /// velocity is above zero and stops it otherwise; status [`NOTE_OFF`]
    /// stops it.
    pub open spec fn decode(msg: Seq<u8>) -> Option<NoteEvent> {
        if msg.len() != 3 || msg[1] > DATA_MAX || msg[2] > DATA_MAX {
            None
        } else if msg[0] == NOTE_ON && msg[2] > 0 {
            Some(NoteEvent::On { key: msg[1], velocity: msg[2] })
        } else if msg[0] == NOTE_ON || msg[0] == NOTE_OFF {
            Some(NoteEvent::Off { key: msg[1], velocity: msg[2] })
        } else {
            None
        }
    }

    /// Whether the event is one that [`NoteEvent::decode`] can yield.
    pub open spec fn canonical(self) -> bool {
        match self {
            NoteEvent::On { key, velocity } => key <= DATA_MAX && 0 < velocity <= DATA_MAX,
            NoteEvent::Off { key, velocity } => key <= DATA_MAX && velocity <= DATA_MAX,
        }
    }

    pub fn key(&self) -> (k: u8)
        ensures
            k == self.spec_key(),
    {
        match self {
            NoteEvent::On { key, .. } => *key,
            NoteEvent::Off { key, .. } => *key,
        }
    }

    /// Writes the event as its three bytes.
    pub fn to_message(&self) -> (msg: Vec<u8>)
        ensures
            msg@ == self.message(),
    {
        let mut msg: Vec<u8> = Vec::new();
        match self {
            NoteEvent::On { key, velocity } => {
                msg.push(NOTE_ON);
                msg.push(*key);
                msg.push(*velocity);
            },
            NoteEvent::Off { key, velocity } => {
                msg.push(NOTE_OFF);
                msg.push(*key);
                msg.push(*velocity);
            },
        }
        assert(msg@ =~= self.message());
        msg
    }

    /// Reads an event from its bytes; `None` where the bytes are no note
    /// message.
    pub fn from_message(msg: &[u8]) -> (r: Option<NoteEvent>)
        ensures
            r == NoteEvent::decode(msg@),
    {
        if msg.len() != 3 {
            return None;
        }
        let status: u8 = msg[0];
        let key: u8 = msg[1];
        let velocity: u8 = msg[2];
        if key > DATA_MAX || velocity > DATA_MAX {
            None
        } else if status == NOTE_ON && velocity > 0 {
            Some(NoteEvent::On { key, velocity })
        } else if status == NOTE_ON || status == NOTE_OFF {
            Some(NoteEvent::Off { key, velocity })
        } else {
            None
        }
    }
}

/// Writing an event and reading it back gives the same event, for every
/// event that can come off the wire.
pub proof fn lemma_message_round_trip(e: NoteEvent)
    requires
        e.canonical(),
    ensures
        NoteEvent::decode(e.message()) == Some(e),
{
}

/// An event read off the wire is canonical, and a note-off written as a
/// note-on of velocity zero reads back as the note-off.
pub proof fn lemma_decode_canonical(msg: Seq<u8>)
    ensures
        NoteEvent::decode(msg) is Some ==> NoteEvent::decode(msg)->Some_0.canonical(),
        msg.len() == 3 && msg[0] == NOTE_ON && msg[2] == 0 && msg[1] <= DATA_MAX
            ==> NoteEvent::decode(msg) == Some(NoteEvent::Off { key: msg[1], velocity: 0 }),
{
}

} // verus!
