use vstd::prelude::*;

verus! {

/// The status bytes of MIDI messages.
#[derive(Debug, PartialEq, Eq, Clone, Copy, Structural)]
pub enum MidiStatus {
    NoteOff,
    NoteOn,
    PolyphonicAftertouch,
    ControlChange,
    ProgramChange,
    ChannelAftertouch,
    PitchBend,
    SysExStart,
    MIDITimeCodeQtrFrame,
    SongPositionPointer,
    SongSelect,
    TuneRequest,
    SysExEnd,
    TimingClock,
    Start,
    Continue,
    Stop,
    ActiveSensing,
    SystemReset,
}

/// The status that byte `b` stands for, if any.
pub open spec fn status_of(b: u8) -> Option<MidiStatus> {
    if b == 0x80 {
        Some(MidiStatus::NoteOff)
    } else if b == 0x90 {
        Some(MidiStatus::NoteOn)
    } else if b == 0xA0 {
        Some(MidiStatus::PolyphonicAftertouch)
    } else if b == 0xB0 {
        Some(MidiStatus::ControlChange)
    } else if b == 0xC0 {
        Some(MidiStatus::ProgramChange)
    } else if b == 0xD0 {
        Some(MidiStatus::ChannelAftertouch)
    } else if b == 0xE0 {
        Some(MidiStatus::PitchBend)
    } else if b == 0xF0 {
        Some(MidiStatus::SysExStart)
    } else if b == 0xF1 {
        Some(MidiStatus::MIDITimeCodeQtrFrame)
    } else if b == 0xF2 {
        Some(MidiStatus::SongPositionPointer)
    } else if b == 0xF3 {
        Some(MidiStatus::SongSelect)
    } else if b == 0xF6 {
        Some(MidiStatus::TuneRequest)
    } else if b == 0xF7 {
        Some(MidiStatus::SysExEnd)
    } else if b == 0xF8 {
        Some(MidiStatus::TimingClock)
    } else if b == 0xFA {
        Some(MidiStatus::Start)
    } else if b == 0xFB {
        Some(MidiStatus::Continue)
    } else if b == 0xFC {
        Some(MidiStatus::Stop)
    } else if b == 0xFE {
        Some(MidiStatus::ActiveSensing)
    } else if b == 0xFF {
        Some(MidiStatus::SystemReset)
    } else {
        None
    }
}

impl MidiStatus {
    pub fn from_u8(b: u8) -> (r: Option<MidiStatus>)
        ensures
            r == status_of(b),
    {
        match b {
            0x80 => Some(MidiStatus::NoteOff),
            0x90 => Some(MidiStatus::NoteOn),
            0xA0 => Some(MidiStatus::PolyphonicAftertouch),
            0xB0 => Some(MidiStatus::ControlChange),
            0xC0 => Some(MidiStatus::ProgramChange),
            0xD0 => Some(MidiStatus::ChannelAftertouch),
            0xE0 => Some(MidiStatus::PitchBend),
            0xF0 => Some(MidiStatus::SysExStart),
            0xF1 => Some(MidiStatus::MIDITimeCodeQtrFrame),
            0xF2 => Some(MidiStatus::SongPositionPointer),
            0xF3 => Some(MidiStatus::SongSelect),
            0xF6 => Some(MidiStatus::TuneRequest),
            0xF7 => Some(MidiStatus::SysExEnd),
            0xF8 => Some(MidiStatus::TimingClock),
            0xFA => Some(MidiStatus::Start),
            0xFB => Some(MidiStatus::Continue),
            0xFC => Some(MidiStatus::Stop),
            0xFE => Some(MidiStatus::ActiveSensing),
            0xFF => Some(MidiStatus::SystemReset),
            _ => None,
        }
    }
}

/// What a MIDI message asks of the synthesizer.
#[derive(Debug, PartialEq, Eq, Clone, Copy, Structural)]
pub enum MidiEvent {
    NoteOn { note: u8, velocity: u8 },
    NoteOff { note: u8 },
    ControlChange { controller: u8, value: u8 },
    Ignored,
}

/// The event of the message `data`: a note-on with velocity zero is a note-off;
/// messages shorter than three bytes and other statuses are ignored.
pub open spec fn event_of(data: Seq<u8>) -> MidiEvent {
    if data.len() < 3 {
        MidiEvent::Ignored
    } else {
        match status_of(data[0]) {
            Some(MidiStatus::NoteOn) => if data[2] == 0 {
                MidiEvent::NoteOff { note: data[1] }
            } else {
                MidiEvent::NoteOn { note: data[1], velocity: data[2] }
            },
            Some(MidiStatus::NoteOff) => MidiEvent::NoteOff { note: data[1] },
            Some(MidiStatus::ControlChange) => MidiEvent::ControlChange {
                controller: data[1],
                value: data[2],
            },
            _ => MidiEvent::Ignored,
        }
    }
}

/// The raw bytes of one MIDI message.
pub struct MidiMessage<'a> {
    pub data: &'a [u8],
}

impl<'a> MidiMessage<'a> {
    /// The status of the first byte, if the message has one and it is known.
    pub fn status(&self) -> (r: Option<MidiStatus>)
        ensures
            r == if self.data@.len() == 0 {
                None
            } else {
                status_of(self.data@[0])
            },
    {
        if self.data.len() == 0 {
            None
        } else {
            MidiStatus::from_u8(self.data[0])
        }
    }

    pub fn decode(&self) -> (r: MidiEvent)
        ensures
            r == event_of(self.data@),
    {
        if self.data.len() < 3 {
            return MidiEvent::Ignored;
        }
        match self.status() {
            Some(MidiStatus::NoteOn) => {
                if self.data[2] == 0 {
                    MidiEvent::NoteOff { note: self.data[1] }
                } else {
                    MidiEvent::NoteOn { note: self.data[1], velocity: self.data[2] }
                }
            },
            Some(MidiStatus::NoteOff) => MidiEvent::NoteOff { note: self.data[1] },
            Some(MidiStatus::ControlChange) => MidiEvent::ControlChange {
                controller: self.data[1],
                value: self.data[2],
            },
            _ => MidiEvent::Ignored,
        }
    }
}

} // verus!
