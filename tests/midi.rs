use synth::midi::{MidiEvent, MidiMessage, MidiStatus};

#[test]
fn status_bytes() {
    assert_eq!(MidiStatus::from_u8(0x80), Some(MidiStatus::NoteOff));
    assert_eq!(MidiStatus::from_u8(0x90), Some(MidiStatus::NoteOn));
    assert_eq!(MidiStatus::from_u8(0xB0), Some(MidiStatus::ControlChange));
    assert_eq!(MidiStatus::from_u8(0xFF), Some(MidiStatus::SystemReset));
    assert_eq!(MidiStatus::from_u8(0xF4), None);
    assert_eq!(MidiStatus::from_u8(0x91), None);
    let m = MidiMessage { data: &[0xE0, 0, 0] };
    assert_eq!(m.status(), Some(MidiStatus::PitchBend));
    let empty = MidiMessage { data: &[] };
    assert_eq!(empty.status(), None);
}

#[test]
fn decode_note_on_and_off() {
    let on = MidiMessage { data: &[0x90, 69, 100] };
    assert_eq!(on.decode(), MidiEvent::NoteOn { note: 69, velocity: 100 });
    let on_zero = MidiMessage { data: &[0x90, 69, 0] };
    assert_eq!(on_zero.decode(), MidiEvent::NoteOff { note: 69 });
    let off = MidiMessage { data: &[0x80, 60, 64] };
    assert_eq!(off.decode(), MidiEvent::NoteOff { note: 60 });
}

#[test]
fn decode_control_change_and_others() {
    let cc = MidiMessage { data: &[0xB0, 7, 42] };
    assert_eq!(cc.decode(), MidiEvent::ControlChange { controller: 7, value: 42 });
    let pc = MidiMessage { data: &[0xC0, 1, 2] };
    assert_eq!(pc.decode(), MidiEvent::Ignored);
    let short = MidiMessage { data: &[0x90, 60] };
    assert_eq!(short.decode(), MidiEvent::Ignored);
    let unknown = MidiMessage { data: &[0x12, 60, 1] };
    assert_eq!(unknown.decode(), MidiEvent::Ignored);
}
