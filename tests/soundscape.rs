use synth::ports::{PortManagerImpl, PortName};
use synth::soundscape::first_free_voice;
use synth::voice::VoicePorts;

#[test]
fn first_free_voice_takes_lowest_free() {
    let voices: Vec<Option<f32>> = vec![Some(100.0), None, None];
    assert_eq!(first_free_voice(&voices), Some(1));
    let empty: Vec<Option<f32>> = vec![];
    assert_eq!(first_free_voice(&empty), None);
}

#[test]
fn voice_allocation_drops_note_when_all_busy() {
    // two voices: 100 and 200 take both, 300 finds none free
    let mut voices: Vec<Option<f32>> = vec![None, None];
    for f in [100.0, 200.0] {
        let i = first_free_voice(&voices).unwrap();
        voices[i] = Some(f);
    }
    assert_eq!(voices, vec![Some(100.0), Some(200.0)]);
    assert_eq!(first_free_voice(&voices), None);
    // releasing 100 frees the first voice for 300
    voices[0] = None;
    assert_eq!(first_free_voice(&voices), Some(0));
}

#[test]
fn unwired_samples_input_stays_silent() {
    let mut ports: PortManagerImpl<f32> = PortManagerImpl::new();
    let v = VoicePorts::register(&mut ports).unwrap();
    assert_eq!(ports.get_port_value(&v.samples()), 0.0);
    ports.set_port_value(&v.frequency(), 440.0);
    ports.set_port_value(&v.gate(), 1.0);
    ports.set_port_value(&v.velocity(), 0.5);
    for cc in 0..128u8 {
        ports.set_port_value(&v.control(cc).unwrap(), 42.0);
    }
    assert_eq!(ports.get_port_value(&v.samples()), 0.0);
    let other = ports.register_output_port(&PortName::new("s", "sout")).unwrap();
    ports.set_port_value(&other, 1.0);
    assert_eq!(ports.get_port_value(&v.samples()), 0.0);
    assert_eq!(ports.port_count(), 133);
}

#[test]
fn control_change_broadcast_reads_back() {
    // three voices, each with its own port table
    let mut tables: Vec<(PortManagerImpl<f32>, VoicePorts)> = Vec::new();
    for _ in 0..3 {
        let mut ports: PortManagerImpl<f32> = PortManagerImpl::new();
        let v = VoicePorts::register(&mut ports).unwrap();
        tables.push((ports, v));
    }
    for (ports, v) in tables.iter_mut() {
        ports.set_port_value(&v.control(7).unwrap(), 42u8 as f32);
    }
    for (ports, v) in tables.iter() {
        assert_eq!(ports.get_port_value(&v.control(7).unwrap()), 42.0);
    }
}
