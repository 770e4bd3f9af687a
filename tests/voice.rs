use synth::components::sine::SineWaveOscillatorConfig;
use synth::patch::Connection;
use synth::ports::{PortHandle, PortManagerError, PortManagerImpl, PortName};
use synth::voice::{connect_patch, evaluation_order, VoicePorts, CONTROL_CHANNELS};

fn sine(name: &str) -> SineWaveOscillatorConfig {
    SineWaveOscillatorConfig {
        name: name.to_string(),
        frequency_input_name: "fin".to_string(),
        samples_output_name: "sout".to_string(),
    }
}

fn connection(a: (&str, &str), b: (&str, &str)) -> Connection {
    Connection { first: PortName::new(a.0, a.1), second: PortName::new(b.0, b.1) }
}

#[test]
fn voice_ports_are_registered() {
    let mut ports: PortManagerImpl<f32> = PortManagerImpl::new();
    let v = VoicePorts::register(&mut ports).unwrap();
    assert_eq!(v.frequency().id(), 0);
    assert_eq!(v.gate().id(), 1);
    assert_eq!(v.velocity().id(), 2);
    assert_eq!(v.samples().id(), 3);
    assert_eq!(v.control(0).unwrap().id(), 4);
    assert_eq!(v.control(127).unwrap().id(), 131);
    assert!(v.control(128).is_none());
    assert_eq!(CONTROL_CHANNELS, 128);
    let cc7 = ports.find_port(&PortName::new("voice", "midi_control_7")).unwrap();
    assert!(cc7.promote_to_output().unwrap() == v.control(7).unwrap());
    assert!(ports.find_port(&PortName::new("voice", "midi_control_127")).is_some());
    assert!(VoicePorts::register(&mut ports).unwrap_err() == PortManagerError::PortsNotUnique);
}

#[test]
fn control_change_reaches_wired_port() {
    let mut ports: PortManagerImpl<f32> = PortManagerImpl::new();
    let v = VoicePorts::register(&mut ports).unwrap();
    let inp = ports.register_input_port(&PortName::new("filter", "cutoff")).unwrap();
    let conns = vec![connection(("voice", "midi_control_7"), ("filter", "cutoff"))];
    assert!(connect_patch(&mut ports, &conns).is_ok());
    ports.set_port_value(&v.control(7).unwrap(), 42.0);
    assert_eq!(ports.get_port_value(&inp), 42.0);
}

#[test]
fn connect_patch_stops_at_first_failure() {
    let mut ports: PortManagerImpl<f32> = PortManagerImpl::new();
    let v = VoicePorts::register(&mut ports).unwrap();
    let (fin, _sout) = sine("s").register_ports(&mut ports).unwrap();
    let conns = vec![
        connection(("voice", "midi_frequency_out"), ("s", "fin")),
        connection(("s", "fin"), ("voice", "samples_in")),
        connection(("s", "sout"), ("voice", "samples_in")),
    ];
    assert!(connect_patch(&mut ports, &conns).unwrap_err() == PortManagerError::NotOutputPort);
    // the first connection was made
    ports.set_port_value(&v.frequency(), 440.0);
    assert_eq!(ports.get_port_value(&fin), 440.0);
    let missing = vec![connection(("s", "sout"), ("t", "fin"))];
    assert!(
        connect_patch(&mut ports, &missing).unwrap_err()
            == PortManagerError::NoSuchPort(PortName::new("t", "fin"))
    );
}

#[test]
fn evaluation_order_follows_the_wiring() {
    let mut ports: PortManagerImpl<f32> = PortManagerImpl::new();
    VoicePorts::register(&mut ports).unwrap();
    // registered b before a, but a feeds b
    sine("b").register_ports(&mut ports).unwrap();
    sine("a").register_ports(&mut ports).unwrap();
    let conns = vec![
        connection(("voice", "midi_frequency_out"), ("a", "fin")),
        connection(("a", "sout"), ("b", "fin")),
        connection(("b", "sout"), ("voice", "samples_in")),
    ];
    connect_patch(&mut ports, &conns).unwrap();
    let order = evaluation_order(&ports);
    assert_eq!(order, vec!["voice".to_string(), "a".to_string(), "b".to_string()]);
}

#[test]
fn evaluation_order_with_feedback_cycle() {
    let mut ports: PortManagerImpl<f32> = PortManagerImpl::new();
    VoicePorts::register(&mut ports).unwrap();
    sine("a").register_ports(&mut ports).unwrap();
    sine("b").register_ports(&mut ports).unwrap();
    let conns = vec![
        connection(("voice", "midi_frequency_out"), ("a", "fin")),
        connection(("a", "sout"), ("b", "fin")),
        connection(("b", "sout"), ("a", "fin")),
        connection(("b", "sout"), ("voice", "samples_in")),
    ];
    connect_patch(&mut ports, &conns).unwrap();
    let order = evaluation_order(&ports);
    assert_eq!(order, vec!["voice".to_string(), "a".to_string(), "b".to_string()]);
}

#[test]
fn evaluation_order_lists_unconnected_components() {
    let mut ports: PortManagerImpl<f32> = PortManagerImpl::new();
    VoicePorts::register(&mut ports).unwrap();
    sine("lonely").register_ports(&mut ports).unwrap();
    let order = evaluation_order(&ports);
    assert_eq!(order, vec!["voice".to_string(), "lonely".to_string()]);
}
