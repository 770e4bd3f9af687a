use synth::components::combine::CombineInputs;
use synth::components::onoff::{OnOff, OnOffConfig};
use synth::components::simple_low_pass::SimpleLowPassConfig;
use synth::components::sine::SineWaveOscillatorConfig;
use synth::components::square::SquareWaveOscillatorConfig;
use synth::ports::{PortHandle, PortManagerError, PortManagerImpl, PortName};

#[test]
fn onoff_registers_its_three_ports() {
    let mut ports: PortManagerImpl<f32> = PortManagerImpl::new();
    ports.register_output_port(&PortName::new("voice", "x")).unwrap();
    let mut gate = OnOffConfig { name: "gate".to_string() }.build_component();
    assert!(gate.samples_in().is_none());
    assert!(gate.initialize_ports(&mut ports).is_ok());
    assert_eq!(gate.get_name(), "gate");
    assert_eq!(gate.samples_in().unwrap().id(), 1);
    assert_eq!(gate.gate_in().unwrap().id(), 2);
    assert_eq!(gate.samples_out().unwrap().id(), 3);
    let found = ports.find_port(&PortName::new("gate", "samples_out")).unwrap();
    assert!(found.promote_to_output().unwrap() == gate.samples_out().unwrap());
    assert!(ports.find_port(&PortName::new("gate", "gate_in")).is_some());
}

#[test]
fn onoff_fails_on_taken_name() {
    let mut ports: PortManagerImpl<f32> = PortManagerImpl::new();
    ports.register_output_port(&PortName::new("gate", "gate_in")).unwrap();
    let mut gate = OnOff::new("gate".to_string());
    assert!(gate.initialize_ports(&mut ports).unwrap_err() == PortManagerError::PortsNotUnique);
}

#[test]
fn combine_names_its_inputs_in_decimal() {
    let mut ports: PortManagerImpl<f32> = PortManagerImpl::new();
    let mut mix = CombineInputs::new("mix".to_string(), 12);
    assert!(mix.initialize_ports(&mut ports).is_ok());
    assert_eq!(mix.inputs().len(), 12);
    assert_eq!(mix.get_name(), "mix");
    for (i, h) in mix.inputs().iter().enumerate() {
        assert_eq!(h.id(), i);
    }
    assert_eq!(mix.output().unwrap().id(), 12);
    assert!(ports.find_port(&PortName::new("mix", "mix_input0")).is_some());
    let tenth = ports.find_port(&PortName::new("mix", "mix_input10")).unwrap();
    assert_eq!(tenth.id(), 10);
    assert!(ports.find_port(&PortName::new("mix", "mix_input12")).is_none());
    assert!(ports.find_port(&PortName::new("mix", "out")).is_some());
}

#[test]
fn combine_fails_on_taken_output() {
    let mut ports: PortManagerImpl<f32> = PortManagerImpl::new();
    ports.register_input_port(&PortName::new("mix", "out")).unwrap();
    let mut mix = CombineInputs::new("mix".to_string(), 2);
    assert!(mix.initialize_ports(&mut ports).unwrap_err() == PortManagerError::PortsNotUnique);
    // the inputs before the taken name stay registered
    assert!(ports.find_port(&PortName::new("mix", "mix_input1")).is_some());
}

#[test]
fn one_in_one_out_components_register_input_then_output() {
    let mut ports: PortManagerImpl<f32> = PortManagerImpl::new();
    let sine = SineWaveOscillatorConfig {
        name: "s".to_string(),
        frequency_input_name: "fin".to_string(),
        samples_output_name: "sout".to_string(),
    };
    let (i, o) = sine.register_ports(&mut ports).unwrap();
    assert_eq!((i.id(), o.id()), (0, 1));
    assert_eq!(sine.get_name(), "s");

    let square = SquareWaveOscillatorConfig {
        name: "q".to_string(),
        frequency_input_name: "fin".to_string(),
        samples_output_name: "sout".to_string(),
    };
    let (i, o) = square.register_ports(&mut ports).unwrap();
    assert_eq!((i.id(), o.id()), (2, 3));

    let lp = SimpleLowPassConfig {
        name: "lp".to_string(),
        input_name: "x".to_string(),
        output_name: "x".to_string(),
    };
    // the output's name is the input's: the input stays, the output is refused
    assert!(lp.register_ports(&mut ports).unwrap_err() == PortManagerError::PortsNotUnique);
    assert!(ports.find_port(&PortName::new("lp", "x")).unwrap().promote_to_input().is_ok());
}
