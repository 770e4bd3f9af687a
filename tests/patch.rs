use synth::patch::{Patch, PatchComponent, PatchError};
use synth::ports::PortName;

fn words(lines: &[&str]) -> Vec<Vec<String>> {
    lines
        .iter()
        .map(|l| l.split_whitespace().map(|w| w.to_string()).collect())
        .collect()
}

#[test]
fn patch_from_words_reads_components_and_connections() {
    let lines = words(&[
        "sine s fin sout",
        "",
        "connect voice midi_frequency_out s fin",
        "on_off g",
        "square q f o",
        "low_pass lp x y",
        "connect s sout voice samples_in",
    ]);
    let p = Patch::from_words(&lines).unwrap();
    assert_eq!(p.components.len(), 4);
    assert_eq!(p.connections.len(), 2);
    match &p.components[0] {
        PatchComponent::SineWaveOscillator(c) => {
            assert_eq!(c.name, "s");
            assert_eq!(c.frequency_input_name, "fin");
            assert_eq!(c.samples_output_name, "sout");
        }
        _ => panic!("expected a sine oscillator"),
    }
    match &p.components[1] {
        PatchComponent::OnOff(c) => assert_eq!(c.name, "g"),
        _ => panic!("expected an on/off gate"),
    }
    match &p.components[3] {
        PatchComponent::SimpleLowPass(c) => {
            assert_eq!((c.input_name.as_str(), c.output_name.as_str()), ("x", "y"))
        }
        _ => panic!("expected a low-pass filter"),
    }
    assert_eq!(p.components[2].name(), "q");
    assert_eq!(p.connections[0].first, PortName::new("voice", "midi_frequency_out"));
    assert_eq!(p.connections[0].second, PortName::new("s", "fin"));
    assert_eq!(p.connections[1].second, PortName::new("voice", "samples_in"));
}

#[test]
fn patch_empty_is_silent_patch() {
    let p = Patch::from_words(&words(&["", ""])).unwrap();
    assert!(p.components.is_empty());
    assert!(p.connections.is_empty());
}

#[test]
fn patch_unknown_component() {
    let lines = words(&["sine s a b", "saw x a b", "bogus"]);
    assert_eq!(
        Patch::from_words(&lines).unwrap_err(),
        PatchError::UnknownComponent("saw".to_string())
    );
}

#[test]
fn patch_wrong_arity() {
    let lines = words(&["on_off g", "", "connect a b c", "bogus"]);
    assert_eq!(Patch::from_words(&lines).unwrap_err(), PatchError::WrongArity(2));
    let lines = words(&["on_off g h"]);
    assert_eq!(Patch::from_words(&lines).unwrap_err(), PatchError::WrongArity(0));
}
