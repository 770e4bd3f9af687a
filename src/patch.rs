use crate::components::onoff::OnOffConfig;
use crate::components::simple_low_pass::SimpleLowPassConfig;
use crate::components::sine::SineWaveOscillatorConfig;
use crate::components::square::SquareWaveOscillatorConfig;
use crate::ports::PortName;
use vstd::prelude::*;
use vstd::string::StringExecFns;

verus! {

/// A connection of a patch: from the output port `first` to the input port `second`.
#[derive(Debug, Clone)]
pub struct Connection {
    pub first: PortName,
    pub second: PortName,
}

/// One component of a patch, with its configuration.
#[derive(Debug, Clone)]
pub enum PatchComponent {
    OnOff(OnOffConfig),
    SimpleLowPass(SimpleLowPassConfig),
    SineWaveOscillator(SineWaveOscillatorConfig),
    SquareWaveOscillator(SquareWaveOscillatorConfig),
}

impl PatchComponent {
    pub open spec fn spec_name(&self) -> Seq<char> {
        match self {
            PatchComponent::OnOff(c) => c.name@,
            PatchComponent::SimpleLowPass(c) => c.name@,
            PatchComponent::SineWaveOscillator(c) => c.name@,
            PatchComponent::SquareWaveOscillator(c) => c.name@,
        }
    }

    pub fn name(&self) -> (r: String)
        ensures
            r@ == self.spec_name(),
    {
        match self {
            PatchComponent::OnOff(c) => c.name.clone(),
            PatchComponent::SimpleLowPass(c) => c.name.clone(),
            PatchComponent::SineWaveOscillator(c) => c.name.clone(),
            PatchComponent::SquareWaveOscillator(c) => c.name.clone(),
        }
    }
}

/// A description of a voice: its components and the connections between their ports.
#[derive(Debug, Clone)]
pub struct Patch {
    pub connections: Vec<Connection>,
    pub components: Vec<PatchComponent>,
}

/// Why the words of a patch could not be read.
#[derive(Debug, Clone, PartialEq)]
pub enum PatchError {
    /// A line starts with a word that names no kind of line.
    UnknownComponent(String),
    /// The line at this index has the wrong number of words for its kind.
    WrongArity(usize),
}

/// The number of words of a line that starts with `k`, if `k` names a kind of line.
pub open spec fn keyword_arity(k: Seq<char>) -> Option<nat> {
    if k == "sine"@ || k == "square"@ || k == "low_pass"@ {
        Some(4)
    } else if k == "on_off"@ {
        Some(2)
    } else if k == "connect"@ {
        Some(5)
    } else {
        None
    }
}

/// An empty line, or one whose first word names its kind and whose length fits it.
pub open spec fn line_ok(words: Seq<Seq<char>>) -> bool {
    words.len() == 0 || keyword_arity(words[0]) == Some(words.len())
}

pub open spec fn is_component_line(words: Seq<Seq<char>>) -> bool {
    words.len() > 0 && words[0] != "connect"@
}

pub open spec fn is_connection_line(words: Seq<Seq<char>>) -> bool {
    words.len() > 0 && words[0] == "connect"@
}

/// A component written back as the words of its line.
pub open spec fn component_words(c: PatchComponent) -> Seq<Seq<char>> {
    match c {
        PatchComponent::OnOff(c) => seq!["on_off"@, c.name@],
        PatchComponent::SimpleLowPass(c) => seq!["low_pass"@, c.name@, c.input_name@, c.output_name@],
        PatchComponent::SineWaveOscillator(c) => seq![
            "sine"@,
            c.name@,
            c.frequency_input_name@,
            c.samples_output_name@,
        ],
        PatchComponent::SquareWaveOscillator(c) => seq![
            "square"@,
            c.name@,
            c.frequency_input_name@,
            c.samples_output_name@,
        ],
    }
}

/// A connection written back as the words of its line.
pub open spec fn connection_words(c: Connection) -> Seq<Seq<char>> {
    seq!["connect"@, c.first@.0, c.first@.1, c.second@.0, c.second@.1]
}

pub open spec fn words_of(line: Vec<String>) -> Seq<Seq<char>> {
    line@.map_values(|w: String| w@)
}

/// Builds the item of a line known to be well formed.
fn line_item(words: &Vec<String>) -> (r: Result<PatchComponent, Connection>)
    requires
        words@.len() > 0,
        line_ok(words_of(*words)),
    ensures
        match r {
            Ok(c) => is_component_line(words_of(*words)) && component_words(c) == words_of(*words),
            Err(c) => is_connection_line(words_of(*words)) && connection_words(c) == words_of(
                *words,
            ),
        },
{
    let ghost w = words_of(*words);
    proof {
        reveal_strlit("sine");
        reveal_strlit("square");
        reveal_strlit("low_pass");
        reveal_strlit("on_off");
        reveal_strlit("connect");
        assert(forall|i: int| 0 <= i < words@.len() ==> w[i] == #[trigger] words@[i]@);
        assert("sine"@.len() == 4 && "square"@.len() == 6 && "low_pass"@.len() == 8);
        assert("on_off"@.len() == 6 && "connect"@.len() == 7);
        assert("square"@[0] != "on_off"@[0]);
    }
    let k = &words[0];
    if *k == String::from_str("connect") {
        let c = Connection {
            first: PortName::new(words[1].as_str(), words[2].as_str()),
            second: PortName::new(words[3].as_str(), words[4].as_str()),
        };
        assert(connection_words(c) =~= w);
        Err(c)
    } else if *k == String::from_str("on_off") {
        let c = PatchComponent::OnOff(OnOffConfig { name: words[1].clone() });
        assert(component_words(c) =~= w);
        Ok(c)
    } else if *k == String::from_str("low_pass") {
        let c = PatchComponent::SimpleLowPass(
            SimpleLowPassConfig {
                name: words[1].clone(),
                input_name: words[2].clone(),
                output_name: words[3].clone(),
            },
        );
        assert(component_words(c) =~= w);
        Ok(c)
    } else if *k == String::from_str("sine") {
        let c = PatchComponent::SineWaveOscillator(
            SineWaveOscillatorConfig {
                name: words[1].clone(),
                frequency_input_name: words[2].clone(),
                samples_output_name: words[3].clone(),
            },
        );
        assert(component_words(c) =~= w);
        Ok(c)
    } else {
        let c = PatchComponent::SquareWaveOscillator(
            SquareWaveOscillatorConfig {
                name: words[1].clone(),
                frequency_input_name: words[2].clone(),
                samples_output_name: words[3].clone(),
            },
        );
        assert(component_words(c) =~= w);
        Ok(c)
    }
}

/// The number of words of a line that starts with `k`, if `k` names a kind of line.
fn arity_of(k: &String) -> (r: Option<usize>)
    ensures
        match keyword_arity(k@) {
            Some(n) => r == Some(n as usize),
            None => r is None,
        },
{
    proof {
        reveal_strlit("sine");
        reveal_strlit("square");
        reveal_strlit("low_pass");
        reveal_strlit("on_off");
        reveal_strlit("connect");
    }
    if *k == String::from_str("sine") || *k == String::from_str("square") || *k == String::from_str(
        "low_pass",
    ) {
        Some(4)
    } else if *k == String::from_str("on_off") {
        Some(2)
    } else if *k == String::from_str("connect") {
        Some(5)
    } else {
        None
    }
}

impl Patch {
    /// Reads a patch from the words of its lines. A line is empty, or
    /// `sine <name> <frequency input> <samples output>`,
    /// `square <name> <frequency input> <samples output>`,
    /// `low_pass <name> <input> <output>`, `on_off <name>`, or
    /// `connect <component> <output port> <component> <input port>`.
    /// The first line that is none of these gives the error.
    pub fn from_words(lines: &Vec<Vec<String>>) -> (r: Result<Patch, PatchError>)
        ensures
            (r is Ok) == forall|k: int| 0 <= k < lines@.len() ==> line_ok(words_of(#[trigger] lines@[k])),
            r matches Ok(p) ==> {
                &&& p.components@.map_values(|c: PatchComponent| component_words(c))
                    == lines@.map_values(|l: Vec<String>| words_of(l)).filter(|w: Seq<Seq<char>>| is_component_line(w))
                &&& p.connections@.map_values(|c: Connection| connection_words(c))
                    == lines@.map_values(|l: Vec<String>| words_of(l)).filter(|w: Seq<Seq<char>>| is_connection_line(w))
            },
            r matches Err(e) ==> exists|k: int|
                {
                    &&& 0 <= k < lines@.len()
                    &&& forall|j: int| 0 <= j < k ==> line_ok(words_of(#[trigger] lines@[j]))
                    &&& !line_ok(words_of(#[trigger] lines@[k]))
                    &&& match e {
                        PatchError::UnknownComponent(w) => keyword_arity(words_of(lines@[k])[0]) is None
                            && w@ == words_of(lines@[k])[0],
                        PatchError::WrongArity(i) => keyword_arity(words_of(lines@[k])[0]) is Some
                            && i == k,
                    }
                },
    {
        let ghost all = lines@.map_values(|l: Vec<String>| words_of(l));
        let mut components: Vec<PatchComponent> = Vec::new();
        let mut connections: Vec<Connection> = Vec::new();
        let mut k: usize = 0;
        while k < lines.len()
            invariant
                k <= lines@.len(),
                all == lines@.map_values(|l: Vec<String>| words_of(l)),
                forall|j: int| 0 <= j < k ==> line_ok(words_of(#[trigger] lines@[j])),
                components@.map_values(|c: PatchComponent| component_words(c)) == all.take(
                    k as int,
                ).filter(|w: Seq<Seq<char>>| is_component_line(w)),
                connections@.map_values(|c: Connection| connection_words(c)) == all.take(
                    k as int,
                ).filter(|w: Seq<Seq<char>>| is_connection_line(w)),
            decreases lines@.len() - k,
        {
            let words = &lines[k];
            let ghost w = words_of(*words);
            let ghost cs = components@.map_values(|c: PatchComponent| component_words(c));
            let ghost ns = connections@.map_values(|c: Connection| connection_words(c));
            proof {
                assert(all[k as int] == w);
                assert(all.take(k + 1) =~= all.take(k as int).push(w));
                reveal(Seq::filter);
                assert(all.take(k + 1).drop_last() =~= all.take(k as int));
            }
            if words.len() > 0 {
                proof {
                    assert(w[0] == words@[0]@);
                }
                match arity_of(&words[0]) {
                    None => {
                        return Err(PatchError::UnknownComponent(words[0].clone()));
                    },
                    Some(n) => {
                        if n != words.len() {
                            return Err(PatchError::WrongArity(k));
                        }
                    },
                }
                match line_item(words) {
                    Ok(c) => {
                        components.push(c);
                        proof {
                            assert(components@.map_values(|c: PatchComponent| component_words(c))
                                =~= cs.push(w));
                        }
                    },
                    Err(c) => {
                        connections.push(c);
                        proof {
                            assert(connections@.map_values(|c: Connection| connection_words(c))
                                =~= ns.push(w));
                        }
                    },
                }
            }
            k = k + 1;
        }
        proof {
            assert(all.take(lines@.len() as int) =~= all);
        }
        Ok(Patch { connections, components })
    }
}

} // verus!
