use crate::patch::Connection;
use crate::ports::{
    components_of, InputPortHandle, OutputPortHandle, PortDirection, PortHandle, PortId,
    PortManagerError, PortManagerImpl, PortName,
};
use crate::text::{decimal, decimal_string};
use crate::topo::{schedule, scheduled, AdjacencyMatrix};
use vstd::prelude::*;
use vstd::string::StringExecFns;

verus! {

/// The number of MIDI control-change channels.
pub const CONTROL_CHANNELS: usize = 128;

/// The name of the port of a voice that carries control-change channel `i`.
pub open spec fn control_port_name(i: nat) -> Seq<char> {
    "midi_control_"@ + decimal(i)
}

/// The ports of a voice, in the order they are registered: the note frequency,
/// gate and velocity outputs, the samples input, then one output per
/// control-change channel.
pub open spec fn voice_port_names() -> Seq<(Seq<char>, Seq<char>)> {
    seq![
        ("voice"@, "midi_frequency_out"@),
        ("voice"@, "midi_gate_out"@),
        ("voice"@, "midi_velocity_out"@),
        ("voice"@, "samples_in"@),
    ] + Seq::new(CONTROL_CHANNELS as nat, |i: int| ("voice"@, control_port_name(i as nat)))
}

pub open spec fn voice_port_directions() -> Seq<PortDirection> {
    seq![PortDirection::Output, PortDirection::Output, PortDirection::Output, PortDirection::Input]
        + Seq::new(CONTROL_CHANNELS as nat, |i: int| PortDirection::Output)
}

/// The handles of the ports through which a voice is played and heard.
#[derive(Debug, Clone)]
pub struct VoicePorts {
    midi_frequency_in: OutputPortHandle,
    midi_gate_in: OutputPortHandle,
    midi_vel_in: OutputPortHandle,
    midi_control_ports: Vec<OutputPortHandle>,
    samples_out: InputPortHandle,
}

impl VoicePorts {
    pub closed spec fn spec_frequency(&self) -> OutputPortHandle {
        self.midi_frequency_in
    }

    pub closed spec fn spec_gate(&self) -> OutputPortHandle {
        self.midi_gate_in
    }

    pub closed spec fn spec_velocity(&self) -> OutputPortHandle {
        self.midi_vel_in
    }

    pub closed spec fn spec_controls(&self) -> Seq<OutputPortHandle> {
        self.midi_control_ports@
    }

    pub closed spec fn spec_samples(&self) -> InputPortHandle {
        self.samples_out
    }

    /// The handles point at the ports that a registration from id `start` on made.
    pub open spec fn registered_from(&self, start: nat) -> bool {
        &&& self.spec_frequency().handle_id() == start
        &&& self.spec_gate().handle_id() == start + 1
        &&& self.spec_velocity().handle_id() == start + 2
        &&& self.spec_samples().handle_id() == start + 3
        &&& self.spec_controls().len() == CONTROL_CHANNELS
        &&& forall|i: int|
            0 <= i < CONTROL_CHANNELS ==> #[trigger] self.spec_controls()[i].handle_id() == start + 4
                + i
    }

    /// Registers the ports of a voice in turn; the first name that is taken
    /// stops it with `PortsNotUnique`.
    pub fn register<V: Copy + Default>(ports: &mut PortManagerImpl<V>) -> (r: Result<
        VoicePorts,
        PortManagerError,
    >)
        requires
            old(ports).wf(),
        ensures
            PortManagerImpl::registered_in_turn(
                *old(ports),
                *final(ports),
                voice_port_names(),
                voice_port_directions(),
                r is Ok,
            ),
            match r {
                Ok(v) => v.registered_from(old(ports).len()),
                Err(e) => e == PortManagerError::PortsNotUnique,
            },
    {
        let mut names: Vec<PortName> = Vec::new();
        names.push(PortName::new("voice", "midi_frequency_out"));
        names.push(PortName::new("voice", "midi_gate_out"));
        names.push(PortName::new("voice", "midi_velocity_out"));
        names.push(PortName::new("voice", "samples_in"));
        let mut dirs: Vec<PortDirection> = Vec::new();
        dirs.push(PortDirection::Output);
        dirs.push(PortDirection::Output);
        dirs.push(PortDirection::Output);
        dirs.push(PortDirection::Input);
        let ghost head = seq![
            ("voice"@, "midi_frequency_out"@),
            ("voice"@, "midi_gate_out"@),
            ("voice"@, "midi_velocity_out"@),
            ("voice"@, "samples_in"@),
        ];
        let ghost head_dirs = seq![
            PortDirection::Output,
            PortDirection::Output,
            PortDirection::Output,
            PortDirection::Input,
        ];
        proof {
            assert(names@.map_values(|n: PortName| n@) =~= head);
            assert(dirs@ =~= head_dirs);
        }
        let mut i: usize = 0;
        while i < CONTROL_CHANNELS
            invariant
                i <= CONTROL_CHANNELS,
                names@.map_values(|n: PortName| n@) =~= head + Seq::new(
                    i as nat,
                    |k: int| ("voice"@, control_port_name(k as nat)),
                ),
                dirs@ =~= head_dirs + Seq::new(i as nat, |k: int| PortDirection::Output),
            decreases CONTROL_CHANNELS - i,
        {
            let digits = decimal_string(i);
            let pname = String::from_str("midi_control_").concat(digits.as_str());
            let ghost before = names@.map_values(|n: PortName| n@);
            let pn = PortName::new("voice", pname.as_str());
            names.push(pn);
            dirs.push(PortDirection::Output);
            proof {
                assert(names@.map_values(|n: PortName| n@) =~= before.push(pn@));
            }
            i = i + 1;
        }
        let hs = match ports.register_in_turn(&names, &dirs) {
            Ok(hs) => hs,
            Err(e) => {
                return Err(e);
            },
        };
        proof {
            assert(hs@[0].handle_id() == old(ports).len() + 0);
            assert(hs@[1].handle_id() == old(ports).len() + 1);
            assert(hs@[2].handle_id() == old(ports).len() + 2);
            assert(hs@[3].handle_id() == old(ports).len() + 3);
        }
        let midi_frequency_in = match hs[0].promote_to_output() {
            Ok(h) => h,
            Err(e) => {
                return Err(e);
            },
        };
        let midi_gate_in = match hs[1].promote_to_output() {
            Ok(h) => h,
            Err(e) => {
                return Err(e);
            },
        };
        let midi_vel_in = match hs[2].promote_to_output() {
            Ok(h) => h,
            Err(e) => {
                return Err(e);
            },
        };
        let samples_out = match hs[3].promote_to_input() {
            Ok(h) => h,
            Err(e) => {
                return Err(e);
            },
        };
        let mut midi_control_ports: Vec<OutputPortHandle> = Vec::new();
        let mut k: usize = 0;
        while k < CONTROL_CHANNELS
            invariant
                k <= CONTROL_CHANNELS,
                hs@.len() == 4 + CONTROL_CHANNELS,
                dirs@ =~= voice_port_directions(),
                crate::ports::handles_in_turn(hs@, old(ports).len(), dirs@),
                midi_control_ports@.len() == k,
                forall|j: int|
                    0 <= j < k ==> #[trigger] midi_control_ports@[j].handle_id() == old(ports).len()
                        + 4 + j,
            decreases CONTROL_CHANNELS - k,
        {
            proof {
                assert(hs@[4 + k].handle_id() == old(ports).len() + (4 + k));
                assert(dirs@[4 + k] == PortDirection::Output);
            }
            let h = match hs[4 + k].promote_to_output() {
                Ok(h) => h,
                Err(e) => {
                    return Err(e);
                },
            };
            midi_control_ports.push(h);
            k = k + 1;
        }
        Ok(VoicePorts { midi_frequency_in, midi_gate_in, midi_vel_in, midi_control_ports, samples_out })
    }

    pub fn frequency(&self) -> (r: OutputPortHandle)
        ensures
            r == self.spec_frequency(),
    {
        self.midi_frequency_in
    }

    pub fn gate(&self) -> (r: OutputPortHandle)
        ensures
            r == self.spec_gate(),
    {
        self.midi_gate_in
    }

    pub fn velocity(&self) -> (r: OutputPortHandle)
        ensures
            r == self.spec_velocity(),
    {
        self.midi_vel_in
    }

    pub fn samples(&self) -> (r: InputPortHandle)
        ensures
            r == self.spec_samples(),
    {
        self.samples_out
    }

    /// The output that carries control-change channel `cc`, if there is one.
    pub fn control(&self, cc: u8) -> (r: Option<OutputPortHandle>)
        ensures
            r == if (cc as int) < self.spec_controls().len() {
                Some(self.spec_controls()[cc as int])
            } else {
                None
            },
    {
        let i = cc as usize;
        if i < self.midi_control_ports.len() {
            Some(self.midi_control_ports[i])
        } else {
            None
        }
    }
}

/// Connects the ports of each connection by name, in turn, stopping at the
/// first that fails; that one's error is returned.
pub fn connect_patch<V: Copy + Default>(
    ports: &mut PortManagerImpl<V>,
    connections: &Vec<Connection>,
) -> (r: Result<(), PortManagerError>)
    requires
        old(ports).wf(),
    ensures
        final(ports).wf(),
        final(ports).port_names() == old(ports).port_names(),
        final(ports).directions() == old(ports).directions(),
        final(ports).values() == old(ports).values(),
        (r is Ok) == forall|k: int|
            0 <= k < connections@.len() ==> old(ports).resolves(
                #[trigger] connections@[k].first@,
                connections@[k].second@,
            ),
        r is Ok ==> final(ports).connections() == old(ports).connections() + Seq::new(
            connections@.len(),
            |k: int|
                (
                    old(ports).id_of(connections@[k].first@) as PortId,
                    old(ports).id_of(connections@[k].second@) as PortId,
                ),
        ),
        r is Err ==> exists|k: int|
            0 <= k < connections@.len() && PortManagerImpl::by_name_outcome(
                *final(ports),
                *final(ports),
                #[trigger] connections@[k].first@,
                connections@[k].second@,
                r,
            ),
{
    let ghost start = *ports;
    let mut k: usize = 0;
    while k < connections.len()
        invariant
            start == *old(ports),
            start.wf(),
            ports.wf(),
            k <= connections@.len(),
            ports.port_names() == start.port_names(),
            ports.directions() == start.directions(),
            ports.values() == start.values(),
            forall|j: int|
                0 <= j < k ==> start.resolves(
                    #[trigger] connections@[j].first@,
                    connections@[j].second@,
                ),
            ports.connections() == start.connections() + Seq::new(
                k as nat,
                |j: int|
                    (
                        start.id_of(connections@[j].first@) as PortId,
                        start.id_of(connections@[j].second@) as PortId,
                    ),
            ),
        decreases connections@.len() - k,
    {
        let c = &connections[k];
        let ghost mid = *ports;
        let res = ports.connect_by_name(&c.first, &c.second);
        match res {
            Ok(()) => {
                proof {
                    assert(start.resolves(c.first@, c.second@));
                    assert(ports.connections() =~= start.connections() + Seq::new(
                        (k + 1) as nat,
                        |j: int|
                            (
                                start.id_of(connections@[j].first@) as PortId,
                                start.id_of(connections@[j].second@) as PortId,
                            ),
                    ));
                }
            },
            Err(e) => {
                proof {
                    assert(!start.resolves(c.first@, c.second@));
                }
                return Err(e);
            },
        }
        k = k + 1;
    }
    proof {
        assert(ports.connections() =~= start.connections() + Seq::new(
            connections@.len(),
            |j: int|
                (
                    start.id_of(connections@[j].first@) as PortId,
                    start.id_of(connections@[j].second@) as PortId,
                ),
        ));
    }
    Ok(())
}

/// `adj` is the component adjacency matrix of `ports`: one row and column per
/// component, in the order of `components_of`, and an edge where some output of
/// one is connected to some input of the other.
pub open spec fn is_component_adjacency<V>(ports: PortManagerImpl<V>, adj: AdjacencyMatrix) -> bool {
    let comps = components_of(ports.port_names());
    &&& adj.wf()
    &&& adj.rows() == comps.len()
    &&& adj.cols() == comps.len()
    &&& forall|i: int, j: int|
        0 <= i < comps.len() && 0 <= j < comps.len() ==> #[trigger] adj.at(i, j)
            == ports.component_edge(comps[i], comps[j])
}

/// The names of the components of `ports` in the order in which a voice
/// evaluates them: the schedule of their adjacency matrix.
pub fn evaluation_order<V: Copy + Default>(ports: &PortManagerImpl<V>) -> (r: Vec<String>)
    requires
        ports.wf(),
        ports.len() * ports.len() <= usize::MAX,
    ensures
        exists|adj: AdjacencyMatrix, order: Seq<usize>|
            {
                &&& is_component_adjacency(*ports, adj)
                &&& #[trigger] scheduled(adj, order)
                &&& r@.map_values(|s: String| s@) == order.map_values(
                    |k: usize| components_of(ports.port_names())[k as int],
                )
            },
{
    let (names, mut adj) = ports.get_component_adjacency_matrix();
    let ghost comps = names@.map_values(|s: String| s@);
    let ghost before = adj;
    proof {
        assert(is_component_adjacency(*ports, adj)) by {
            assert forall|i: int, j: int|
                0 <= i < comps.len() && 0 <= j < comps.len() implies #[trigger] adj.at(i, j)
                == ports.component_edge(comps[i], comps[j]) by {
                assert(comps[i] == names@[i]@);
                assert(comps[j] == names@[j]@);
            }
        }
    }
    let order = schedule(&mut adj);
    proof {
        let after = choose|after: AdjacencyMatrix|
            #[trigger] crate::topo::back_edges_removed(before, after) && crate::topo::ordered_by(
                after,
                order@,
            ) && (crate::topo::is_acyclic(after) ==> crate::topo::is_permutation(
                order@,
                after.rows(),
            ));
        assert(after.rows() == names@.len());
    }
    let mut r: Vec<String> = Vec::new();
    let mut k: usize = 0;
    while k < order.len()
        invariant
            k <= order@.len(),
            comps == names@.map_values(|s: String| s@),
            forall|a: int| 0 <= a < order@.len() ==> #[trigger] order@[a] < names@.len(),
            r@.map_values(|s: String| s@) =~= order@.take(k as int).map_values(
                |x: usize| comps[x as int],
            ),
        decreases order@.len() - k,
    {
        let ghost prev = r@.map_values(|s: String| s@);
        let s = names[order[k]].clone();
        r.push(s);
        proof {
            assert(order@.take(k + 1) =~= order@.take(k as int).push(order@[k as int]));
            assert(r@.map_values(|s: String| s@) =~= prev.push(comps[order@[k as int] as int]));
        }
        k = k + 1;
    }
    proof {
        assert(order@.take(order@.len() as int) =~= order@);
        assert(comps == components_of(ports.port_names()));
        assert(scheduled(before, order@));
    }
    r
}

} // verus!
