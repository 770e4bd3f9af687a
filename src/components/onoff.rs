use crate::ports::{
    InputPortHandle, OutputPortHandle, PortDirection, PortHandle, PortManagerError,
    PortManagerImpl, PortName,
};
use vstd::prelude::*;

verus! {

/// An on/off gate: its component name.
#[derive(Debug, Clone)]
pub struct OnOffConfig {
    pub name: String,
}

impl OnOffConfig {
    pub fn build_component(&self) -> (r: OnOff)
        ensures
            r.spec_name() == self.name@,
            r.spec_samples_in() is None,
            r.spec_gate_in() is None,
            r.spec_samples_out() is None,
    {
        OnOff::new(self.name.clone())
    }
}

/// Passes its samples input to its samples output while its gate input is not
/// zero. Its ports are `samples_in` and `gate_in` (inputs) and `samples_out`
/// (output), in that order.
#[derive(Debug)]
pub struct OnOff {
    name: String,
    samples_in: Option<InputPortHandle>,
    gate_in: Option<InputPortHandle>,
    samples_out: Option<OutputPortHandle>,
}

/// The ports of an on/off gate named `name`, in the order they are registered.
pub open spec fn onoff_port_names(name: Seq<char>) -> Seq<(Seq<char>, Seq<char>)> {
    seq![(name, "samples_in"@), (name, "gate_in"@), (name, "samples_out"@)]
}

pub open spec fn onoff_port_directions() -> Seq<PortDirection> {
    seq![PortDirection::Input, PortDirection::Input, PortDirection::Output]
}

impl OnOff {
    pub closed spec fn spec_name(&self) -> Seq<char> {
        self.name@
    }

    pub closed spec fn spec_samples_in(&self) -> Option<InputPortHandle> {
        self.samples_in
    }

    pub closed spec fn spec_gate_in(&self) -> Option<InputPortHandle> {
        self.gate_in
    }

    pub closed spec fn spec_samples_out(&self) -> Option<OutputPortHandle> {
        self.samples_out
    }

    pub fn new(name: String) -> (r: Self)
        ensures
            r.spec_name() == name@,
            r.spec_samples_in() is None,
            r.spec_gate_in() is None,
            r.spec_samples_out() is None,
    {
        OnOff { name, samples_in: None, gate_in: None, samples_out: None }
    }

    /// Registers `samples_in`, `gate_in` and `samples_out` one after the other
    /// and keeps the handles; the first name that is taken stops it with
    /// `PortsNotUnique`.
    pub fn initialize_ports<V: Copy + Default>(&mut self, ports: &mut PortManagerImpl<V>) -> (r:
        Result<(), PortManagerError>)
        requires
            old(ports).wf(),
        ensures
            final(self).spec_name() == old(self).spec_name(),
            PortManagerImpl::registered_in_turn(
                *old(ports),
                *final(ports),
                onoff_port_names(old(self).spec_name()),
                onoff_port_directions(),
                r is Ok,
            ),
            match r {
                Ok(_) => {
                    &&& final(self).spec_samples_in() matches Some(h) && h.handle_id() == old(ports).len()
                    &&& final(self).spec_gate_in() matches Some(h) && h.handle_id() == old(ports).len() + 1
                    &&& final(self).spec_samples_out() matches Some(h) && h.handle_id() == old(ports).len() + 2
                },
                Err(e) => e == PortManagerError::PortsNotUnique,
            },
    {
        let mut names: Vec<PortName> = Vec::new();
        names.push(PortName::new(&self.name, "samples_in"));
        names.push(PortName::new(&self.name, "gate_in"));
        names.push(PortName::new(&self.name, "samples_out"));
        let mut dirs: Vec<PortDirection> = Vec::new();
        dirs.push(PortDirection::Input);
        dirs.push(PortDirection::Input);
        dirs.push(PortDirection::Output);
        proof {
            assert(names@.map_values(|n: PortName| n@) =~= onoff_port_names(self.name@));
            assert(dirs@ =~= onoff_port_directions());
        }
        let hs = match ports.register_in_turn(&names, &dirs) {
            Ok(hs) => hs,
            Err(e) => {
                return Err(e);
            },
        };
        proof {
            assert(hs@[0].handle_id() == old(ports).len() + 0);
            assert(hs@[1].handle_id() == old(ports).len() + 1);
            assert(hs@[2].handle_id() == old(ports).len() + 2);
        }
        let samples_in = match hs[0].promote_to_input() {
            Ok(h) => h,
            Err(e) => {
                return Err(e);
            },
        };
        let gate_in = match hs[1].promote_to_input() {
            Ok(h) => h,
            Err(e) => {
                return Err(e);
            },
        };
        let samples_out = match hs[2].promote_to_output() {
            Ok(h) => h,
            Err(e) => {
                return Err(e);
            },
        };
        self.samples_in = Some(samples_in);
        self.gate_in = Some(gate_in);
        self.samples_out = Some(samples_out);
        Ok(())
    }

    pub fn samples_in(&self) -> (r: Option<InputPortHandle>)
        ensures
            r == self.spec_samples_in(),
    {
        self.samples_in
    }

    pub fn gate_in(&self) -> (r: Option<InputPortHandle>)
        ensures
            r == self.spec_gate_in(),
    {
        self.gate_in
    }

    pub fn samples_out(&self) -> (r: Option<OutputPortHandle>)
        ensures
            r == self.spec_samples_out(),
    {
        self.samples_out
    }

    pub fn get_name(&self) -> (r: String)
        ensures
            r@ == self.spec_name(),
    {
        self.name.clone()
    }
}

} // verus!
