use crate::ports::{
    InputPortHandle, OutputPortHandle, PortDirection, PortHandle, PortManagerError,
    PortManagerImpl, PortName,
};
use crate::text::{decimal, decimal_string};
use vstd::prelude::*;
use vstd::string::StringExecFns;

verus! {

/// The name of input `i` of a combiner named `component`.
pub open spec fn combine_input_name(component: Seq<char>, i: nat) -> Seq<char> {
    component + "_input"@ + decimal(i)
}

/// The name of input `i` of a combiner named `component`.
fn input_port_name(component: &String, i: usize) -> (r: String)
    ensures
        r@ == combine_input_name(component@, i as nat),
{
    let digits = decimal_string(i);
    component.clone().concat("_input").concat(digits.as_str())
}

/// The ports of a combiner named `name` with `n` inputs, in the order they are
/// registered: the inputs, then the output `out`.
pub open spec fn combine_port_names(name: Seq<char>, n: nat) -> Seq<(Seq<char>, Seq<char>)> {
    Seq::new(n, |i: int| (name, combine_input_name(name, i as nat))).push((name, "out"@))
}

pub open spec fn combine_port_directions(n: nat) -> Seq<PortDirection> {
    Seq::new(n, |i: int| PortDirection::Input).push(PortDirection::Output)
}

/// Has a number of inputs and writes to its output the mean of those that are
/// not zero.
#[derive(Debug)]
pub struct CombineInputs {
    name: String,
    num_inputs: usize,
    inputs: Vec<InputPortHandle>,
    output: Option<OutputPortHandle>,
}

impl CombineInputs {
    pub closed spec fn spec_name(&self) -> Seq<char> {
        self.name@
    }

    pub closed spec fn spec_num_inputs(&self) -> nat {
        self.num_inputs as nat
    }

    pub closed spec fn spec_inputs(&self) -> Seq<InputPortHandle> {
        self.inputs@
    }

    pub closed spec fn spec_output(&self) -> Option<OutputPortHandle> {
        self.output
    }

    pub fn new(name: String, num_inputs: usize) -> (r: Self)
        ensures
            r.spec_name() == name@,
            r.spec_num_inputs() == num_inputs,
            r.spec_inputs().len() == 0,
            r.spec_output() is None,
    {
        CombineInputs { name, num_inputs, inputs: Vec::new(), output: None }
    }

    /// Registers the inputs and then the output in turn and keeps their handles;
    /// the first name that is taken stops it with `PortsNotUnique`.
    pub fn initialize_ports<V: Copy + Default>(&mut self, ports: &mut PortManagerImpl<V>) -> (r:
        Result<(), PortManagerError>)
        requires
            old(ports).wf(),
            old(self).spec_num_inputs() < usize::MAX,
        ensures
            final(self).spec_name() == old(self).spec_name(),
            final(self).spec_num_inputs() == old(self).spec_num_inputs(),
            PortManagerImpl::registered_in_turn(
                *old(ports),
                *final(ports),
                combine_port_names(old(self).spec_name(), old(self).spec_num_inputs()),
                combine_port_directions(old(self).spec_num_inputs()),
                r is Ok,
            ),
            match r {
                Ok(_) => {
                    &&& final(self).spec_inputs().len() == old(self).spec_num_inputs()
                    &&& forall|i: int|
                        0 <= i < old(self).spec_num_inputs() ==> #[trigger] final(self).spec_inputs()[i].handle_id()
                            == old(ports).len() + i
                    &&& final(self).spec_output() matches Some(h) && h.handle_id() == old(ports).len()
                        + old(self).spec_num_inputs()
                },
                Err(e) => e == PortManagerError::PortsNotUnique,
            },
    {
        let n = self.num_inputs;
        let ghost name = self.name@;
        let mut names: Vec<PortName> = Vec::new();
        let mut dirs: Vec<PortDirection> = Vec::new();
        let mut i: usize = 0;
        while i < n
            invariant
                i <= n,
                name == self.name@,
                names@.map_values(|p: PortName| p@) =~= Seq::new(
                    i as nat,
                    |k: int| (name, combine_input_name(name, k as nat)),
                ),
                dirs@ =~= Seq::new(i as nat, |k: int| PortDirection::Input),
            decreases n - i,
        {
            let iname = input_port_name(&self.name, i);
            let ghost before = names@.map_values(|p: PortName| p@);
            let pn = PortName::new(&self.name, &iname);
            names.push(pn);
            dirs.push(PortDirection::Input);
            proof {
                assert(names@.map_values(|p: PortName| p@) =~= before.push(pn@));
                assert(pn@ == (name, combine_input_name(name, i as nat)));
            }
            i = i + 1;
        }
        names.push(PortName::new(&self.name, "out"));
        dirs.push(PortDirection::Output);
        proof {
            assert(names@.map_values(|p: PortName| p@) =~= combine_port_names(name, n as nat));
            assert(dirs@ =~= combine_port_directions(n as nat));
        }
        let hs = match ports.register_in_turn(&names, &dirs) {
            Ok(hs) => hs,
            Err(e) => {
                return Err(e);
            },
        };
        let mut inputs: Vec<InputPortHandle> = Vec::new();
        let mut k: usize = 0;
        while k < n
            invariant
                k <= n,
                n < usize::MAX,
                hs@.len() == n + 1,
                dirs@ == combine_port_directions(n as nat),
                crate::ports::handles_in_turn(hs@, old(ports).len(), dirs@),
                inputs@.len() == k,
                forall|j: int| 0 <= j < k ==> #[trigger] inputs@[j].handle_id() == old(ports).len() + j,
            decreases n - k,
        {
            proof {
                assert(hs@[k as int].handle_id() == old(ports).len() + k);
                assert(dirs@[k as int] == PortDirection::Input);
            }
            let h = match hs[k].promote_to_input() {
                Ok(h) => h,
                Err(e) => {
                    return Err(e);
                },
            };
            inputs.push(h);
            k = k + 1;
        }
        proof {
            assert(hs@[n as int].handle_id() == old(ports).len() + n);
            assert(dirs@[n as int] == PortDirection::Output);
        }
        let output = match hs[n].promote_to_output() {
            Ok(h) => h,
            Err(e) => {
                return Err(e);
            },
        };
        self.inputs = inputs;
        self.output = Some(output);
        Ok(())
    }

    pub fn inputs(&self) -> (r: &Vec<InputPortHandle>)
        ensures
            r@ == self.spec_inputs(),
    {
        &self.inputs
    }

    pub fn output(&self) -> (r: Option<OutputPortHandle>)
        ensures
            r == self.spec_output(),
    {
        self.output
    }

    pub fn get_name(&self) -> (r: String)
        ensures
            r@ == self.spec_name(),
    {
        self.name.clone()
    }
}

} // verus!
