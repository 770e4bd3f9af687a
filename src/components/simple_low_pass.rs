use crate::components::{in_out_directions, register_in_out};
use crate::ports::{
    InputPortHandle, OutputPortHandle, PortHandle, PortManagerError, PortManagerImpl,
};
use vstd::prelude::*;

verus! {

/// A one-pole low-pass filter: its component name and the names of its input
/// and of its output.
#[derive(Debug, Clone)]
pub struct SimpleLowPassConfig {
    pub name: String,
    pub input_name: String,
    pub output_name: String,
}

impl SimpleLowPassConfig {
    /// Registers the input and then the output.
    pub fn register_ports<V: Copy + Default>(&self, ports: &mut PortManagerImpl<V>) -> (r: Result<
        (InputPortHandle, OutputPortHandle),
        PortManagerError,
    >)
        requires
            old(ports).wf(),
        ensures
            PortManagerImpl::registered_in_turn(
                *old(ports),
                *final(ports),
                seq![
                    (self.name@, self.input_name@),
                    (self.name@, self.output_name@),
                ],
                in_out_directions(),
                r is Ok,
            ),
            match r {
                Ok((i, o)) => i.handle_id() == old(ports).len() && o.handle_id() == old(ports).len()
                    + 1,
                Err(e) => e == PortManagerError::PortsNotUnique,
            },
    {
        register_in_out(ports, &self.name, &self.input_name, &self.output_name)
    }

    pub fn get_name(&self) -> (r: String)
        ensures
            r@ == self.name@,
    {
        self.name.clone()
    }
}

} // verus!
