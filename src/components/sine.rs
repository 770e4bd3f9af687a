use crate::components::{in_out_directions, register_in_out};
use crate::ports::{
    InputPortHandle, OutputPortHandle, PortHandle, PortManagerError, PortManagerImpl,
};
use vstd::prelude::*;

verus! {

/// A sine oscillator: its component name and the names of its frequency input
/// and of its samples output.
#[derive(Debug, Clone)]
pub struct SineWaveOscillatorConfig {
    pub name: String,
    pub frequency_input_name: String,
    pub samples_output_name: String,
}

impl SineWaveOscillatorConfig {
    /// Registers the frequency input and then the samples output.
    pub fn register_ports<V: Copy + Default>(&self, ports: &mut PortManagerImpl<V>) -> (r: Result<
        (InputPortHandle, OutputPortHandle),
        PortManagerError,
    >)
        requires
            old(ports).wf(),
        ensures
            PortManagerImpl::registered_in_turn(
                *old(ports),
                *final(ports),
                seq![
                    (self.name@, self.frequency_input_name@),
                    (self.name@, self.samples_output_name@),
                ],
                in_out_directions(),
                r is Ok,
            ),
            match r {
                Ok((i, o)) => i.handle_id() == old(ports).len() && o.handle_id() == old(ports).len()
                    + 1,
                Err(e) => e == PortManagerError::PortsNotUnique,
            },
    {
        register_in_out(ports, &self.name, &self.frequency_input_name, &self.samples_output_name)
    }

    pub fn get_name(&self) -> (r: String)
        ensures
            r@ == self.name@,
    {
        self.name.clone()
    }
}

} // verus!
