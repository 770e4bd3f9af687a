pub mod combine;
pub mod onoff;
pub mod simple_low_pass;
pub mod sine;
pub mod square;

use crate::ports::{
    InputPortHandle, OutputPortHandle, PortDirection, PortHandle, PortManagerError,
    PortManagerImpl, PortName,
};
use vstd::prelude::*;

verus! {

/// The directions of a component with one input port followed by one output port.
pub open spec fn in_out_directions() -> Seq<PortDirection> {
    seq![PortDirection::Input, PortDirection::Output]
}

/// Registers the input port `(component, input)` and then the output port
/// `(component, output)`; where the second name is taken, the first stays registered.
pub fn register_in_out<V: Copy + Default>(
    ports: &mut PortManagerImpl<V>,
    component: &str,
    input: &str,
    output: &str,
) -> (r: Result<(InputPortHandle, OutputPortHandle), PortManagerError>)
    requires
        old(ports).wf(),
    ensures
        PortManagerImpl::registered_in_turn(
            *old(ports),
            *final(ports),
            seq![(component@, input@), (component@, output@)],
            in_out_directions(),
            r is Ok,
        ),
        match r {
            Ok((i, o)) => i.handle_id() == old(ports).len() && o.handle_id() == old(ports).len() + 1,
            Err(e) => e == PortManagerError::PortsNotUnique,
        },
{
    let mut names: Vec<PortName> = Vec::new();
    names.push(PortName::new(component, input));
    names.push(PortName::new(component, output));
    let mut dirs: Vec<PortDirection> = Vec::new();
    dirs.push(PortDirection::Input);
    dirs.push(PortDirection::Output);
    proof {
        assert(names@.map_values(|n: PortName| n@) =~= seq![
            (component@, input@),
            (component@, output@),
        ]);
        assert(dirs@ =~= in_out_directions());
    }
    match ports.register_in_turn(&names, &dirs) {
        Ok(hs) => {
            proof {
                assert(hs@[0].handle_id() == old(ports).len() + 0);
                assert(hs@[1].handle_id() == old(ports).len() + 1);
                assert(hs@[0].handle_direction() == dirs@[0]);
                assert(hs@[1].handle_direction() == dirs@[1]);
            }
            let i = match hs[0].promote_to_input() {
                Ok(i) => i,
                Err(e) => {
                    return Err(e);
                },
            };
            let o = match hs[1].promote_to_output() {
                Ok(o) => o,
                Err(e) => {
                    return Err(e);
                },
            };
            Ok((i, o))
        },
        Err(e) => Err(e),
    }
}

} // verus!
