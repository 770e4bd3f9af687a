use crate::nmat::{Matrix, RowMajor};
use vstd::prelude::*;

verus! {

/// Index of a port in its registry.
pub type PortId = usize;

#[derive(PartialEq, Eq, Clone, Copy, Debug, Structural)]
pub enum PortDirection {
    Input,
    Output,
}

/// A reference to a port of one registry. Using a handle with a registry other
/// than the one that made it is a caller error.
pub trait PortHandle {
    spec fn handle_id(&self) -> PortId;

    spec fn handle_direction(&self) -> PortDirection;

    fn id(&self) -> (r: PortId)
        ensures
            r == self.handle_id(),
    ;

    fn direction(&self) -> (r: PortDirection)
        ensures
            r == self.handle_direction(),
    ;
}

/// A handle whose direction is only known at run time; it can be promoted to an
/// input or an output handle.
#[derive(Clone, Copy, Debug, PartialEq, Eq, Structural)]
pub struct UnknownPortHandle {
    dir: PortDirection,
    id: PortId,
}

impl PortHandle for UnknownPortHandle {
    closed spec fn handle_id(&self) -> PortId {
        self.id
    }

    closed spec fn handle_direction(&self) -> PortDirection {
        self.dir
    }

    fn id(&self) -> (r: PortId) {
        self.id
    }

    fn direction(&self) -> (r: PortDirection) {
        self.dir
    }
}

impl UnknownPortHandle {
    pub fn promote_to_output(self) -> (r: Result<OutputPortHandle, PortManagerError>)
        ensures
            self.handle_direction() == PortDirection::Output ==> (r matches Ok(h) && h.handle_id()
                == self.handle_id()),
            self.handle_direction() == PortDirection::Input ==> r == Err::<
                OutputPortHandle,
                PortManagerError,
            >(PortManagerError::NotOutputPort),
    {
        match self.dir {
            PortDirection::Output => Ok(OutputPortHandle { id: self.id }),
            PortDirection::Input => Err(PortManagerError::NotOutputPort),
        }
    }

    pub fn promote_to_input(self) -> (r: Result<InputPortHandle, PortManagerError>)
        ensures
            self.handle_direction() == PortDirection::Input ==> (r matches Ok(h) && h.handle_id()
                == self.handle_id()),
            self.handle_direction() == PortDirection::Output ==> r == Err::<
                InputPortHandle,
                PortManagerError,
            >(PortManagerError::NotInputPort),
    {
        match self.dir {
            PortDirection::Input => Ok(InputPortHandle { id: self.id }),
            PortDirection::Output => Err(PortManagerError::NotInputPort),
        }
    }
}

#[derive(Clone, Copy, Debug, PartialEq, Eq, Structural)]
pub struct InputPortHandle {
    id: PortId,
}

impl PortHandle for InputPortHandle {
    closed spec fn handle_id(&self) -> PortId {
        self.id
    }

    open spec fn handle_direction(&self) -> PortDirection {
        PortDirection::Input
    }

    fn id(&self) -> (r: PortId) {
        self.id
    }

    fn direction(&self) -> (r: PortDirection) {
        PortDirection::Input
    }
}

#[derive(Clone, Copy, Debug, PartialEq, Eq, Structural)]
pub struct OutputPortHandle {
    id: PortId,
}

impl PortHandle for OutputPortHandle {
    closed spec fn handle_id(&self) -> PortId {
        self.id
    }

    open spec fn handle_direction(&self) -> PortDirection {
        PortDirection::Output
    }

    fn id(&self) -> (r: PortId) {
        self.id
    }

    fn direction(&self) -> (r: PortDirection) {
        PortDirection::Output
    }
}

/// Two handles name the same port, seen in the same direction.
pub fn same_port<A: PortHandle, B: PortHandle>(a: &A, b: &B) -> (r: bool)
    ensures
        r == (a.handle_id() == b.handle_id() && a.handle_direction() == b.handle_direction()),
{
    a.id() == b.id() && a.direction() == b.direction()
}

/// A port is named by its component and by its own name within that component.
#[derive(Clone, Debug, PartialEq)]
pub struct PortName {
    component: String,
    port: String,
}

impl View for PortName {
    type V = (Seq<char>, Seq<char>);

    closed spec fn view(&self) -> (Seq<char>, Seq<char>) {
        (self.component@, self.port@)
    }
}

impl PortName {
    pub fn new(component: &str, port: &str) -> (r: Self)
        ensures
            r@ == (component@, port@),
    {
        PortName { component: component.to_owned(), port: port.to_owned() }
    }

    /// A fresh copy with the same names.
    pub fn duplicate(&self) -> (r: Self)
        ensures
            r@ == self@,
    {
        PortName { component: self.component.clone(), port: self.port.clone() }
    }

    pub fn component(&self) -> (r: &String)
        ensures
            r@ == self@.0,
    {
        &self.component
    }

    pub fn port(&self) -> (r: &String)
        ensures
            r@ == self@.1,
    {
        &self.port
    }
}

#[derive(Clone, Debug, PartialEq)]
pub enum PortManagerError {
    PortsNotUnique,
    NotOutputPort,
    NotInputPort,
    NoSuchPort(PortName),
}

/// The distinct components among `names`, in the order in which the first port
/// of each was registered.
pub open spec fn components_of(names: Seq<(Seq<char>, Seq<char>)>) -> Seq<Seq<char>>
    decreases names.len(),
{
    if names.len() == 0 {
        Seq::empty()
    } else {
        let prev = components_of(names.drop_last());
        if prev.contains(names.last().0) {
            prev
        } else {
            prev.push(names.last().0)
        }
    }
}

/// `s` without any occurrence of `e`.
pub open spec fn without(s: Seq<(PortId, PortId)>, e: (PortId, PortId)) -> Seq<(PortId, PortId)>
    decreases s.len(),
{
    if s.len() == 0 {
        Seq::empty()
    } else {
        let prev = without(s.drop_last(), e);
        if s.last() == e {
            prev
        } else {
            prev.push(s.last())
        }
    }
}

/// A table of ports, each holding one value of type `V`, and of the connections
/// from output ports to input ports. Writing an output port writes every input
/// port connected to it as well.
#[derive(Debug)]
pub struct PortManagerImpl<V> {
    ports: Vec<V>,
    connections: Vec<(PortId, PortId)>,
    names: Vec<PortName>,
    directions: Vec<PortDirection>,
}

impl<V> PortManagerImpl<V> {
    /// The value of each port, by id.
    pub closed spec fn values(&self) -> Seq<V> {
        self.ports@
    }

    /// The (component, port) name of each port, by id.
    pub closed spec fn port_names(&self) -> Seq<(Seq<char>, Seq<char>)> {
        self.names@.map_values(|n: PortName| n@)
    }

    pub closed spec fn directions(&self) -> Seq<PortDirection> {
        self.directions@
    }

    /// The connections as (output id, input id), in the order they were made.
    pub closed spec fn connections(&self) -> Seq<(PortId, PortId)> {
        self.connections@
    }

    pub open spec fn len(&self) -> nat {
        self.values().len()
    }

    pub open spec fn is_output(&self, id: int) -> bool {
        0 <= id < self.len() && self.directions()[id] == PortDirection::Output
    }

    pub open spec fn is_input(&self, id: int) -> bool {
        0 <= id < self.len() && self.directions()[id] == PortDirection::Input
    }

    pub open spec fn wf(&self) -> bool {
        &&& self.port_names().len() == self.len()
        &&& self.directions().len() == self.len()
        &&& self.port_names().no_duplicates()
        &&& forall|c: int|
            0 <= c < self.connections().len() ==> self.is_output(
                #[trigger] self.connections()[c].0 as int,
            ) && self.is_input(self.connections()[c].1 as int)
    }

    /// The id of the port with the given name.
    pub open spec fn id_of(&self, name: (Seq<char>, Seq<char>)) -> int {
        choose|i: int| 0 <= i < self.len() && self.port_names()[i] == name
    }

    /// `p1` names an output port and `p2` an input port.
    pub open spec fn resolves(&self, p1: (Seq<char>, Seq<char>), p2: (Seq<char>, Seq<char>)) -> bool {
        &&& self.port_names().contains(p1)
        &&& self.directions()[self.id_of(p1)] == PortDirection::Output
        &&& self.port_names().contains(p2)
        &&& self.directions()[self.id_of(p2)] == PortDirection::Input
    }

    /// What connecting `p1` to `p2` by name does to `s`: it fails, leaving `s`
    /// as it was, with the first of `NoSuchPort(p1)`, `NotOutputPort`,
    /// `NoSuchPort(p2)`, `NotInputPort` that holds, and else adds the connection.
    pub open spec fn by_name_outcome(
        s: Self,
        after: Self,
        p1: (Seq<char>, Seq<char>),
        p2: (Seq<char>, Seq<char>),
        r: Result<(), PortManagerError>,
    ) -> bool {
        let names = s.port_names();
        let i1 = s.id_of(p1);
        let i2 = s.id_of(p2);
        if !names.contains(p1) {
            &&& r matches Err(PortManagerError::NoSuchPort(n))
            &&& n@ == p1
            &&& after == s
        } else if s.directions()[i1] == PortDirection::Input {
            r == Err::<(), PortManagerError>(PortManagerError::NotOutputPort) && after == s
        } else if !names.contains(p2) {
            &&& r matches Err(PortManagerError::NoSuchPort(n))
            &&& n@ == p2
            &&& after == s
        } else if s.directions()[i2] == PortDirection::Output {
            r == Err::<(), PortManagerError>(PortManagerError::NotInputPort) && after == s
        } else {
            &&& r is Ok
            &&& after.wf()
            &&& after.port_names() == s.port_names()
            &&& after.directions() == s.directions()
            &&& after.values() == s.values()
            &&& after.connections() == s.connections().push((i1 as PortId, i2 as PortId))
        }
    }

    /// Everything but the values is as in `other`.
    pub open spec fn same_layout(&self, other: &Self) -> bool {
        &&& self.port_names() == other.port_names()
        &&& self.directions() == other.directions()
        &&& self.connections() == other.connections()
        &&& self.values().len() == other.values().len()
    }

    /// `after` is `before` once `x` is written to output port `p`: `p` and every
    /// input connected to it hold `x`, and every other port keeps its value.
    pub open spec fn value_written(before: Self, after: Self, p: int, x: V) -> bool {
        &&& after.wf()
        &&& after.same_layout(&before)
        &&& forall|k: int|
            0 <= k < before.len() ==> #[trigger] after.values()[k] == if k == p
                || before.connections().contains((p as PortId, k as PortId)) {
                x
            } else {
                before.values()[k]
            }
    }

    /// `after` is `before` with every connection from `p` to `q` removed.
    pub open spec fn disconnected(before: Self, after: Self, p: int, q: int) -> bool {
        &&& after.wf()
        &&& after.port_names() == before.port_names()
        &&& after.directions() == before.directions()
        &&& after.values() == before.values()
        &&& after.connections() == without(before.connections(), (p as PortId, q as PortId))
    }

    /// Some output of component `ci` is connected to some input of component `cj`.
    pub open spec fn component_edge(&self, ci: Seq<char>, cj: Seq<char>) -> bool {
        exists|c: int|
            0 <= c < self.connections().len() && #[trigger] self.port_names()[self.connections()[c].0 as int].0
                == ci && self.port_names()[self.connections()[c].1 as int].0 == cj
    }
}

impl<V: Default> PortManagerImpl<V> {
    /// `after` is `before` with a new port of the given name and direction, whose
    /// id is `id` and whose value is `V::default()`.
    pub open spec fn port_added(
        before: Self,
        after: Self,
        name: (Seq<char>, Seq<char>),
        dir: PortDirection,
        id: PortId,
    ) -> bool {
        &&& after.wf()
        &&& !before.port_names().contains(name)
        &&& id == before.len()
        &&& after.port_names() == before.port_names().push(name)
        &&& after.directions() == before.directions().push(dir)
        &&& after.connections() == before.connections()
        &&& after.values().len() == before.len() + 1
        &&& after.values().take(before.len() as int) == before.values()
        &&& call_ensures(V::default, (), after.values()[id as int])
    }
}

impl<V: Copy + Default> PortManagerImpl<V> {
    pub fn new() -> (r: Self)
        ensures
            r.wf(),
            r.len() == 0,
            r.connections().len() == 0,
    {
        let r = PortManagerImpl {
            ports: Vec::new(),
            connections: Vec::new(),
            names: Vec::new(),
            directions: Vec::new(),
        };
        assert(r.port_names() =~= Seq::empty());
        r
    }

    /// The number of ports.
    pub fn port_count(&self) -> (r: usize)
        ensures
            r == self.len(),
    {
        self.ports.len()
    }

    /// Whether no port has the given name yet.
    fn check_key_usable(&self, name: &PortName) -> (r: bool)
        requires
            self.wf(),
        ensures
            r == !self.port_names().contains(name@),
    {
        match self.find_index(name) {
            Some(_) => false,
            None => true,
        }
    }

    fn find_index(&self, name: &PortName) -> (r: Option<usize>)
        requires
            self.wf(),
        ensures
            match r {
                Some(i) => i < self.len() && self.port_names()[i as int] == name@,
                None => !self.port_names().contains(name@),
            },
    {
        let mut k: usize = 0;
        while k < self.names.len()
            invariant
                self.wf(),
                k <= self.names@.len(),
                forall|i: int| 0 <= i < k ==> self.port_names()[i] != name@,
            decreases self.names@.len() - k,
        {
            let n = &self.names[k];
            if n.component == name.component && n.port == name.port {
                return Some(k);
            }
            k = k + 1;
        }
        None
    }

    fn new_port(&mut self, name: &PortName, direction: PortDirection) -> (r: Result<
        PortId,
        PortManagerError,
    >)
        requires
            old(self).wf(),
        ensures
            match r {
                Ok(id) => Self::port_added(*old(self), *final(self), name@, direction, id),
                Err(e) => e == PortManagerError::PortsNotUnique && old(self).port_names().contains(
                    name@,
                ) && *final(self) == *old(self),
            },
    {
        if !self.check_key_usable(name) {
            return Err(PortManagerError::PortsNotUnique);
        }
        let ghost before = *self;
        let d = V::default();
        self.ports.push(d);
        let id = self.ports.len() - 1;
        self.names.push(name.duplicate());
        self.directions.push(direction);
        proof {
            assert(self.port_names() =~= before.port_names().push(name@));
            assert(self.values().take(before.len() as int) =~= before.values());
            assert forall|c: int| 0 <= c < self.connections().len() implies self.is_output(
                #[trigger] self.connections()[c].0 as int,
            ) && self.is_input(self.connections()[c].1 as int) by {
                assert(before.is_output(before.connections()[c].0 as int));
                assert(before.is_input(before.connections()[c].1 as int));
            }
            assert forall|i: int, j: int|
                0 <= i < self.len() && 0 <= j < self.len() && i != j implies self.port_names()[i]
                != self.port_names()[j] by {
                if i < before.len() && j < before.len() {
                    assert(before.port_names()[i] != before.port_names()[j]);
                } else if i < before.len() {
                    assert(before.port_names().contains(before.port_names()[i]));
                } else {
                    assert(before.port_names().contains(before.port_names()[j]));
                }
            }
        }
        Ok(id)
    }

    /// Adds an input port. Fails with `PortsNotUnique` where a port of that name
    /// exists already, whatever its direction.
    pub fn register_input_port(&mut self, name: &PortName) -> (r: Result<
        InputPortHandle,
        PortManagerError,
    >)
        requires
            old(self).wf(),
        ensures
            match r {
                Ok(h) => Self::port_added(
                    *old(self),
                    *final(self),
                    name@,
                    PortDirection::Input,
                    h.handle_id(),
                ),
                Err(e) => e == PortManagerError::PortsNotUnique && old(self).port_names().contains(
                    name@,
                ) && *final(self) == *old(self),
            },
    {
        match self.new_port(name, PortDirection::Input) {
            Ok(id) => Ok(InputPortHandle { id }),
            Err(e) => Err(e),
        }
    }

    /// Adds an output port. Fails with `PortsNotUnique` where a port of that name
    /// exists already, whatever its direction.
    pub fn register_output_port(&mut self, name: &PortName) -> (r: Result<
        OutputPortHandle,
        PortManagerError,
    >)
        requires
            old(self).wf(),
        ensures
            match r {
                Ok(h) => Self::port_added(
                    *old(self),
                    *final(self),
                    name@,
                    PortDirection::Output,
                    h.handle_id(),
                ),
                Err(e) => e == PortManagerError::PortsNotUnique && old(self).port_names().contains(
                    name@,
                ) && *final(self) == *old(self),
            },
    {
        match self.new_port(name, PortDirection::Output) {
            Ok(id) => Ok(OutputPortHandle { id }),
            Err(e) => Err(e),
        }
    }

    /// The current value of a port.
    pub fn get_port_value<H: PortHandle>(&self, p: &H) -> (r: V)
        requires
            self.wf(),
            p.handle_id() < self.len(),
        ensures
            r == self.values()[p.handle_id() as int],
    {
        self.ports[p.id()]
    }

    /// Writes `val` to an output port and to every input port connected to it.
    pub fn set_port_value(&mut self, p: &OutputPortHandle, val: V)
        requires
            old(self).wf(),
            old(self).is_output(p.handle_id() as int),
        ensures
            Self::value_written(*old(self), *final(self), p.handle_id() as int, val),
    {
        let ghost before = *self;
        let pid = p.id();
        let n = self.ports.len();
        self.ports.set(pid, val);
        proof {
            assert(self.port_names() == before.port_names());
            assert(before.connections().take(0) =~= Seq::<(PortId, PortId)>::empty());
        }
        let mut c: usize = 0;
        while c < self.connections.len()
            invariant
                before.wf(),
                self.wf(),
                self.same_layout(&before),
                pid == p.handle_id(),
                before.is_output(pid as int),
                before.len() == n,
                c <= self.connections@.len(),
                forall|k: int|
                    0 <= k < before.len() ==> #[trigger] self.values()[k] == if k == pid
                        || before.connections().take(c as int).contains((pid, k as PortId)) {
                        val
                    } else {
                        before.values()[k]
                    },
            decreases self.connections@.len() - c,
        {
            let (a, b) = self.connections[c];
            proof {
                assert(self.connections()[c as int] == (a, b));
                assert(self.is_input(b as int));
            }
            let ghost prev = self.values();
            if a == pid {
                self.ports.set(b, val);
            }
            proof {
                let t = before.connections().take(c as int);
                let t1 = before.connections().take(c + 1);
                assert(t1 =~= t.push((a, b)));
                assert(t1[t.len() as int] == (a, b));
                assert(self.port_names() == before.port_names());
                assert(before.is_input(b as int));
                assert(b != pid);
                if a == pid {
                    assert(self.values() == prev.update(b as int, val));
                } else {
                    assert(self.values() == prev);
                }
                assert forall|k: int| 0 <= k < before.len() implies #[trigger] self.values()[k]
                    == if k == pid || t1.contains((pid, k as PortId)) {
                    val
                } else {
                    before.values()[k]
                } by {
                    let key = (pid, k as PortId);
                    assert(prev[k] == if k == pid || t.contains(key) {
                        val
                    } else {
                        before.values()[k]
                    });
                    if k == b as int && a == pid {
                        assert(t1[t.len() as int] == key);
                        assert(t1.contains(key));
                        assert(self.values()[k] == val);
                    } else {
                        assert(self.values()[k] == prev[k]);
                        if t1.contains(key) {
                            let w = choose|w: int| 0 <= w < t1.len() && t1[w] == key;
                            if w < t.len() {
                                assert(t[w] == key);
                            }
                        }
                        if t.contains(key) {
                            let w = choose|w: int| 0 <= w < t.len() && t[w] == key;
                            assert(t1[w] == key);
                        }
                        assert(t1.contains(key) == t.contains(key));
                    }
                }
            }
            c = c + 1;
        }
        proof {
            assert(before.connections().take(before.connections().len() as int)
                =~= before.connections());
        }
    }

    /// Connects an output port to an input port; a connection made twice is held twice.
    pub fn connect(&mut self, p1: &OutputPortHandle, p2: &InputPortHandle)
        requires
            old(self).wf(),
            old(self).is_output(p1.handle_id() as int),
            old(self).is_input(p2.handle_id() as int),
        ensures
            final(self).wf(),
            final(self).port_names() == old(self).port_names(),
            final(self).directions() == old(self).directions(),
            final(self).values() == old(self).values(),
            final(self).connections() == old(self).connections().push(
                (p1.handle_id(), p2.handle_id()),
            ),
    {
        let ghost before = *self;
        self.connections.push((p1.id(), p2.id()));
        proof {
            assert(self.port_names() == before.port_names());
            assert forall|c: int| 0 <= c < self.connections().len() implies self.is_output(
                #[trigger] self.connections()[c].0 as int,
            ) && self.is_input(self.connections()[c].1 as int) by {
                if c < before.connections().len() {
                    assert(before.is_output(before.connections()[c].0 as int));
                    assert(before.is_input(before.connections()[c].1 as int));
                }
            }
        }
    }

    /// Removes every connection from `p1` to `p2`.
    pub fn disconnect(&mut self, p1: &OutputPortHandle, p2: &InputPortHandle)
        requires
            old(self).wf(),
        ensures
            Self::disconnected(*old(self), *final(self), p1.handle_id() as int, p2.handle_id() as int),
    {
        let ghost before = *self;
        let e = (p1.id(), p2.id());
        let mut kept: Vec<(PortId, PortId)> = Vec::new();
        let mut c: usize = 0;
        while c < self.connections.len()
            invariant
                *self == before,
                before.wf(),
                c <= self.connections@.len(),
                kept@ == without(self.connections@.take(c as int), e),
                forall|x: int|
                    0 <= x < kept@.len() ==> self.is_output(#[trigger] kept@[x].0 as int)
                        && self.is_input(kept@[x].1 as int),
            decreases self.connections@.len() - c,
        {
            let conn = self.connections[c];
            proof {
                assert(self.connections@.take(c + 1).drop_last() =~= self.connections@.take(
                    c as int,
                ));
                assert(self.connections()[c as int] == conn);
            }
            if conn.0 != e.0 || conn.1 != e.1 {
                kept.push(conn);
            }
            c = c + 1;
        }
        proof {
            assert(self.connections@.take(self.connections@.len() as int) =~= self.connections@);
        }
        self.connections = kept;
    }

    /// The port of the given name, if there is one.
    pub fn find_port(&self, name: &PortName) -> (r: Option<UnknownPortHandle>)
        requires
            self.wf(),
        ensures
            match r {
                Some(h) => h.handle_id() < self.len() && self.port_names()[h.handle_id() as int]
                    == name@ && h.handle_direction() == self.directions()[h.handle_id() as int],
                None => !self.port_names().contains(name@),
            },
    {
        match self.find_index(name) {
            Some(i) => Some(UnknownPortHandle { dir: self.directions[i], id: i }),
            None => None,
        }
    }

    /// Looks both ports up by name and connects the first, which must be an
    /// output, to the second, which must be an input. Fails, leaving the table as
    /// it was, with the first of these that holds: `NoSuchPort(p1)`,
    /// `NotOutputPort`, `NoSuchPort(p2)`, `NotInputPort`.
    pub fn connect_by_name(&mut self, p1: &PortName, p2: &PortName) -> (r: Result<(), PortManagerError>)
        requires
            old(self).wf(),
        ensures
            Self::by_name_outcome(*old(self), *final(self), p1@, p2@, r),
    {
        let ghost s = *self;
        let first = match self.find_port(p1) {
            Some(h) => h,
            None => {
                return Err(PortManagerError::NoSuchPort(p1.duplicate()));
            },
        };
        proof {
            assert(s.port_names().contains(p1@)) by {
                assert(s.port_names()[first.handle_id() as int] == p1@);
            }
            assert(s.id_of(p1@) == first.handle_id() as int);
        }
        let output = match first.promote_to_output() {
            Ok(o) => o,
            Err(e) => {
                return Err(e);
            },
        };
        let second = match self.find_port(p2) {
            Some(h) => h,
            None => {
                return Err(PortManagerError::NoSuchPort(p2.duplicate()));
            },
        };
        proof {
            assert(s.port_names().contains(p2@)) by {
                assert(s.port_names()[second.handle_id() as int] == p2@);
            }
            assert(s.id_of(p2@) == second.handle_id() as int);
        }
        let input = match second.promote_to_input() {
            Ok(i) => i,
            Err(e) => {
                return Err(e);
            },
        };
        self.connect(&output, &input);
        Ok(())
    }
}

/// Position of `c` in `comps`, if it is there.
fn position(comps: &Vec<String>, c: &String) -> (r: Option<usize>)
    ensures
        match r {
            Some(i) => i < comps@.len() && comps@[i as int]@ == c@,
            None => !comps@.map_values(|s: String| s@).contains(c@),
        },
{
    let mut i: usize = 0;
    while i < comps.len()
        invariant
            i <= comps@.len(),
            forall|x: int| 0 <= x < i ==> comps@[x]@ != c@,
        decreases comps@.len() - i,
    {
        if comps[i] == *c {
            return Some(i);
        }
        i = i + 1;
    }
    proof {
        let v = comps@.map_values(|s: String| s@);
        if v.contains(c@) {
            let w = choose|w: int| 0 <= w < v.len() && v[w] == c@;
            assert(comps@[w]@ == c@);
        }
    }
    None
}

proof fn lemma_without_drops(s: Seq<(PortId, PortId)>, e: (PortId, PortId))
    ensures
        !without(s, e).contains(e),
    decreases s.len(),
{
    if s.len() > 0 {
        lemma_without_drops(s.drop_last(), e);
        let prev = without(s.drop_last(), e);
        if s.last() != e {
            assert forall|w: int| 0 <= w < prev.len() + 1 implies prev.push(s.last())[w] != e by {
                if w < prev.len() {
                    assert(prev[w] != e) by {
                        if prev[w] == e {
                            assert(prev.contains(e));
                        }
                    }
                }
            }
        }
    }
}

impl<V: Copy + Default> PortManagerImpl<V> {
    /// The components, each at its index in the matrix, and the matrix whose cell
    /// (i, j) holds when some output of component i is connected to some input of
    /// component j. Components are indexed in the order in which their first port
    /// was registered.
    pub fn get_component_adjacency_matrix(&self) -> (r: (Vec<String>, Matrix<bool, RowMajor>))
        requires
            self.wf(),
            self.len() * self.len() <= usize::MAX,
        ensures
            r.0@.map_values(|s: String| s@) == components_of(self.port_names()),
            r.1.wf(),
            r.1.rows() == r.0@.len(),
            r.1.cols() == r.0@.len(),
            forall|i: int, j: int|
                0 <= i < r.0@.len() && 0 <= j < r.0@.len() ==> #[trigger] r.1.at(i, j)
                    == self.component_edge(r.0@[i]@, r.0@[j]@),
    {
        let ghost names = self.port_names();
        let mut comps: Vec<String> = Vec::new();
        let mut comp_of: Vec<usize> = Vec::new();
        let mut k: usize = 0;
        while k < self.names.len()
            invariant
                self.wf(),
                names == self.port_names(),
                k <= names.len(),
                comps@.map_values(|s: String| s@) == components_of(names.take(k as int)),
                comps@.map_values(|s: String| s@).no_duplicates(),
                comps@.len() <= k,
                comp_of@.len() == k,
                forall|p: int|
                    0 <= p < k ==> #[trigger] comp_of@[p] < comps@.len() && comps@[comp_of@[p] as int]@
                        == names[p].0,
            decreases names.len() - k,
        {
            let c = &self.names[k].component;
            let ghost cv = comps@.map_values(|s: String| s@);
            proof {
                assert(names[k as int].0 == c@);
                assert(names.take(k + 1).drop_last() =~= names.take(k as int));
                assert(names.take(k + 1).last() == names[k as int]);
            }
            match position(&comps, c) {
                Some(i) => {
                    comp_of.push(i);
                    proof {
                        assert(cv[i as int] == c@);
                        assert(cv.contains(c@));
                    }
                },
                None => {
                    comp_of.push(comps.len());
                    comps.push(c.clone());
                    proof {
                        assert(comps@.map_values(|s: String| s@) =~= cv.push(c@));
                        let nv = comps@.map_values(|s: String| s@);
                        assert forall|x: int, y: int|
                            0 <= x < nv.len() && 0 <= y < nv.len() && x != y implies #[trigger] nv[x]
                            != #[trigger] nv[y] by {
                            if x < cv.len() && y < cv.len() {
                                assert(cv[x] != cv[y]);
                            } else if x < cv.len() {
                                assert(cv.contains(cv[x]));
                            } else {
                                assert(cv.contains(cv[y]));
                            }
                        }
                    }
                },
            }
            k = k + 1;
        }
        proof {
            assert(names.take(names.len() as int) =~= names);
        }
        let ghost cv = comps@.map_values(|s: String| s@);
        let n = comps.len();
        proof {
            let l = self.len();
            assert(n * n <= l * l) by (nonlinear_arith)
                requires
                    n <= l,
            ;
        }
        let mut m: Matrix<bool, RowMajor> = Matrix::new_with_default((n, n), false);
        let mut c: usize = 0;
        while c < self.connections.len()
            invariant
                self.wf(),
                names == self.port_names(),
                cv == comps@.map_values(|s: String| s@),
                cv.no_duplicates(),
                n == comps@.len(),
                comp_of@.len() == names.len(),
                forall|p: int|
                    0 <= p < names.len() ==> #[trigger] comp_of@[p] < n && cv[comp_of@[p] as int]
                        == names[p].0,
                c <= self.connections@.len(),
                m.wf(),
                m.rows() == n,
                m.cols() == n,
                forall|i: int, j: int|
                    0 <= i < n && 0 <= j < n ==> #[trigger] m.at(i, j) == exists|c2: int|
                        0 <= c2 < c && #[trigger] names[self.connections()[c2].0 as int].0 == cv[i]
                            && names[self.connections()[c2].1 as int].0 == cv[j],
            decreases self.connections@.len() - c,
        {
            let (a, b) = self.connections[c];
            proof {
                assert(self.connections()[c as int] == (a, b));
                assert(self.is_output(a as int));
                assert(self.is_input(b as int));
            }
            let ia = comp_of[a];
            let ib = comp_of[b];
            let ghost before = m;
            m.set((ia, ib), true);
            proof {
                assert forall|i: int, j: int| 0 <= i < n && 0 <= j < n implies #[trigger] m.at(i, j)
                    == exists|c2: int|
                    0 <= c2 < c + 1 && #[trigger] names[self.connections()[c2].0 as int].0 == cv[i]
                        && names[self.connections()[c2].1 as int].0 == cv[j] by {
                    let here = names[a as int].0 == cv[i] && names[b as int].0 == cv[j];
                    assert(here == (i == ia && j == ib)) by {
                        if names[a as int].0 == cv[i] && i != ia {
                            assert(cv[ia as int] == names[a as int].0);
                        }
                        if names[b as int].0 == cv[j] && j != ib {
                            assert(cv[ib as int] == names[b as int].0);
                        }
                    }
                    if here {
                        assert(names[self.connections()[c as int].0 as int].0 == cv[i]);
                    }
                    if exists|c2: int|
                        0 <= c2 < c + 1 && #[trigger] names[self.connections()[c2].0 as int].0
                            == cv[i] && names[self.connections()[c2].1 as int].0 == cv[j] {
                        let c2 = choose|c2: int|
                            0 <= c2 < c + 1 && #[trigger] names[self.connections()[c2].0 as int].0
                                == cv[i] && names[self.connections()[c2].1 as int].0 == cv[j];
                        if c2 < c {
                            assert(before.at(i, j));
                        }
                    }
                }
            }
            c = c + 1;
        }
        proof {
            assert forall|i: int, j: int| 0 <= i < n && 0 <= j < n implies #[trigger] m.at(i, j)
                == self.component_edge(comps@[i]@, comps@[j]@) by {
                assert(cv[i] == comps@[i]@);
                assert(cv[j] == comps@[j]@);
                if m.at(i, j) {
                    let c2 = choose|c2: int|
                        0 <= c2 < c && #[trigger] names[self.connections()[c2].0 as int].0 == cv[i]
                            && names[self.connections()[c2].1 as int].0 == cv[j];
                    assert(self.port_names()[self.connections()[c2].0 as int].0 == comps@[i]@);
                }
                if self.component_edge(comps@[i]@, comps@[j]@) {
                    let c2 = choose|c2: int|
                        0 <= c2 < self.connections().len() && #[trigger] self.port_names()[self.connections()[c2].0 as int].0
                            == comps@[i]@ && self.port_names()[self.connections()[c2].1 as int].0
                            == comps@[j]@;
                    assert(names[self.connections()[c2].0 as int].0 == cv[i]);
                }
            }
        }
        (comps, m)
    }
}

/// No (component, port) name is held by two ports: a registration is accepted
/// only for a name that no port holds yet, and every accepted one stays held.
pub proof fn lemma_names_accepted_once<V>(r: PortManagerImpl<V>, i: int, j: int)
    requires
        r.wf(),
        0 <= i < r.len(),
        0 <= j < r.len(),
        r.port_names()[i] == r.port_names()[j],
    ensures
        i == j,
{
}

/// After a value is written to an output port, every input connected to it
/// reads that value.
pub proof fn lemma_set_reaches_connected<V>(
    before: PortManagerImpl<V>,
    after: PortManagerImpl<V>,
    p: PortId,
    q: PortId,
    x: V,
)
    requires
        before.wf(),
        PortManagerImpl::value_written(before, after, p as int, x),
        before.connections().contains((p, q)),
    ensures
        after.values()[q as int] == x,
{
    let w = choose|w: int| 0 <= w < before.connections().len() && before.connections()[w] == (p, q);
    assert(before.is_output(before.connections()[w].0 as int));
    assert(before.is_input(q as int));
}

/// Once an output `p` is disconnected from an input `q`, writing `p` leaves the
/// value of `q` as it was.
pub proof fn lemma_disconnect_then_set<V>(
    r0: PortManagerImpl<V>,
    r1: PortManagerImpl<V>,
    r2: PortManagerImpl<V>,
    p: PortId,
    q: PortId,
    x: V,
)
    requires
        r0.wf(),
        r0.is_output(p as int),
        r0.is_input(q as int),
        PortManagerImpl::disconnected(r0, r1, p as int, q as int),
        PortManagerImpl::value_written(r1, r2, p as int, x),
    ensures
        r2.values()[q as int] == r1.values()[q as int],
{
    lemma_without_drops(r0.connections(), (p, q));
}

/// `hs` are handles to consecutive ports from id `start` on, in the directions `dirs`.
pub open spec fn handles_in_turn(hs: Seq<UnknownPortHandle>, start: nat, dirs: Seq<PortDirection>) -> bool {
    &&& hs.len() == dirs.len()
    &&& forall|k: int|
        0 <= k < hs.len() ==> #[trigger] hs[k].handle_id() == start + k && hs[k].handle_direction()
            == dirs[k]
}

/// None of `names` is among `held` or among the names before it.
pub open spec fn free_in_turn(held: Seq<(Seq<char>, Seq<char>)>, names: Seq<(Seq<char>, Seq<char>)>) -> bool {
    forall|k: int| 0 <= k < names.len() ==> !(held + names.take(k)).contains(#[trigger] names[k])
}

impl<V: Default> PortManagerImpl<V> {
    /// `after` is `before` with new ports of the given names and directions
    /// appended, each holding `V::default()`.
    pub open spec fn ports_appended(
        before: Self,
        after: Self,
        names: Seq<(Seq<char>, Seq<char>)>,
        dirs: Seq<PortDirection>,
    ) -> bool {
        &&& after.wf()
        &&& after.port_names() == before.port_names() + names
        &&& after.directions() == before.directions() + dirs
        &&& after.connections() == before.connections()
        &&& after.values().len() == before.len() + names.len()
        &&& after.values().take(before.len() as int) == before.values()
        &&& forall|k: int|
            before.len() <= k < after.len() ==> call_ensures(V::default, (), #[trigger] after.values()[k])
    }

    /// `after` is what registering `names` in turn on `before` leaves: all of
    /// them where each is free in its turn (`ok`), else those before the first
    /// that is taken.
    pub open spec fn registered_in_turn(
        before: Self,
        after: Self,
        names: Seq<(Seq<char>, Seq<char>)>,
        dirs: Seq<PortDirection>,
        ok: bool,
    ) -> bool {
        &&& after.wf()
        &&& ok == free_in_turn(before.port_names(), names)
        &&& ok ==> Self::ports_appended(before, after, names, dirs)
        &&& !ok ==> exists|k: int|
            0 <= k < names.len() && Self::ports_appended(before, after, names.take(k), dirs.take(k))
                && (before.port_names() + names.take(k)).contains(#[trigger] names[k])
    }
}

impl<V: Copy + Default> PortManagerImpl<V> {
    /// Registers ports of the given names and directions one after the other,
    /// stopping with `PortsNotUnique` at the first whose name is taken.
    #[verifier::spinoff_prover]
    pub fn register_in_turn(&mut self, names: &Vec<PortName>, dirs: &Vec<PortDirection>) -> (r: Result<
        Vec<UnknownPortHandle>,
        PortManagerError,
    >)
        requires
            old(self).wf(),
            names@.len() == dirs@.len(),
        ensures
            Self::registered_in_turn(
                *old(self),
                *final(self),
                names@.map_values(|n: PortName| n@),
                dirs@,
                r is Ok,
            ),
            match r {
                Ok(hs) => handles_in_turn(hs@, old(self).len(), dirs@),
                Err(e) => e == PortManagerError::PortsNotUnique,
            },
    {
        let ghost before = *self;
        let ghost nv = names@.map_values(|n: PortName| n@);
        let mut hs: Vec<UnknownPortHandle> = Vec::new();
        let mut k: usize = 0;
        proof {
            assert(nv.take(0) =~= Seq::empty());
            assert(dirs@.take(0) =~= Seq::empty());
            assert(before.port_names() + nv.take(0) =~= before.port_names());
            assert(before.directions() + dirs@.take(0) =~= before.directions());
            assert(before.values().take(before.len() as int) =~= before.values());
        }
        while k < names.len()
            invariant
                before == *old(self),
                before.wf(),
                names@.len() == dirs@.len(),
                nv == names@.map_values(|n: PortName| n@),
                k <= names@.len(),
                Self::ports_appended(before, *self, nv.take(k as int), dirs@.take(k as int)),
                free_in_turn(before.port_names(), nv.take(k as int)),
                hs@.len() == k,
                forall|j: int|
                    0 <= j < k ==> #[trigger] hs@[j].handle_id() == before.len() + j
                        && hs@[j].handle_direction() == dirs@[j],
            decreases names@.len() - k,
        {
            let ghost mid = *self;
            proof {
                assert(nv[k as int] == names@[k as int]@);
                assert(nv.take(k + 1) =~= nv.take(k as int).push(nv[k as int]));
                assert(dirs@.take(k + 1) =~= dirs@.take(k as int).push(dirs@[k as int]));
            }
            match self.new_port(&names[k], dirs[k]) {
                Ok(id) => {
                    let ghost hs_before = hs@;
                    hs.push(UnknownPortHandle { dir: dirs[k], id });
                    proof {
                        assert(mid.len() == before.len() + k);
                        assert(hs@[k as int].handle_id() == before.len() + k);
                        assert forall|j: int| 0 <= j < k + 1 implies #[trigger] hs@[j].handle_id()
                            == before.len() + j && hs@[j].handle_direction() == dirs@[j] by {
                            if j < k {
                                assert(hs@[j] == hs_before[j]);
                            }
                        }
                        assert(self.port_names() =~= before.port_names() + nv.take(k + 1));
                        assert(self.directions() =~= before.directions() + dirs@.take(k + 1));
                        assert(self.values().take(before.len() as int) =~= before.values()) by {
                            assert(self.values().take(mid.len() as int) == mid.values());
                            assert forall|x: int| 0 <= x < before.len() implies self.values()[x]
                                == before.values()[x] by {
                                assert(self.values().take(mid.len() as int)[x] == self.values()[x]);
                                assert(mid.values().take(before.len() as int)[x] == mid.values()[x]);
                            }
                        }
                        assert forall|x: int| before.len() <= x < self.len() implies call_ensures(
                            V::default,
                            (),
                            #[trigger] self.values()[x],
                        ) by {
                            if x < mid.len() {
                                assert(self.values().take(mid.len() as int)[x] == self.values()[x]);
                                assert(mid.values()[x] == self.values()[x]);
                            }
                        }
                        let t = nv.take(k + 1);
                        assert forall|j: int| 0 <= j < t.len() implies !(before.port_names()
                            + t.take(j)).contains(#[trigger] t[j]) by {
                            if j < k {
                                assert(t.take(j) =~= nv.take(k as int).take(j));
                                assert(t[j] == nv.take(k as int)[j]);
                            } else {
                                assert(t.take(j) =~= nv.take(k as int));
                                assert(t[j] == nv[k as int]);
                                assert(mid.port_names() == before.port_names() + nv.take(k as int));
                            }
                        }
                    }
                },
                Err(e) => {
                    proof {
                        assert(mid.port_names() == before.port_names() + nv.take(k as int));
                        assert((before.port_names() + nv.take(k as int)).contains(nv[k as int]));
                        assert(!free_in_turn(before.port_names(), nv));
                        assert(0 <= k < nv.len() && Self::ports_appended(
                            before,
                            *self,
                            nv.take(k as int),
                            dirs@.take(k as int),
                        ) && (before.port_names() + nv.take(k as int)).contains(nv[k as int]));
                        assert(Self::registered_in_turn(before, *self, nv, dirs@, false));
                    }
                    return Err(e);
                },
            }
            k = k + 1;
        }
        proof {
            assert(nv.take(k as int) =~= nv);
            assert(dirs@.take(k as int) =~= dirs@);
            assert(handles_in_turn(hs@, before.len(), dirs@));
        }
        Ok(hs)
    }
}

/// A port that no connection from `p` reaches keeps its value when `p` is
/// written; so an input that nothing is wired to keeps the value it was
/// registered with.
pub proof fn lemma_unreached_port_unchanged<V>(
    before: PortManagerImpl<V>,
    after: PortManagerImpl<V>,
    p: PortId,
    q: PortId,
    x: V,
)
    requires
        before.wf(),
        PortManagerImpl::value_written(before, after, p as int, x),
        (q as int) < before.len(),
        q != p,
        !before.connections().contains((p, q)),
    ensures
        after.values()[q as int] == before.values()[q as int],
{
}

} // verus!
