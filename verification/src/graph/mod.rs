//! Circuit connectivity graph: ports (component pins) joined by factors
//! (nets and components), with simple-path enumeration.
pub mod bufs;
pub mod checks;
pub mod construct;
pub mod csr;
pub mod display;
pub mod paths;
pub mod query;
pub mod search;

use vstd::prelude::*;

use self::csr::{CsrError, CsrList};

verus! {

/// Component path wrapper type.
#[derive(Debug, Clone)]
pub struct ComponentPath(pub String);

impl View for ComponentPath {
    type V = Seq<char>;

    open spec fn view(&self) -> Seq<char> {
        self.0@
    }
}

impl ComponentPath {
    pub fn new(path: String) -> (res: Self)
        ensures
            res@ == path@,
    {
        ComponentPath(path)
    }

    pub fn as_str(&self) -> (s: &str)
        ensures
            s@ == self@,
    {
        self.0.as_str()
    }
}

/// Port path: component path plus pin name.
#[derive(Debug, Clone)]
pub struct PortPath {
    pub component: ComponentPath,
    pub pin: String,
}

impl View for PortPath {
    type V = (Seq<char>, Seq<char>);

    open spec fn view(&self) -> (Seq<char>, Seq<char>) {
        (self.component@, self.pin@)
    }
}

impl PortPath {
    pub fn new(component: ComponentPath, pin: String) -> (res: Self)
        ensures
            res@ == (component@, pin@),
    {
        PortPath { component, pin }
    }
}

/// Dense port identifier.
#[derive(Copy, Clone, Debug, PartialEq, Eq, Structural, Hash)]
pub struct PortId(pub u32);

/// Dense factor identifier.
#[derive(Copy, Clone, Debug, PartialEq, Eq, Structural, Hash)]
pub struct FactorId(pub u32);

/// What a factor stands for: a net (by name) or a component (by path).
#[derive(Clone, Debug)]
pub enum FactorType {
    Net(String),
    Component(String),
}

/// Errors raised while building a circuit graph.
#[derive(Debug)]
pub enum GraphError {
    Csr(CsrError),
    TooManyFactors(String),
    TooFewFactors(String),
    InvalidIoFactor(usize),
}

/// Circuit graph combining the path metadata with the connectivity.
pub struct CircuitGraph {
    /// port id -> port path
    port_paths: Vec<PortPath>,
    /// factor name -> factor id, in insertion order
    factor_names: Vec<(String, FactorId)>,
    /// factor id -> factor type
    factor_types: Vec<FactorType>,
    /// factor -> ports
    factor_ports: CsrList<PortId>,
    /// port -> its two factors
    port_factors: Vec<[FactorId; 2]>,
}

impl CircuitGraph {
    /// The port -> factors table.
    pub closed spec fn spec_port_factors(&self) -> Seq<[FactorId; 2]> {
        self.port_factors@
    }

    /// The factor -> ports rows.
    pub closed spec fn spec_factor_ports(&self) -> Seq<Seq<PortId>> {
        self.factor_ports.view_rows()
    }

    /// The port paths, indexed by port id.
    pub closed spec fn spec_port_paths(&self) -> Seq<(Seq<char>, Seq<char>)> {
        self.port_paths@.map_values(|p: PortPath| p@)
    }

    /// Every port has its path and its two factors.
    pub proof fn lemma_port_tables_agree(&self)
        requires
            self.wf(),
        ensures
            self.spec_port_factors().len() == self.spec_port_paths().len(),
    {
    }

    /// The factor name table, in insertion order.
    pub closed spec fn spec_factor_names(&self) -> Seq<(Seq<char>, FactorId)> {
        self.factor_names@.map_values(|e: (String, FactorId)| (e.0@, e.1))
    }

    /// The factor name table as a map from name to id.
    pub closed spec fn spec_factor_table(&self) -> Map<Seq<char>, FactorId> {
        construct::entries_map(self.factor_names@)
    }

    /// The factor types, indexed by factor id.
    pub closed spec fn spec_factor_types(&self) -> Seq<FactorType> {
        self.factor_types@
    }

    /// Structural well-formedness: every id stored in one table indexes the other.
    pub closed spec fn wf(&self) -> bool {
        &&& self.factor_ports.wf()
        &&& forall|i: int, j: int|
            0 <= i < j < self.factor_names@.len() ==> self.factor_names@[i].0@ != self.factor_names@[j].0@
        &&& forall|i: int|
            0 <= i < self.factor_names@.len() ==> (#[trigger] self.factor_names@[i]).1.0
                < self.factor_ports.view_rows().len()
        &&& self.port_factors@.len() == self.port_paths@.len()
        &&& self.port_factors@.len() <= u32::MAX
        &&& self.factor_types@.len() == self.factor_ports.view_rows().len()
        &&& self.factor_ports.view_rows().len() <= u32::MAX
        &&& forall|p: int, k: int|
            0 <= p < self.port_factors@.len() && 0 <= k < 2 ==> (#[trigger] self.port_factors@[p][k]).0
                < self.factor_ports.view_rows().len()
        &&& forall|f: int, k: int|
            0 <= f < self.factor_ports.view_rows().len() && 0 <= k < self.factor_ports.view_rows()[f].len()
                ==> (#[trigger] self.factor_ports.view_rows()[f][k]).0 < self.port_factors@.len()
    }

    pub fn port_count(&self) -> (n: usize)
        requires
            self.wf(),
        ensures
            n == self.spec_port_factors().len(),
    {
        self.port_factors.len()
    }

    pub fn factor_count(&self) -> (n: usize)
        requires
            self.wf(),
        ensures
            n == self.spec_factor_ports().len(),
    {
        self.factor_ports.rows()
    }

    pub fn port_factors(&self, port: PortId) -> (r: [FactorId; 2])
        requires
            self.wf(),
            port.0 < self.spec_port_factors().len(),
        ensures
            r == self.spec_port_factors()[port.0 as int],
    {
        self.port_factors[port.0 as usize]
    }

    pub fn factor_ports(&self, factor: FactorId) -> (r: &[PortId])
        requires
            self.wf(),
            factor.0 < self.spec_factor_ports().len(),
        ensures
            r@ == self.spec_factor_ports()[factor.0 as int],
    {
        self.factor_ports.row_unchecked(factor.0 as usize)
    }
}

} // verus!
