use std::sync::Arc;

use pcb_core::graph::checks::{
    matches_after, matches_begin, validation_after, validation_begin, MatchStep, MatcherOutcome, PathValidationOp,
    ValidationStep,
};
use pcb_core::graph::paths::{ModuleGraphValueGen, PathAttr, PathValueGen, PortLabel};
use pcb_core::graph::{CircuitGraph, ComponentPath, PortPath};
use pcb_core::strmap::StrMap;

fn pp(c: &str, p: &str) -> PortPath {
    PortPath::new(ComponentPath::new(c.to_string()), p.to_string())
}

fn divider() -> CircuitGraph {
    let nets = vec![
        ("VIN".to_string(), vec![pp("R1", "1")]),
        ("MID".to_string(), vec![pp("R1", "2"), pp("R2", "1")]),
        ("GND".to_string(), vec![pp("R2", "2")]),
    ];
    let pins = vec![
        (ComponentPath::new("R1".to_string()), vec!["1".to_string(), "2".to_string()]),
        (ComponentPath::new("R2".to_string()), vec!["1".to_string(), "2".to_string()]),
    ];
    CircuitGraph::new(nets, pins, vec!["VIN".to_string(), "GND".to_string()]).unwrap()
}

fn component_values() -> StrMap<u32> {
    let mut m = StrMap::new();
    m.insert("R1".to_string(), 1);
    m.insert("R2".to_string(), 2);
    m
}

fn tuple(c: &str, p: &str) -> PortLabel {
    PortLabel::Tuple(vec![Some(c.to_string()), Some(p.to_string())])
}

#[test]
fn labels_resolve_to_ports() {
    let g = divider();
    let a = g.resolve_label_to_port(&tuple("R1", "2")).unwrap();
    assert_eq!(g.port_path(a).unwrap().pin, "2");
    let io = g.resolve_label_to_port(&PortLabel::Net("VIN".to_string())).unwrap();
    assert_eq!(g.port_path(io).unwrap().component.0, "<external>");
    assert_eq!(
        g.resolve_label_to_port(&PortLabel::Net("MID".to_string())).unwrap_err(),
        "Net 'MID' is not a public (io) net - use a specific port tuple (component, pin) instead"
    );
    assert_eq!(g.resolve_label_to_port(&tuple("R9", "1")).unwrap_err(), "Port 'R9.1' not found");
    assert_eq!(
        g.resolve_label_to_port(&PortLabel::Tuple(vec![Some("R1".to_string())])).unwrap_err(),
        "Port tuple must have exactly 2 elements: (component, pin)"
    );
    assert_eq!(
        g.resolve_label_to_port(&PortLabel::Tuple(vec![None, Some("1".to_string())])).unwrap_err(),
        "Component path must be a string"
    );
    assert_eq!(
        g.resolve_label_to_port(&PortLabel::Tuple(vec![Some("R1".to_string()), None])).unwrap_err(),
        "Pin name must be a string"
    );
    assert_eq!(
        g.resolve_label_to_port(&PortLabel::Other).unwrap_err(),
        "Label must be a string (net name) or tuple (component, pin)"
    );
}

#[test]
fn paths_between_public_nets() {
    let module = ModuleGraphValueGen { module: 7u32, graph: Arc::new(divider()) };
    assert!(module.get_attr("nodes").is_none());
    let paths = module.get_attr("paths").unwrap();
    assert_eq!(paths.module, 7);
    let vin = PortLabel::Net("VIN".to_string());
    let gnd = PortLabel::Net("GND".to_string());
    let found = paths.invoke(Some(&vin), Some(&gnd), None, &component_values()).unwrap();
    assert_eq!(found.len(), 1);
    let p = &found[0];
    assert_eq!(p.components, vec![1, 2]);
    assert_eq!(p.nets, vec!["VIN".to_string(), "MID".to_string(), "GND".to_string()]);
    assert_eq!(p.ports.first().unwrap(), &("<external>".to_string(), "VIN".to_string()));
    assert_eq!(p.ports.last().unwrap(), &("<external>".to_string(), "GND".to_string()));
    assert_eq!(p.to_string(), "Path(2 components)");
    assert!(p.description().starts_with("Path [(\"<external>\", \"VIN\"), (\"R1\", \"1\")"));

    let short = paths.invoke(Some(&vin), Some(&gnd), Some(2), &component_values()).unwrap();
    assert!(short.is_empty());
}

#[test]
fn paths_argument_errors() {
    let module = ModuleGraphValueGen { module: 0u32, graph: Arc::new(divider()) };
    let paths = module.get_attr("paths").unwrap();
    let vin = PortLabel::Net("VIN".to_string());
    assert_eq!(
        paths.invoke(None, Some(&vin), None, &component_values()).unwrap_err(),
        "paths() requires 'start' argument"
    );
    assert_eq!(
        paths.invoke(Some(&vin), None, None, &component_values()).unwrap_err(),
        "paths() requires 'end' argument"
    );
    let mut only_r1 = StrMap::new();
    only_r1.insert("R1".to_string(), 1u32);
    let gnd = PortLabel::Net("GND".to_string());
    assert!(paths.invoke(Some(&vin), Some(&gnd), None, &only_r1).unwrap_err().contains("R2"));
}

#[test]
fn path_attributes_and_check_names() {
    let p: PathValueGen<u32> = PathValueGen { ports: vec![], components: vec![], nets: vec![] };
    assert_eq!(p.get_attr("ports"), Some(PathAttr::Ports));
    assert_eq!(p.get_attr("none"), Some(PathAttr::Check(PathValidationOp::NoneMatch)));
    assert_eq!(p.get_attr("matches"), Some(PathAttr::Matches));
    assert_eq!(p.get_attr("length"), None);
    assert_eq!(p.description(), "Path []");
    assert_eq!(PathValidationOp::NoneMatch.name(), "none");
    assert_eq!(PathValidationOp::Count.name(), "count");
}

fn run_check(op: PathValidationOp, judged: &[bool]) -> ValidationStep {
    let n = judged.len();
    let mut step = validation_begin(op, n);
    loop {
        match step {
            ValidationStep::CallMatcher { index, count } => {
                step = validation_after(op, n, index, count, judged[index]);
            },
            other => return other,
        }
    }
}

#[test]
fn validation_checks_follow_their_rule() {
    assert_eq!(run_check(PathValidationOp::Count, &[true, false, true]), ValidationStep::ReturnCount(2));
    assert_eq!(run_check(PathValidationOp::Count, &[]), ValidationStep::ReturnCount(0));
    assert_eq!(run_check(PathValidationOp::Any, &[false, true]), ValidationStep::ReturnNone);
    assert_eq!(
        run_check(PathValidationOp::Any, &[false, false]),
        ValidationStep::Fail("No components matched the condition".to_string())
    );
    assert_eq!(run_check(PathValidationOp::All, &[true, true]), ValidationStep::ReturnNone);
    assert_eq!(run_check(PathValidationOp::All, &[true, false]), ValidationStep::RaiseMatcherError);
    assert_eq!(run_check(PathValidationOp::NoneMatch, &[false, false]), ValidationStep::ReturnNone);
    assert_eq!(
        run_check(PathValidationOp::NoneMatch, &[false, true]),
        ValidationStep::Fail("Found component that matched the condition (expected none)".to_string())
    );
    assert_eq!(
        run_check(PathValidationOp::Matches, &[true]),
        ValidationStep::Fail("matches() operation should use PathMatchesCallable, not PathValidationCallable".to_string())
    );
}

fn run_matches(suppress: bool, n: usize, outcomes: &[MatcherOutcome]) -> MatchStep {
    let mut step = matches_begin(outcomes.len());
    loop {
        match step {
            MatchStep::CallMatcher { index, cursor } => {
                step = matches_after(suppress, outcomes.len(), n, index, cursor, outcomes[index]);
            },
            other => return other,
        }
    }
}

#[test]
fn matches_consumes_the_whole_path() {
    let r = MatcherOutcome::Returned;
    assert_eq!(run_matches(false, 3, &[r(Some(1)), r(Some(2))]), MatchStep::Return(true));
    assert_eq!(
        run_matches(false, 3, &[r(Some(1)), r(Some(1))]),
        MatchStep::Fail("Unconsumed components remaining (1 left)".to_string())
    );
    assert_eq!(run_matches(true, 3, &[r(Some(1)), r(Some(1))]), MatchStep::Return(false));
    assert_eq!(
        run_matches(false, 2, &[r(Some(3))]),
        MatchStep::Fail("Matcher 1 consumed past end of path (cursor 3 > path length 2)".to_string())
    );
    assert_eq!(
        run_matches(false, 2, &[r(Some(1)), r(Some(-2))]),
        MatchStep::Fail("Matcher 2 returned negative consumption: -2".to_string())
    );
    assert_eq!(
        run_matches(false, 2, &[r(None)]),
        MatchStep::Fail("Matcher 1 did not return an int".to_string())
    );
    assert_eq!(run_matches(false, 2, &[MatcherOutcome::Raised]), MatchStep::RaiseWrapped);
    assert_eq!(run_matches(true, 2, &[MatcherOutcome::Raised]), MatchStep::Return(false));
    assert_eq!(
        run_matches(false, 2, &[]),
        MatchStep::Fail("matches() requires at least one matcher function".to_string())
    );
}
