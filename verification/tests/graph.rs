use pcb_core::graph::csr::{CsrError, CsrList};
use pcb_core::graph::{CircuitGraph, ComponentPath, FactorId, FactorType, PortId, PortPath};

fn pp(c: &str, p: &str) -> PortPath {
    PortPath::new(ComponentPath::new(c.to_string()), p.to_string())
}

fn simple_nets() -> Vec<(String, Vec<PortPath>)> {
    vec![
        ("VCC".to_string(), vec![pp("R1", "A"), pp("C1", "+")]),
        ("GND".to_string(), vec![pp("R1", "B"), pp("C1", "-")]),
    ]
}

fn simple_pins() -> Vec<(ComponentPath, Vec<String>)> {
    vec![
        (ComponentPath::new("R1".to_string()), vec!["A".to_string(), "B".to_string()]),
        (ComponentPath::new("C1".to_string()), vec!["+".to_string(), "-".to_string()]),
    ]
}

#[test]
fn test_csr_from_buckets() {
    let buckets = vec![vec![1, 2], vec![], vec![3, 4, 5]];
    let csr = CsrList::from_buckets(buckets);

    assert_eq!(csr.rows(), 3);
    assert_eq!(csr.nnz(), 5);
    assert_eq!(csr.row(0).unwrap(), &[1, 2]);
    assert_eq!(csr.row(1).unwrap(), &[] as &[i32]);
    assert_eq!(csr.row(2).unwrap(), &[3, 4, 5]);
}

#[test]
fn test_csr_row_oob() {
    let csr = CsrList::from_buckets(vec![vec![1], vec![2]]);
    assert!(matches!(csr.row(2), Err(CsrError::RowOob)));
    assert!(matches!(csr.row(3), Err(CsrError::RowOob)));
}

#[test]
fn test_simple_circuit_graph() {
    let graph = CircuitGraph::new(simple_nets(), simple_pins(), Vec::new()).unwrap();
    assert_eq!(graph.port_count(), 4);
    assert_eq!(graph.factor_count(), 4); // 2 nets + 2 components
}

#[test]
fn test_io_factor() {
    // IO factors test removed since IO is not used in real circuits
    // Only components and nets are used in practice
}

#[test]
fn test_path_finding() {
    let graph = CircuitGraph::new(simple_nets(), simple_pins(), Vec::new()).unwrap();
    let start_id = graph.port_id(&pp("R1", "A")).unwrap();
    let goal_id = graph.port_id(&pp("C1", "+")).unwrap();

    let paths = graph.all_simple_paths(start_id, goal_id, 10);
    assert!(!paths.is_empty());
    assert!(paths.iter().any(|path| path.len() == 2), "Should include direct path via VCC net");
    assert_eq!(paths.len(), 2);
}

#[test]
fn test_complex_circuit() {
    let nets = vec![
        ("VCC".to_string(), vec![pp("MCU", "VDD"), pp("R1", "A"), pp("C1", "+")]),
        ("GND".to_string(), vec![pp("MCU", "GND"), pp("R1", "B"), pp("C1", "-")]),
        ("SDA".to_string(), vec![pp("MCU", "SDA"), pp("BMI270", "SDA"), pp("R2", "A")]),
        ("SCL".to_string(), vec![pp("MCU", "SCL"), pp("BMI270", "SCL"), pp("R3", "A")]),
        ("PULLUP_VCC".to_string(), vec![pp("R2", "B"), pp("R3", "B")]),
    ];
    let s = |v: &[&str]| v.iter().map(|x| x.to_string()).collect::<Vec<_>>();
    let pins = vec![
        (ComponentPath::new("MCU".to_string()), s(&["VDD", "GND", "SDA", "SCL"])),
        (ComponentPath::new("BMI270".to_string()), s(&["SDA", "SCL"])),
        (ComponentPath::new("R1".to_string()), s(&["A", "B"])),
        (ComponentPath::new("R2".to_string()), s(&["A", "B"])),
        (ComponentPath::new("R3".to_string()), s(&["A", "B"])),
        (ComponentPath::new("C1".to_string()), s(&["+", "-"])),
    ];
    let graph = CircuitGraph::new(nets, pins, Vec::new()).unwrap();
    let mcu_sda = graph.port_id(&pp("MCU", "SDA")).unwrap();
    let bmi_sda = graph.port_id(&pp("BMI270", "SDA")).unwrap();
    assert_eq!(graph.port_count(), 14);
    assert_eq!(graph.factor_count(), 11);

    let paths = graph.all_simple_paths(mcu_sda, bmi_sda, 10);
    assert!(!paths.is_empty(), "Should find at least one path between MCU.SDA and BMI270.SDA");
    for path in &paths {
        assert!(path.len() >= 2, "Path should have at least 2 ports");
        assert_eq!(path[0], mcu_sda, "Path should start at MCU.SDA");
        assert_eq!(path[path.len() - 1], bmi_sda, "Path should end at BMI270.SDA");
    }
}

#[test]
fn test_graph_constraints() {
    let graph_result = CircuitGraph::new(simple_nets(), simple_pins(), Vec::new());
    match &graph_result {
        Ok(_) => println!("✓ Graph created successfully"),
        Err(e) => println!("✗ Graph creation failed: {:?}", e),
    }
    assert!(graph_result.is_ok(), "Should succeed creating graph");
}

#[test]
fn test_neighbor_iteration() {
    let graph = CircuitGraph::new(simple_nets(), simple_pins(), Vec::new()).unwrap();
    let r1_a = graph.port_id(&pp("R1", "A")).unwrap();
    let c1_plus = graph.port_id(&pp("C1", "+")).unwrap();
    let r1_b = graph.port_id(&pp("R1", "B")).unwrap();
    let neighbors = graph.for_each_neighbor(r1_a);
    assert_eq!(neighbors.len(), 2);
    assert!(neighbors.contains(&c1_plus), "Should be connected to C1.+ via VCC net");
    assert!(neighbors.contains(&r1_b), "Should be connected to R1.B via R1 component");
}

#[test]
fn test_factor_tracking_prevents_net_revisit() {
    let nets = vec![
        ("NET_A".to_string(), vec![pp("R1", "A"), pp("R2", "A")]),
        ("NET_B".to_string(), vec![pp("R1", "B"), pp("R3", "A")]),
        ("NET_C".to_string(), vec![pp("R2", "B"), pp("R3", "B")]),
    ];
    let ab = || vec!["A".to_string(), "B".to_string()];
    let pins = vec![
        (ComponentPath::new("R1".to_string()), ab()),
        (ComponentPath::new("R2".to_string()), ab()),
        (ComponentPath::new("R3".to_string()), ab()),
    ];
    let graph = CircuitGraph::new(nets, pins, Vec::new()).unwrap();
    let start_id = graph.port_id(&pp("R1", "A")).unwrap();
    let goal_id = graph.port_id(&pp("R3", "B")).unwrap();
    let paths = graph.all_simple_paths(start_id, goal_id, 20);
    assert!(!paths.is_empty(), "Should find at least one valid path");
    assert_eq!(paths.len(), 2, "Should find exactly 2 valid paths with no factor reuse");
}

#[test]
fn test_factor_tracking_prevents_component_revisit() {
    let nets = vec![
        ("NET_1".to_string(), vec![pp("R1", "A"), pp("R2", "A")]),
        ("NET_2".to_string(), vec![pp("R2", "B"), pp("R3", "A")]),
        ("NET_3".to_string(), vec![pp("R1", "B")]),
        ("NET_4".to_string(), vec![pp("R3", "B")]),
    ];
    let ab = || vec!["A".to_string(), "B".to_string()];
    let pins = vec![
        (ComponentPath::new("R1".to_string()), ab()),
        (ComponentPath::new("R2".to_string()), ab()),
        (ComponentPath::new("R3".to_string()), ab()),
    ];
    let graph = CircuitGraph::new(nets, pins, Vec::new()).unwrap();
    let start_id = graph.port_id(&pp("R1", "A")).unwrap();
    let goal_id = graph.port_id(&pp("R3", "A")).unwrap();
    let paths = graph.all_simple_paths(start_id, goal_id, 20);
    assert!(!paths.is_empty(), "Should find at least one valid path");
    assert_eq!(paths.len(), 1, "Should find exactly one path");
}

#[test]
fn graph_lookups_by_name_and_id() {
    let graph = CircuitGraph::new(simple_nets(), simple_pins(), Vec::new()).unwrap();
    let vcc = graph.factor_id("VCC").unwrap();
    assert!(matches!(graph.factor_type(vcc), FactorType::Net(n) if n == "VCC"));
    let r1 = graph.factor_id("R1").unwrap();
    assert!(matches!(graph.factor_type(r1), FactorType::Component(n) if n == "R1"));
    assert_eq!(graph.factor_name(vcc), Some("VCC"));
    assert!(graph.factor_id("missing").is_none());
    let id = graph.port_id(&pp("C1", "-")).unwrap();
    let p = graph.port_path(id).unwrap();
    assert_eq!(p.component.as_str(), "C1");
    assert_eq!(p.pin, "-");
    assert!(graph.port_path(pcb_core::graph::PortId(99)).is_none());
    assert!(graph.port_id(&pp("C9", "x")).is_none());
}

#[test]
fn graph_rejects_port_with_third_factor() {
    let nets = vec![
        ("A".to_string(), vec![pp("R1", "A")]),
        ("B".to_string(), vec![pp("R1", "A")]),
    ];
    let pins = vec![(ComponentPath::new("R1".to_string()), vec!["A".to_string()])];
    match CircuitGraph::new(nets, pins, Vec::new()) {
        Err(pcb_core::graph::GraphError::TooManyFactors(s)) => assert_eq!(s, "R1.A"),
        other => panic!("unexpected: {:?}", other.is_ok()),
    }
}

#[test]
fn graph_rejects_port_with_one_factor() {
    let nets = vec![("A".to_string(), vec![pp("R1", "A")])];
    match CircuitGraph::new(nets, Vec::new(), Vec::new()) {
        Err(pcb_core::graph::GraphError::TooFewFactors(s)) => assert_eq!(s, "R1.A"),
        other => panic!("unexpected: {:?}", other.is_ok()),
    }
}

#[test]
fn graph_public_net_gets_external_port() {
    let graph = CircuitGraph::new(simple_nets(), simple_pins(), vec!["VCC".to_string(), "NOPE".to_string()])
        .unwrap();
    assert_eq!(graph.port_count(), 5);
    let ext = graph.port_id(&pp("<external>", "VCC")).unwrap();
    let vcc = graph.factor_id("VCC").unwrap();
    assert_eq!(graph.port_factors(ext), [vcc, vcc]);
    assert!(graph.factor_ports(vcc).contains(&ext));
}

#[test]
fn test_display() {
    let graph = CircuitGraph::new(simple_nets(), simple_pins(), Vec::new()).unwrap();
    let display_output = graph.to_string();

    assert!(display_output.contains("CircuitGraph"));
    assert!(display_output.contains("factors:"));
    assert!(display_output.contains("ports:"));
    assert!(display_output.contains("VCC"));
    assert!(display_output.contains("R1.A"));
    assert!(display_output.contains("Component(\"R1\")"));
}

#[test]
fn display_lists_factors_then_ports_in_order() {
    let graph = CircuitGraph::new(simple_nets(), simple_pins(), Vec::new()).unwrap();
    let expected = "CircuitGraph {\n  ports: 4, factors: 4\n  factors:\n    Net(\"VCC\") -> [R1.A, C1.+]\n    Net(\"GND\") -> [R1.B, C1.-]\n    Component(\"R1\") -> [R1.A, R1.B]\n    Component(\"C1\") -> [C1.+, C1.-]\n  ports:\n    R1.A -> [VCC, R1]\n    C1.+ -> [VCC, C1]\n    R1.B -> [GND, R1]\n    C1.- -> [GND, C1]\n}";
    assert_eq!(graph.to_string(), expected);
}

#[test]
fn test_factor_tracking_with_complex_circuit() {
    let nets = vec![
        ("VCC".to_string(), vec![pp("MCU", "VDD"), pp("R1", "A"), pp("C1", "+")]),
        ("GND".to_string(), vec![pp("MCU", "GND"), pp("R1", "B"), pp("C1", "-")]),
        ("SDA".to_string(), vec![pp("MCU", "SDA"), pp("BMI270", "SDA"), pp("R2", "A")]),
        ("SCL".to_string(), vec![pp("MCU", "SCL"), pp("BMI270", "SCL"), pp("R3", "A")]),
        ("PULLUP_VCC".to_string(), vec![pp("R2", "B"), pp("R3", "B")]),
    ];
    let s = |v: &[&str]| v.iter().map(|x| x.to_string()).collect::<Vec<_>>();
    let pins = vec![
        (ComponentPath::new("MCU".to_string()), s(&["VDD", "GND", "SDA", "SCL"])),
        (ComponentPath::new("BMI270".to_string()), s(&["SDA", "SCL"])),
        (ComponentPath::new("R1".to_string()), s(&["A", "B"])),
        (ComponentPath::new("R2".to_string()), s(&["A", "B"])),
        (ComponentPath::new("R3".to_string()), s(&["A", "B"])),
        (ComponentPath::new("C1".to_string()), s(&["+", "-"])),
    ];
    let graph = CircuitGraph::new(nets, pins, Vec::new()).unwrap();
    let test_cases = vec![(("MCU", "VDD"), ("C1", "+")), (("MCU", "SDA"), ("BMI270", "SDA")), (("R2", "B"), ("R3", "B"))];
    for (start_port, end_port) in test_cases {
        let start_id = graph.port_id(&pp(start_port.0, start_port.1)).unwrap();
        let goal_id = graph.port_id(&pp(end_port.0, end_port.1)).unwrap();
        let paths = graph.all_simple_paths(start_id, goal_id, 20);
        for path in &paths {
            assert_eq!(path[0], start_id);
            assert_eq!(path[path.len() - 1], goal_id);
        }
    }
}

#[test]
fn test_factor_tracking_efficiency() {
    let mut nets = Vec::new();
    let mut pins = Vec::new();
    for i in 0..10 {
        pins.push((ComponentPath::new(format!("R{}", i)), vec!["A".to_string(), "B".to_string()]));
    }
    for i in 0..9 {
        nets.push((format!("NET_{}", i), vec![pp(&format!("R{}", i), "B"), pp(&format!("R{}", i + 1), "A")]));
    }
    nets.push(("START_NET".to_string(), vec![pp("R0", "A")]));
    nets.push(("END_NET".to_string(), vec![pp("R9", "B")]));
    let graph = CircuitGraph::new(nets, pins, Vec::new()).unwrap();

    let start_id = graph.port_id(&pp("R0", "A")).unwrap();
    let goal_id = graph.port_id(&pp("R9", "B")).unwrap();

    let start_time = std::time::Instant::now();
    let paths = graph.all_simple_paths(start_id, goal_id, 30);
    let duration = start_time.elapsed();

    assert!(duration.as_millis() < 100, "Pathfinding took too long: {:?}", duration);
    assert_eq!(paths.len(), 1, "Should find exactly one path in linear chain");
    assert_eq!(paths[0].len(), 20, "Path should visit all 20 ports across 10 components");
}

#[test]
fn test_external_nets_pathfinding() {
    let nets = vec![("VCC".to_string(), vec![pp("R1", "A")])];
    let pins = vec![(ComponentPath::new("R1".to_string()), vec!["A".to_string()])];
    let graph = CircuitGraph::new(nets, pins, vec!["VCC".to_string()]).unwrap();

    assert_eq!(graph.port_count(), 2);

    let r1_a = graph.port_id(&pp("R1", "A")).unwrap();
    let external_vcc = graph.port_id(&pp("<external>", "VCC")).unwrap();

    let paths = graph.all_simple_paths(r1_a, external_vcc, 10);
    assert!(!paths.is_empty(), "Should find path to external net");

    let reverse_paths = graph.all_simple_paths(external_vcc, r1_a, 10);
    assert!(!reverse_paths.is_empty(), "Should find path from external net");

    let [f0, f1] = graph.port_factors(external_vcc);
    assert_eq!(f0, f1, "External port should have duplicated factor");
}

#[test]
fn test_multiple_external_nets() {
    let nets = vec![("VCC".to_string(), vec![pp("R1", "A")]), ("GND".to_string(), vec![pp("R1", "B")])];
    let pins = vec![(ComponentPath::new("R1".to_string()), vec!["A".to_string(), "B".to_string()])];
    let graph = CircuitGraph::new(nets, pins, vec!["VCC".to_string(), "GND".to_string()]).unwrap();

    assert_eq!(graph.port_count(), 4);
    assert!(graph.port_id(&pp("<external>", "VCC")).is_some());
    assert!(graph.port_id(&pp("<external>", "GND")).is_some());

    let external_vcc = graph.port_id(&pp("<external>", "VCC")).unwrap();
    let external_gnd = graph.port_id(&pp("<external>", "GND")).unwrap();
    let paths = graph.all_simple_paths(external_vcc, external_gnd, 10);
    assert!(!paths.is_empty(), "Should find path between external nets via component");
}

#[test]
fn external_start_reports_each_path_once() {
    let nets = vec![("VCC".to_string(), vec![pp("R1", "A")]), ("GND".to_string(), vec![pp("R1", "B")])];
    let pins = vec![(ComponentPath::new("R1".to_string()), vec!["A".to_string(), "B".to_string()])];
    let graph = CircuitGraph::new(nets, pins, vec!["VCC".to_string()]).unwrap();
    let external_vcc = graph.port_id(&pp("<external>", "VCC")).unwrap();
    let r1_a = graph.port_id(&pp("R1", "A")).unwrap();
    let paths = graph.all_simple_paths(external_vcc, r1_a, 10);
    assert_eq!(paths, vec![vec![external_vcc, r1_a]]);
    let with_factors = graph.all_simple_paths_with_factors(external_vcc, r1_a, None);
    assert_eq!(with_factors.len(), 1);
}

#[test]
fn ports_and_factors_list_each_other() {
    let graph = CircuitGraph::new(simple_nets(), simple_pins(), vec!["VCC".to_string()]).unwrap();
    assert_eq!(graph.factor_count(), 4);
    assert_eq!(graph.port_count(), 5);
    for p in 0..graph.port_count() {
        let pid = PortId(p as u32);
        for f in graph.port_factors(pid) {
            assert!(graph.factor_ports(f).contains(&pid));
        }
        let path = graph.port_path(pid).unwrap().clone();
        assert_eq!(graph.port_id(&path), Some(pid));
    }
    for f in 0..graph.factor_count() {
        let fid = FactorId(f as u32);
        for q in graph.factor_ports(fid) {
            assert!(graph.port_factors(*q).contains(&fid));
        }
    }
    assert!(graph.port_path(PortId(graph.port_count() as u32)).is_none());
}
