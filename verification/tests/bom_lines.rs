use pcb_core::sch::entries::{bom_entry, contains_text, generate_bom_entries, BomInstance};
use pcb_core::sch::grouping::group_bom_entries;
use pcb_core::sch::value::AttributeValue;
use pcb_core::strmap::StrMap;

fn inst(path: &[&str], refdes: Option<&str>, attrs: &[(&str, &str)]) -> BomInstance {
    let mut m = StrMap::new();
    for (k, v) in attrs {
        m.insert(k.to_string(), AttributeValue::String(v.to_string()));
    }
    BomInstance {
        instance_path: path.iter().map(|s| s.to_string()).collect(),
        reference_designator: refdes.map(|s| s.to_string()),
        is_component: true,
        attributes: m,
    }
}

#[test]
fn entry_of_an_instance() {
    let e = bom_entry(&inst(
        &["board", "R1"],
        Some("R1"),
        &[("MPN", "RC0402"), ("manufacturer", "Yageo"), ("Value", "10k"), ("dnp", "TRUE")],
    ));
    assert_eq!(e.path, "board.R1");
    assert_eq!(e.designator, "R1");
    assert_eq!(e.mpn, Some("RC0402".to_string()));
    assert_eq!(e.manufacturer, Some("Yageo".to_string()));
    assert_eq!(e.value, Some("10k".to_string()));
    assert!(e.dnp);

    let unassigned = bom_entry(&inst(&["board", "J1"], None, &[]));
    assert_eq!(unassigned.designator, "?board.J1");
    assert!(!unassigned.dnp);

    let tp = bom_entry(&inst(&["TP3"], Some("TP3"), &[]));
    assert!(tp.dnp);
    let test_type = bom_entry(&inst(&["X"], Some("X1"), &[("type", "TestPoint")]));
    assert!(test_type.dnp);

    let mut alt = inst(&["U1"], Some("U1"), &[]);
    alt.attributes.insert(
        "__alternatives__".to_string(),
        AttributeValue::Array(vec![
            AttributeValue::String("A1".to_string()),
            AttributeValue::Boolean(true),
            AttributeValue::String("A2".to_string()),
        ]),
    );
    assert_eq!(bom_entry(&alt).alternatives, vec!["A1", "A2"]);
    assert!(contains_text("TestPoint", "Point"));
    assert!(!contains_text("Test", "Points"));
}

#[test]
fn entries_keyed_and_sorted_by_path() {
    let instances = vec![
        inst(&["b", "R2"], Some("R2"), &[("Value", "1k")]),
        inst(&["a", "R1"], Some("R1"), &[("Value", "2k")]),
        inst(&["b", "R2"], Some("R9"), &[("Value", "3k")]),
    ];
    let es = generate_bom_entries(&instances);
    let paths: Vec<&str> = es.iter().map(|e| e.path.as_str()).collect();
    assert_eq!(paths, vec!["a.R1", "b.R2"]);
    assert_eq!(es[1].designator, "R9");
    assert_eq!(es[1].value, Some("3k".to_string()));
}

#[test]
fn identical_parts_share_a_line() {
    let instances = vec![
        inst(&["R3"], Some("R3"), &[("MPN", "RC0402"), ("Value", "10k")]),
        inst(&["C1"], Some("C1"), &[("MPN", "CL05"), ("Value", "1u")]),
        inst(&["R1"], Some("R1"), &[("MPN", "RC0402"), ("Value", "10k")]),
        inst(&["R2"], Some("R2"), &[("MPN", "RC0402"), ("Value", "4k7")]),
    ];
    let es = generate_bom_entries(&instances);
    let lines = group_bom_entries(&es);
    assert_eq!(lines.len(), 3);
    let firsts: Vec<&str> = lines.iter().map(|l| l.designators[0].as_str()).collect();
    assert_eq!(firsts, vec!["C1", "R1", "R2"]);
    assert_eq!(lines[1].designators, vec!["R1", "R3"]);
    assert_eq!(lines[1].value, Some("10k".to_string()));
    assert_eq!(lines[2].value, Some("4k7".to_string()));
    assert!(group_bom_entries(&Vec::new()).is_empty());
}
