use pcb_core::lang::component::LangValue;
use pcb_core::lang::spice::{get_sub_circuit, sub_circuit_from_captures, text_lines, whitespace_tokens, SpiceCall, SpiceModelType};
use pcb_core::strmap::StrMap;

const MODEL: &str = "* divider model\n.SUBCKT divider in out gnd PARAMS: r1=1k r2=2k\n+ params: c=1n r1=2k\nR1 in out {r1}\nR2 out gnd {r2}\n.ENDS\n";

fn net(handle: u64) -> LangValue {
    LangValue { handle, value_type: "Net".to_string(), str_value: None }
}

fn text(handle: u64, s: &str) -> LangValue {
    LangValue { handle, value_type: "string".to_string(), str_value: Some(s.to_string()) }
}

fn args(pairs: &[(&str, &str)]) -> StrMap<String> {
    let mut m = StrMap::new();
    for (k, v) in pairs {
        m.insert(k.to_string(), v.to_string());
    }
    m
}

fn call(n_nets: u64, a: StrMap<String>) -> SpiceCall {
    SpiceCall {
        path: "models/divider.lib".to_string(),
        name: "divider".to_string(),
        nets: (0..n_nets).map(net).collect(),
        args: a,
    }
}

#[test]
fn lines_and_tokens() {
    assert_eq!(text_lines("a\r\nb\n\nc"), vec!["a", "b", "", "c"]);
    assert_eq!(text_lines("x\n"), vec!["x"]);
    assert!(text_lines("").is_empty());
    assert_eq!(whitespace_tokens("  in \tout\ngnd  "), vec!["in", "out", "gnd"]);
    assert!(whitespace_tokens("   ").is_empty());
}

#[test]
fn sub_circuit_ports_and_params() {
    let c = get_sub_circuit(MODEL, "divider").ok().unwrap();
    assert_eq!(c.nets, vec!["in", "out", "gnd"]);
    assert_eq!(c.params, vec!["r1", "r2", "c"]);

    let lower = get_sub_circuit(".subckt diode a k\n", "DIODE").ok().unwrap();
    assert_eq!(lower.nets, vec!["a", "k"]);
    assert!(lower.params.is_empty());

    assert_eq!(get_sub_circuit(MODEL, "div").err().unwrap(), "cannot find subckt named div");
    assert_eq!(get_sub_circuit(MODEL, "opamp").err().unwrap(), "cannot find subckt named opamp");
}

#[test]
fn spice_call_arguments_checked() {
    let nets = vec![net(1), net(2)];
    let entries = vec![(text(3, "r1"), text(4, "10k"))];
    let c = SpiceModelType::parse_arguments(&text(5, "m.lib"), &text(6, "divider"), Some(&nets), Some(&entries))
        .ok()
        .unwrap();
    assert_eq!(c.path, "m.lib");
    assert_eq!(c.name, "divider");
    assert_eq!(c.nets.len(), 2);
    assert_eq!(c.args.get("r1").unwrap(), "10k");

    let err = |r: Result<SpiceCall, String>| r.err().unwrap();
    assert_eq!(
        err(SpiceModelType::parse_arguments(&net(1), &text(6, "d"), Some(&nets), Some(&entries))),
        "`path` must be a string"
    );
    assert_eq!(
        err(SpiceModelType::parse_arguments(&text(5, "m"), &text(6, "d"), None, Some(&entries))),
        "`nets` must be a list of Net"
    );
    assert_eq!(
        err(SpiceModelType::parse_arguments(&text(5, "m"), &text(6, "d"), Some(&nets), None)),
        "`args` must be a map"
    );
    let bad_value = vec![(text(3, "r1"), net(4))];
    assert_eq!(
        err(SpiceModelType::parse_arguments(&text(5, "m"), &text(6, "d"), Some(&nets), Some(&bad_value))),
        "parameter values must be strings"
    );
    let bad_name = vec![(net(3), text(4, "1"))];
    assert_eq!(
        err(SpiceModelType::parse_arguments(&text(5, "m"), &text(6, "d"), Some(&nets), Some(&bad_name))),
        "parameter names must be strings"
    );
    let not_nets = vec![net(1), text(2, "x")];
    assert_eq!(
        err(SpiceModelType::parse_arguments(&text(5, "m"), &text(6, "d"), Some(&not_nets), Some(&entries))),
        "Expected Net, got string"
    );
}

#[test]
fn spice_model_binds_to_its_sub_circuit() {
    let v = SpiceModelType::bind(call(3, args(&[("r1", "1k"), ("r2", "2k"), ("c", "1n")])), MODEL.to_string())
        .ok()
        .unwrap();
    assert_eq!(v.name(), "divider");
    assert_eq!(v.definition(), MODEL);
    assert_eq!(v.nets().len(), 3);
    assert_eq!(v.args().get("c").unwrap(), "1n");

    let err = |c: SpiceCall| SpiceModelType::bind(c, MODEL.to_string()).err().unwrap();
    assert_eq!(err(call(2, args(&[("r1", "1"), ("r2", "2"), ("c", "3")]))), "Expected 3 nets, 2 provided");
    assert_eq!(err(call(3, args(&[("r1", "1")]))), "Required argument(s) [\"r2\", \"c\"] not provided");
    assert_eq!(
        err(call(3, args(&[("r1", "1"), ("r2", "2"), ("c", "3"), ("l", "4")]))),
        "Unexpected argument(s) [\"l\"] "
    );
    let mut other = call(3, args(&[]));
    other.name = "opamp".to_string();
    assert_eq!(err(other), "cannot find subckt named opamp");
}

#[test]
fn sub_circuit_from_match_groups() {
    let s = |t: &str| Some(t.to_string());
    let decl = vec![s(".subckt d a k params: R=1 C"), s("a k"), s("R=1 C")];
    let conts = vec![vec![s("+ params: R=2 L"), s("R=2 L")]];
    let c = sub_circuit_from_captures("d", &decl, &conts).ok().unwrap();
    assert_eq!(c.nets, vec!["a".to_string(), "k".to_string()]);
    assert_eq!(c.params, vec!["R".to_string(), "C".to_string(), "L".to_string()]);
    let bad = vec![s(".subckt d a params: =3"), s("a"), s("=3")];
    assert_eq!(sub_circuit_from_captures("d", &bad, &vec![]).err().unwrap(), "empty parameter name in subckt d");
}
