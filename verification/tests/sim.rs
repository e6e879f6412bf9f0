use pcb_core::sim::{gen_sim, SimInstance, SpiceModelAttrs};

fn model(def: &str, name: &str, args: &str, nets: &[&str]) -> Option<SpiceModelAttrs> {
    Some(SpiceModelAttrs {
        definition: def.to_string(),
        name: name.to_string(),
        args: args.to_string(),
        nets: nets.iter().map(|s| s.to_string()).collect(),
    })
}

fn comp(refdes: &str, m: Option<SpiceModelAttrs>) -> SimInstance {
    SimInstance { is_component: true, reference_designator: Some(refdes.to_string()), model: m }
}

#[test]
fn netlist_in_designator_order_with_each_model_once() {
    let lib = ".include res.lib\n";
    let instances = vec![
        comp("R2", model(lib, "res", "r=2k", &["MID", "GND"])),
        SimInstance { is_component: false, reference_designator: None, model: None },
        comp("R1", model(lib, "res", "r=1k", &["VIN", "MID"])),
        comp("C1", None),
        comp("D1", model(".model dd D\n", "dd", "", &["A"])),
    ];
    let text = gen_sim(&instances);
    assert_eq!(
        text,
        "\n.model dd D\nXD1 A dd \n.include res.lib\nXR1 VIN MID res r=1k\nXR2 MID GND res r=2k\n"
    );
}

#[test]
fn empty_schematic_gives_an_empty_line() {
    assert_eq!(gen_sim(&Vec::new()), "\n");
    let no_models = vec![comp("R1", None)];
    assert_eq!(gen_sim(&no_models), "\n");
    let no_nets = vec![comp("X1", model("", "m", "a", &[]))];
    assert_eq!(gen_sim(&no_nets), "\nXX1  m a\n");
}
