use pcb_core::eda::{Pin, Symbol};
use pcb_core::lang::component::{
    build_component_factory_from_symbol, parent_of, ComponentArgs, ComponentType, DefElem, DefItem, FactoryArgs,
    LangValue, LoadedLibrary, PropValue, PropertiesArg, SymbolArg, SymbolArgs, SymbolType, SymbolValueGen,
};
use pcb_core::lang::module::{MissingInputError, ModuleValueGen, NetId};
use pcb_core::strmap::StrMap;

fn net(handle: u64) -> LangValue {
    LangValue { handle, value_type: "Net".to_string(), str_value: None }
}

fn s(x: &str) -> String {
    x.to_string()
}

fn resistor_args() -> ComponentArgs {
    ComponentArgs {
        name: Some(s("R1")),
        footprint: Some(s("fp/R0402.kicad_mod")),
        pin_defs: Some(Some(vec![(Some(s("A")), Some(s("1"))), (Some(s("B")), Some(s("2")))])),
        pins: Some(vec![(Some(s("A")), net(10)), (Some(s("B")), net(11))]),
        prefix: Some(s("R")),
        symbol: SymbolArg::Absent,
        mpn: Some(s("RC0402")),
        ctype: None,
        properties: PropertiesArg::Dict(vec![(s("value"), LangValue { handle: 5, value_type: s("string"), str_value: Some(s("10k")) })]),
    }
}

#[test]
fn component_built_from_pin_defs() {
    let c = ComponentType.invoke(resistor_args(), Some(s("/work/boards/main.zen"))).ok().unwrap();
    assert_eq!(c.name(), "R1");
    assert_eq!(c.prefix(), "R");
    assert_eq!(c.mpn(), Some("RC0402"));
    assert_eq!(c.ctype(), None);
    assert_eq!(c.footprint(), "/work/boards/fp/R0402.kicad_mod");
    assert_eq!(c.pins().get("A").unwrap(), "1");
    assert_eq!(c.connections().get("B").unwrap().handle, 11);
    assert!(matches!(c.properties().get("value"), Some(PropValue::Value(v)) if v.handle == 5));
    assert_eq!(c.source_path(), "/work/boards/main.zen");
    assert!(c.symbol().is_none());
}

#[test]
fn component_argument_errors() {
    let err = |a: ComponentArgs| ComponentType.invoke(a, Some(s("/w/m.zen"))).err().unwrap();
    let mut a = resistor_args();
    a.name = None;
    assert_eq!(err(a), "`name` must be a string");
    let mut a = resistor_args();
    a.pins = Some(vec![(Some(s("A")), net(1))]);
    assert_eq!(err(a), "Unconnected pin(s): B");
    let mut a = resistor_args();
    a.pins = Some(vec![(Some(s("C")), net(1))]);
    assert_eq!(err(a), "Unknown pin name 'C' (expected one of: A, B)");
    let mut a = resistor_args();
    a.pins = Some(vec![(Some(s("A")), LangValue { handle: 1, value_type: s("int"), str_value: None })]);
    assert_eq!(err(a), "Pin 'A' must be connected to a Net, got int");
    let mut a = resistor_args();
    a.pin_defs = None;
    assert_eq!(err(a), "Either `pin_defs` or a Symbol value for `symbol` must be provided");
    let mut a = resistor_args();
    a.pin_defs = Some(None);
    assert_eq!(err(a), "`pin_defs` must be a dict of name -> pad");
    let mut a = resistor_args();
    a.properties = PropertiesArg::NotDict;
    assert_eq!(err(a), "`properties` must be a dict when provided");
    let mut a = resistor_args();
    a.footprint = None;
    assert_eq!(err(a), "`footprint` must be a string");
    assert_eq!(
        ComponentType.invoke(resistor_args(), None).err().unwrap(),
        "could not determine parent directory of current file"
    );
}

#[test]
fn component_takes_pins_from_its_symbol() {
    let mut pads = StrMap::new();
    pads.insert(s("1"), s("VIN"));
    pads.insert(s("2"), s("GND"));
    let sym = SymbolValueGen::new(s("LDO"), pads, Some(s("/lib/ldo.kicad_sym")));
    let mut a = resistor_args();
    a.pin_defs = None;
    a.pins = Some(vec![(Some(s("VIN")), net(1)), (Some(s("GND")), net(2))]);
    a.properties = PropertiesArg::Absent;
    a.symbol = SymbolArg::Symbol(LangValue { handle: 77, value_type: s("Symbol"), str_value: None }, sym);
    let c = ComponentType.invoke(a, Some(s("/w/m.zen"))).ok().unwrap();
    assert_eq!(c.pins().get("VIN").unwrap(), "1");
    assert!(matches!(c.properties().get("symbol_name"), Some(PropValue::Text(t)) if t == "LDO"));
    assert!(matches!(c.properties().get("symbol_path"), Some(PropValue::Text(t)) if t == "/lib/ldo.kicad_sym"));
    assert_eq!(c.symbol().as_ref().unwrap().handle, 77);
}

fn lib_symbol(name: &str, pins: &[(&str, &str)]) -> Symbol {
    Symbol {
        name: s(name),
        footprint: s("Package_SO:SOIC-8"),
        in_bom: true,
        pins: pins.iter().map(|(n, num)| Pin { name: s(n), number: s(num) }).collect(),
        datasheet: None,
        manufacturer: Some(s("TI")),
        mpn: Some(s("LM358")),
        distributors: StrMap::new(),
        description: None,
        properties: StrMap::new(),
    }
}

#[test]
fn symbols_from_definitions_and_libraries() {
    let def = SymbolArgs {
        name: None,
        definition: Some(Some(vec![
            DefItem::Tuple(vec![DefElem::Str(s("VCC")), DefElem::List(vec![Some(s("1")), Some(s("8"))])]),
            DefItem::Tuple(vec![DefElem::Str(s("GND")), DefElem::List(vec![Some(s("4"))])]),
        ])),
        library: None,
    };
    let sym = SymbolType.invoke(def, Err(s("unused"))).ok().unwrap();
    assert_eq!(sym.name(), "Symbol");
    assert_eq!(sym.pins().get("8").unwrap(), "VCC");
    assert_eq!(sym.pins().get("4").unwrap(), "GND");
    assert!(sym.source_path().is_none());

    let dup = SymbolArgs {
        name: None,
        definition: Some(Some(vec![
            DefItem::Tuple(vec![DefElem::Str(s("A")), DefElem::List(vec![Some(s("1"))])]),
            DefItem::Tuple(vec![DefElem::Str(s("B")), DefElem::List(vec![Some(s("1"))])]),
        ])),
        library: None,
    };
    assert_eq!(SymbolType.invoke(dup, Err(s("x"))).err().unwrap(), "Pad '1' is already assigned to signal 'A'");
    let empty = SymbolArgs {
        name: None,
        definition: Some(Some(vec![DefItem::Tuple(vec![DefElem::Str(s("A")), DefElem::List(vec![])])])),
        library: None,
    };
    assert_eq!(SymbolType.invoke(empty, Err(s("x"))).err().unwrap(), "Pad list for signal 'A' cannot be empty");
    let none = SymbolArgs { name: None, definition: None, library: None };
    assert_eq!(
        SymbolType.invoke(none, Err(s("x"))).err().unwrap(),
        "Symbol requires either 'definition' or 'library' parameter"
    );

    let lib = || LoadedLibrary {
        display_path: s("@kicad/amp.kicad_sym"),
        absolute_path: s("/cache/kicad/amp.kicad_sym"),
        symbols: vec![lib_symbol("LM358", &[("~", "1"), ("OUT", "2")]), lib_symbol("TL072", &[("IN", "3")])],
    };
    let by_name = SymbolArgs { name: Some(s("LM358")), definition: None, library: Some(Some(s("amp.kicad_sym"))) };
    let sym = SymbolType.invoke(by_name, Ok(lib())).ok().unwrap();
    assert_eq!(sym.name(), "LM358");
    assert_eq!(sym.source_path(), Some("/cache/kicad/amp.kicad_sym"));
    let unnamed = SymbolArgs { name: None, definition: None, library: Some(Some(s("amp.kicad_sym"))) };
    assert!(SymbolType.invoke(unnamed, Ok(lib())).err().unwrap().starts_with("Library '@kicad/amp.kicad_sym' contains 2 symbols."));
    let missing = SymbolArgs { name: Some(s("NE555")), definition: None, library: Some(Some(s("amp.kicad_sym"))) };
    assert!(SymbolType.invoke(missing, Ok(lib())).err().unwrap().starts_with("Symbol 'NE555' not found in library"));
    let failed = SymbolArgs { name: None, definition: None, library: Some(Some(s("amp.kicad_sym"))) };
    assert_eq!(SymbolType.invoke(failed, Err(s("cannot read"))).err().unwrap(), "cannot read");
}

#[test]
fn factories_from_symbol_files() {
    let symbols = vec![lib_symbol("LM358", &[("~", "1"), ("OUT", "2")])];
    let f = build_component_factory_from_symbol(&symbols, "amp.kicad_sym", None, Some(s("/w")), s("/w/amp.kicad_sym"))
        .ok()
        .unwrap();
    assert_eq!(f.mpn(), Some("LM358"));
    assert_eq!(f.ctype(), Some("TI"));
    assert_eq!(f.footprint(), "Package_SO:SOIC-8");
    assert_eq!(f.pins().get("1").unwrap(), "1");
    assert_eq!(f.pins().get("OUT").unwrap(), "2");
    assert_eq!(f.default_properties().get("symbol_path").unwrap(), "/w/amp.kicad_sym");
    assert_eq!(
        build_component_factory_from_symbol(&Vec::new(), "x.kicad_sym", None, None, s("/x")).err().unwrap(),
        "No symbols found in file 'x.kicad_sym'"
    );

    let args = FactoryArgs {
        name: Some(s("U1")),
        pins: Some(vec![(Some(s("1")), net(1)), (Some(s("OUT")), net(2))]),
        footprint: None,
        prefix: None,
        mpn: None,
        ctype: None,
        properties: PropertiesArg::Absent,
    };
    let c = f.invoke(args, Some(s("/w/main.zen"))).ok().unwrap();
    assert_eq!(c.name(), "U1");
    assert_eq!(c.mpn(), Some("LM358"));
    assert_eq!(c.connections().len(), 2);
}

#[test]
fn modules_register_nets_with_unique_names() {
    let mut m = ModuleValueGen::new(s("top"), "/w/top.zen");
    assert_eq!(m.name(), "top");
    assert_eq!(m.source_path(), "/w/top.zen");
    assert_eq!(m.register_net(NetId(1), s("VCC")).unwrap(), "VCC");
    assert_eq!(m.register_net(NetId(2), s("VCC")).unwrap(), "VCC_2");
    assert_eq!(m.register_net(NetId(3), s("VCC")).unwrap(), "VCC_3");
    assert_eq!(m.register_net(NetId(1), s("OTHER")).unwrap(), "VCC");
    assert_eq!(m.register_net(NetId(4), s("  ")).unwrap(), "N4");
    assert_eq!(m.introduced_nets().len(), 4);
    m.unregister_net(NetId(2));
    assert_eq!(m.introduced_nets().len(), 3);
    assert_eq!(m.register_net(NetId(5), s("VCC")).unwrap(), "VCC_2");

    m.add_child(net(9));
    assert_eq!(m.children().len(), 1);
    m.set_name(s("renamed"));
    assert_eq!(m.name(), "renamed");
    assert_eq!(
        MissingInputError { name: s("vin") }.message(),
        "Input 'vin' is required but was not provided and no default value was given"
    );
    assert_eq!(parent_of("/a/b/c.zen"), Some(s("/a/b")));
    assert_eq!(parent_of("c.zen"), Some(s("")));
    assert_eq!(parent_of("/"), None);
}
