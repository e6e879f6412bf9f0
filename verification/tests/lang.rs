use pcb_core::lang::interface_validation::{ensure_field_compat, get_type_name_for_error, FieldKind, ValueDesc};

#[test]
fn test_field_kind_matches() {

    // Net compatibility
    assert!(FieldKind::Net.matches(FieldKind::Net));
    assert!(FieldKind::Net.matches(FieldKind::NetType));
    assert!(!FieldKind::Net.matches(FieldKind::InterfaceValue));
    assert!(!FieldKind::Net.matches(FieldKind::InterfaceFactory));

    // Interface compatibility
    assert!(FieldKind::InterfaceValue.matches(FieldKind::InterfaceValue));
    assert!(FieldKind::InterfaceValue.matches(FieldKind::InterfaceFactory));
    assert!(!FieldKind::InterfaceValue.matches(FieldKind::Net));
    assert!(!FieldKind::InterfaceValue.matches(FieldKind::NetType));
}

fn desc(t: &str, factory: bool, key: Option<&str>) -> ValueDesc {
    ValueDesc { value_type: t.to_string(), is_interface_factory: factory, promotion_key: key.map(|k| k.to_string()) }
}

#[test]
fn field_compat_messages() {
    let spec = desc("InterfaceFactory", true, Some("Uart"));
    let provided = desc("Net", false, None);
    assert_eq!(FieldKind::of(&spec), FieldKind::InterfaceFactory);
    assert_eq!(get_type_name_for_error(&spec), "Uart");
    assert_eq!(
        ensure_field_compat(&spec, &provided, "tx"),
        Err("Interface field 'tx' expects Uart, got Net".to_string())
    );
    let value = desc("InterfaceValue", false, None);
    assert_eq!(get_type_name_for_error(&value), "Interface");
    assert_eq!(ensure_field_compat(&spec, &value, "tx"), Ok(()));
    assert_eq!(get_type_name_for_error(&desc("int", false, None)), "int");
}
