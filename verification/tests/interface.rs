use pcb_core::lang::component::LangValue;
use pcb_core::lang::interface::{
    check_using, declare_interface, discover_promotion_paths, field_net_name, get_promotion_key, get_promotion_map,
    instantiate_plan, nested_field_plan, net_type_instance_name, prefixed_field, template_net_name,
    to_ascii_uppercase, unwrap_using, FieldPlan, InterfaceFactoryGen, InterfaceKwarg, MaybeUsing, PromotionValue,
    UsingGen,
};
use pcb_core::lang::interface_validation::ValueDesc;
use pcb_core::strmap::StrMap;

fn desc(t: &str) -> ValueDesc {
    ValueDesc { value_type: t.to_string(), is_interface_factory: false, promotion_key: None }
}

fn factory_desc() -> ValueDesc {
    ValueDesc { value_type: "InterfaceFactory".to_string(), is_interface_factory: true, promotion_key: None }
}

fn kw(name: &str, value: ValueDesc, using: Option<PromotionValue>) -> InterfaceKwarg {
    InterfaceKwarg { name: name.to_string(), value, handle: 0, using }
}

fn copy_map(m: &StrMap<String>) -> StrMap<String> {
    let mut out = StrMap::new();
    for (k, v) in m.entries() {
        out.insert(k.clone(), v.clone());
    }
    out
}

/// `Power = interface(NET = using(Net("VCC")))`, named `Power`.
fn power() -> InterfaceFactoryGen {
    let mut p = declare_interface(vec![kw("NET", desc("Net"), Some(PromotionValue::Net))]).ok().unwrap();
    p.export_as("Power");
    p
}

/// What `using(Power())` promotes as.
fn power_instance(p: &InterfaceFactoryGen) -> PromotionValue {
    let data = p.interface_type_data.as_ref().unwrap();
    PromotionValue::InterfaceValue(Box::new(PromotionValue::Factory {
        type_data: Some((data.name.clone(), copy_map(&data.promotion_by_type))),
        promotion_by_type: copy_map(&p.promotion_by_type),
    }))
}

fn no_values(n: usize) -> Vec<Option<ValueDesc>> {
    (0..n).map(|_| None).collect()
}

fn name(s: &str) -> LangValue {
    LangValue { handle: 1, value_type: "string".to_string(), str_value: Some(s.to_string()) }
}

#[test]
fn interface_net_naming_behavior() {
    // A `Net` type field gets a fresh net named after the field.
    let p1 = declare_interface(vec![kw("vcc", desc("NetType"), None)]).ok().unwrap();
    let (_, plans) = p1.invoke_plan(None, &no_values(1)).ok().unwrap();
    assert_eq!(plans, vec![FieldPlan::FreshNet("VCC".to_string())]);

    // A net with an explicit name keeps it.
    let p2 = declare_interface(vec![kw("vcc", desc("Net"), None)]).ok().unwrap();
    let (_, plans) = p2.invoke_plan(None, &no_values(1)).ok().unwrap();
    assert_eq!(plans, vec![FieldPlan::CloneTemplate { prefix: None, field: Some("vcc".to_string()) }]);
    assert_eq!(template_net_name("MY_VCC", None, Some("vcc")), "MY_VCC");

    // A net without a name behaves as the net type.
    assert_eq!(template_net_name("", None, Some("vcc")), "VCC");

    // With an instance name prefix.
    let (inst, plans) = p1.invoke_plan(Some(&name("PWR")), &no_values(1)).ok().unwrap();
    assert_eq!(inst, Some("PWR".to_string()));
    assert_eq!(plans, vec![FieldPlan::FreshNet("PWR_VCC".to_string())]);

    // A net without a name under a prefix.
    let (_, plans) = p2.invoke_plan(Some(&name("PWR")), &no_values(1)).ok().unwrap();
    assert_eq!(
        plans,
        vec![FieldPlan::CloneTemplate { prefix: Some("PWR".to_string()), field: Some("vcc".to_string()) }]
    );
    assert_eq!(template_net_name("", Some("PWR"), Some("vcc")), "PWR_VCC");
    assert_eq!(template_net_name("N12", Some("PWR"), Some("vcc")), "PWR_VCC");
}

#[test]
fn interface_name_captured() {
    let mut p = declare_interface(vec![kw("vcc", desc("NetType"), None), kw("gnd", desc("NetType"), None)])
        .ok()
        .unwrap();
    assert!(p.interface_type_data.is_none());
    p.export_as("Power");
    assert_eq!(p.interface_type_data.as_ref().unwrap().name, "Power");
    p.export_as("Other");
    assert_eq!(p.interface_type_data.as_ref().unwrap().name, "Power");
}

#[test]
fn interface_dir_attr() {
    let p = declare_interface(vec![kw("vcc", desc("NetType"), None), kw("gnd", desc("NetType"), None)])
        .ok()
        .unwrap();
    let mut names: Vec<String> = p.fields().iter().map(|(n, _)| n.clone()).collect();
    names.sort();
    assert_eq!(names, vec!["gnd", "vcc"]);
    assert!(p.field("vcc").is_some());
    assert!(p.field("data").is_none());

    let system = declare_interface(vec![kw("power", factory_desc(), None), kw("data", desc("NetType"), None)])
        .ok()
        .unwrap();
    let mut names: Vec<String> = system.iter().iter().map(|(n, _)| n.clone()).collect();
    names.sort();
    assert_eq!(names, vec!["data", "power"]);
}

#[test]
fn using_function_basic() {
    let p = declare_interface(vec![
        kw("NET", desc("Net"), Some(PromotionValue::Net)),
        kw("voltage", desc("field"), None),
    ])
    .ok()
    .unwrap();
    assert_eq!(p.promotion_by_type().get("Net").unwrap(), "NET");
    let (_, plans) = p.invoke_plan(None, &no_values(2)).ok().unwrap();
    assert_eq!(
        plans,
        vec![FieldPlan::CloneTemplate { prefix: None, field: Some("NET".to_string()) }, FieldPlan::Default]
    );
    assert_eq!(template_net_name("VCC", None, Some("NET")), "VCC");
    assert!(check_using(&desc("Net")).is_ok());
    assert!(check_using(&desc("NetType")).is_ok());
}

#[test]
fn using_net_type_functionality() {
    let p = declare_interface(vec![kw("NET", desc("NetType"), Some(PromotionValue::NetType))]).ok().unwrap();
    let (_, plans) = p.invoke_plan(Some(&name("VCC")), &no_values(1)).ok().unwrap();
    assert_eq!(plans, vec![FieldPlan::FreshNet("VCC_NET".to_string())]);
    let (_, plans) = p.invoke_plan(None, &no_values(1)).ok().unwrap();
    assert_eq!(plans, vec![FieldPlan::FreshNet("NET".to_string())]);
}

#[test]
fn using_validation() {
    let e = check_using(&desc("string")).unwrap_err();
    assert!(e.contains("using() can only wrap Net or Interface types/instances"));
    assert_eq!(e, "using() can only wrap Net or Interface types/instances, got string");
}

#[test]
fn using_duplicate_promotion() {
    let e = declare_interface(vec![
        kw("net1", desc("Net"), Some(PromotionValue::Net)),
        kw("net2", desc("Net"), Some(PromotionValue::Net)),
    ])
    .err()
    .unwrap();
    assert!(e.contains("Interface has conflicting promotion paths"));
    assert_eq!(e, "Interface has conflicting promotion paths to type 'Net': 'net1' and 'net2'");
}

#[test]
fn using_transitive_conflict() {
    let p = power();
    let e = declare_interface(vec![
        kw("power", desc("InterfaceValue"), Some(power_instance(&p))),
        kw("direct_net", desc("Net"), Some(PromotionValue::Net)),
    ])
    .err()
    .unwrap();
    assert!(e.contains("conflicting promotion paths to type 'Net'"));
    assert_eq!(e, "Interface has conflicting promotion paths to type 'Net': 'power.NET' and 'direct_net'");
}

#[test]
fn using_chain_validation() {
    let p = power();
    let system = declare_interface(vec![
        kw("power", desc("InterfaceValue"), Some(power_instance(&p))),
        kw("backup", desc("InterfaceValue"), None),
    ])
    .ok()
    .unwrap();
    let promos = system.promotion_by_type();
    assert_eq!(promos.get("Power").unwrap(), "power");
    assert_eq!(promos.get("Net").unwrap(), "power.NET");
    assert_eq!(promos.len(), 2);
}

#[test]
fn interface_field_errors() {
    assert_eq!(
        declare_interface(vec![kw("name", desc("NetType"), None)]).err().unwrap(),
        "Field name 'name' is reserved (conflicts with implicit name parameter)"
    );
    assert_eq!(
        declare_interface(vec![kw("gain", desc("int"), None)]).err().unwrap(),
        "Interface field `gain` must be Net type, Net instance, Interface type, Interface instance, field() specification, or using() wrapped value, got `int`"
    );
    let anonymous = PromotionValue::Factory { type_data: None, promotion_by_type: StrMap::new() };
    assert_eq!(
        declare_interface(vec![kw("p", factory_desc(), Some(anonymous))]).err().unwrap(),
        "Anonymous interfaces are not allowed. All interfaces must be assigned to a variable (e.g., MyInterface = interface(...))"
    );
    let with_post = declare_interface(vec![
        kw("vcc", desc("NetType"), None),
        InterfaceKwarg { name: "__post_init__".to_string(), value: desc("function"), handle: 42, using: None },
    ])
    .ok()
    .unwrap();
    assert_eq!(with_post.post_init_fn, Some(42));
    assert_eq!(with_post.fields().len(), 1);
}

#[test]
fn instance_plans_and_provided_values() {
    let p = power();
    let data = declare_interface(vec![kw("power", factory_desc(), None), kw("sda", desc("NetType"), None)])
        .ok()
        .unwrap();
    let (_, plans) = data.invoke_plan(Some(&name("I2C")), &no_values(2)).ok().unwrap();
    assert_eq!(
        plans,
        vec![FieldPlan::Instantiate(Some("I2C_POWER".to_string())), FieldPlan::FreshNet("I2C_SDA".to_string())]
    );
    let provided = vec![None, Some(desc("Net"))];
    let (_, plans) = data.invoke_plan(None, &provided).ok().unwrap();
    assert_eq!(plans, vec![FieldPlan::Instantiate(None), FieldPlan::Provided]);
    let bad = LangValue { handle: 3, value_type: "int".to_string(), str_value: None };
    assert_eq!(data.invoke_plan(Some(&bad), &no_values(2)).err().unwrap(), "Interface name must be a string");
    assert!(p.field("NET").is_some());

    assert_eq!(instantiate_plan(&factory_desc(), Some("X")).ok().unwrap(), FieldPlan::Instantiate(Some("X".to_string())));
    assert_eq!(instantiate_plan(&desc("NetType"), Some("vdd")).ok().unwrap(), FieldPlan::FreshNet("VDD".to_string()));
    assert_eq!(instantiate_plan(&desc("NetType"), None).ok().unwrap(), FieldPlan::FreshNet("NET".to_string()));
    assert_eq!(instantiate_plan(&desc("InterfaceValue"), None).ok().unwrap(), FieldPlan::Copy);
    assert_eq!(
        instantiate_plan(&desc("int"), None).err().unwrap(),
        "internal error: expected spec to be InterfaceFactory/Net/InterfaceValue/NetType, got int"
    );
    assert_eq!(nested_field_plan(Some("A"), "vcc", &desc("NetType")), FieldPlan::FreshNet("A_VCC".to_string()));
    assert_eq!(nested_field_plan(None, "v", &desc("field")), FieldPlan::Default);
    assert_eq!(nested_field_plan(Some("A"), "sub", &factory_desc()), FieldPlan::Instantiate(Some("A_SUB".to_string())));
}

#[test]
fn net_names_and_promotions() {
    assert_eq!(to_ascii_uppercase("vCc_1é"), "VCC_1é");
    assert_eq!(prefixed_field("PWR", "gnd"), "PWR_GND");
    assert_eq!(field_net_name(Some("U1"), "sda"), "U1_SDA");
    assert_eq!(field_net_name(None, "sda"), "SDA");
    assert_eq!(net_type_instance_name(Some("vbus")), "VBUS");
    assert_eq!(net_type_instance_name(None), "NET");
    assert_eq!(template_net_name("N5", None, None), "NET");
    assert_eq!(template_net_name("GND", Some("U2"), None), "U2_GND");

    let p = power();
    let inst = power_instance(&p);
    assert_eq!(get_promotion_key(&inst).unwrap(), "Power");
    assert_eq!(get_promotion_key(&PromotionValue::NetType).unwrap(), "Net");
    assert_eq!(get_promotion_key(&PromotionValue::Other("Foo".to_string())).unwrap(), "Foo");
    let m = get_promotion_map(&inst);
    assert_eq!(m.get("Net").unwrap(), "NET");
    assert_eq!(m.get("Power").unwrap(), "");
    assert_eq!(get_promotion_map(&PromotionValue::Net).len(), 0);

    let paths = discover_promotion_paths(Some(&inst), "main").unwrap();
    assert_eq!(paths.get("Power").unwrap(), "main");
    assert_eq!(paths.get("Net").unwrap(), "main.NET");
    assert_eq!(discover_promotion_paths(None, "main").unwrap().len(), 0);

    assert_eq!(unwrap_using(MaybeUsing::Using(UsingGen { value: 5 })), 5);
    assert_eq!(unwrap_using(MaybeUsing::Plain(6)), 6);
}
