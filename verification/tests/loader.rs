use pcb_core::lang::component::LangValue;
use pcb_core::lang::loader::{build_module_loader_from_path, stem_of_path, LoaderArg, ModuleLoader, Severity};
use pcb_core::lang::placeholders::{
    check_kind, config_plan, constructor_mismatch, convert_step, default_plan, io_plan, ConfigPlan, ConvertStep,
    DefaultPlan, DefaultSource, IoPlan, PlaceholderKind, TypeShape, ValueKind,
};

fn text(handle: u64, s: &str) -> LangValue {
    LangValue { handle, value_type: "string".to_string(), str_value: Some(s.to_string()) }
}

fn opaque(handle: u64, t: &str) -> LangValue {
    LangValue { handle, value_type: t.to_string(), str_value: None }
}

fn arg(name: &str, value: LangValue) -> LoaderArg {
    LoaderArg { name: name.to_string(), value, dict_entries: None }
}

fn loader(name: &str) -> ModuleLoader {
    build_module_loader_from_path(&format!("boards/{name}.zen"), None)
}

#[test]
fn loader_from_path_and_signature() {
    let sig = vec![
        ("vcc".to_string(), "NetType".to_string()),
        ("gain".to_string(), "int".to_string()),
        ("vcc".to_string(), "InterfaceFactory".to_string()),
    ];
    let l = build_module_loader_from_path("/work/boards/Amp.zen", Some(&sig));
    assert_eq!(l.name, "Amp");
    assert_eq!(l.source_path, "/work/boards/Amp.zen");
    assert_eq!(l.params, vec!["gain", "name", "properties", "vcc"]);
    assert_eq!(l.param_types.get("vcc").unwrap(), "InterfaceFactory");
    assert_eq!(l.param_types.len(), 2);

    let bare = build_module_loader_from_path("lib/Divider.zen", None);
    assert_eq!(bare.params, vec!["name", "properties"]);
    assert_eq!(bare.param_types.len(), 0);
}

#[test]
fn stems_of_paths() {
    assert_eq!(stem_of_path("boards/board.zen"), "board");
    assert_eq!(stem_of_path("archive.tar.gz"), "archive.tar");
    assert_eq!(stem_of_path(".hidden"), ".hidden");
    assert_eq!(stem_of_path("dir/noext"), "noext");
    assert_eq!(stem_of_path("dir/"), "dir");
}

#[test]
fn loader_arguments_sort_out() {
    assert_eq!(
        ModuleLoader::sort_arguments(1, &vec![]).err().unwrap(),
        "ModuleLoader only supports named arguments"
    );
    let props = LoaderArg {
        name: "properties".to_string(),
        value: opaque(9, "dict"),
        dict_entries: Some(vec![(text(1, "mpn"), text(2, "X1")), (text(3, "mpn"), text(4, "X2"))]),
    };
    let call = ModuleLoader::sort_arguments(
        0,
        &vec![arg("vcc", opaque(5, "Net")), arg("name", text(6, "U1")), props, arg("gain", opaque(7, "int"))],
    )
    .ok()
    .unwrap();
    assert_eq!(call.name, Some("U1".to_string()));
    let inputs: Vec<&str> = call.inputs.iter().map(|(n, _)| n.as_str()).collect();
    assert_eq!(inputs, vec!["vcc", "gain"]);
    assert_eq!(call.inputs[0].1.handle, 5);
    let m = call.properties.unwrap();
    assert_eq!(m.len(), 1);
    assert_eq!(m.get("mpn").unwrap().handle, 4);

    assert_eq!(
        ModuleLoader::sort_arguments(0, &vec![arg("name", opaque(1, "int"))]).err().unwrap(),
        "name parameter must be a string"
    );
    assert_eq!(
        ModuleLoader::sort_arguments(0, &vec![arg("properties", opaque(1, "list"))]).err().unwrap(),
        "properties parameter must be a dict"
    );
    let bad_key = LoaderArg {
        name: "properties".to_string(),
        value: opaque(1, "dict"),
        dict_entries: Some(vec![(opaque(2, "int"), text(3, "x"))]),
    };
    assert_eq!(ModuleLoader::sort_arguments(0, &vec![bad_key]).err().unwrap(), "property keys must be strings");
}

#[test]
fn loader_names_and_reports() {
    let l = loader("Led");
    let (n, warn) = l.instance_name(Some("D1".to_string()));
    assert_eq!(n, "D1");
    assert!(warn.is_none());
    let (n, warn) = l.instance_name(None);
    assert_eq!(n, "Led");
    assert_eq!(warn.unwrap(), "Missing required argument `name` when instantiating module Led");

    assert!(ModuleLoader::exported_attr_allowed("value"));
    assert!(!ModuleLoader::exported_attr_allowed("__private"));

    assert_eq!(l.wrap_child_diagnostic(Severity::Error), (Severity::Error, "Error instantiating `Led`".to_string()));
    assert_eq!(l.wrap_child_diagnostic(Severity::Warning).1, "Warning from `Led`");
    assert_eq!(l.wrap_child_diagnostic(Severity::Advice).1, "Issue in `Led`");

    let provided = vec!["vcc".to_string(), "colour".to_string(), "size".to_string()];
    let used = vec!["vcc".to_string()];
    assert_eq!(
        l.after_eval(&provided, Some(&used), false, true).unwrap(),
        "Unknown argument(s) provided to module Led: colour, size"
    );
    assert_eq!(l.after_eval(&used, Some(&used), false, true), None);
    assert_eq!(l.after_eval(&provided, None, false, true).unwrap(), "Failed to instantiate module Led");
    assert_eq!(l.after_eval(&provided, None, true, true), None);
    assert_eq!(l.after_eval(&provided, None, false, false), None);
}

#[test]
fn placeholder_plans() {
    assert_eq!(PlaceholderKind::of("NetType"), PlaceholderKind::Net);
    assert_eq!(PlaceholderKind::of("InterfaceFactory"), PlaceholderKind::Interface);
    assert_eq!(PlaceholderKind::of("int"), PlaceholderKind::Other);

    assert_eq!(io_plan(true, None, false, true, PlaceholderKind::Net), IoPlan::Provided(DefaultSource::NamedNet));
    assert_eq!(io_plan(true, None, true, true, PlaceholderKind::Net), IoPlan::Provided(DefaultSource::Explicit));
    assert_eq!(io_plan(false, Some(true), false, true, PlaceholderKind::Other), IoPlan::NoValue);
    assert_eq!(io_plan(false, Some(true), false, true, PlaceholderKind::Interface), IoPlan::FreshInterface);
    assert_eq!(io_plan(false, None, true, true, PlaceholderKind::Net), IoPlan::Missing);
    assert_eq!(io_plan(false, None, true, false, PlaceholderKind::Net), IoPlan::Declared);
    assert_eq!(io_plan(false, Some(false), false, false, PlaceholderKind::Other), IoPlan::TypeDefault);

    assert_eq!(config_plan(true, None, false, true), ConfigPlan::Provided);
    assert_eq!(config_plan(false, None, false, true), ConfigPlan::Missing);
    assert_eq!(config_plan(false, None, true, true), ConfigPlan::Declared);
    assert_eq!(config_plan(false, Some(true), false, true), ConfigPlan::NoValue);
    assert_eq!(config_plan(false, None, false, false), ConfigPlan::TypeDefault);
}

#[test]
fn placeholder_defaults_and_checks() {
    assert_eq!(default_plan(&TypeShape::Enum(3)), DefaultPlan::FirstVariant);
    assert_eq!(
        default_plan(&TypeShape::Enum(0)),
        DefaultPlan::Fail("EnumType provided to config/io() has no variants".to_string())
    );
    assert_eq!(
        default_plan(&TypeShape::Record),
        DefaultPlan::Fail("Record dependencies require a default value".to_string())
    );
    assert_eq!(default_plan(&TypeShape::Constructor("float".to_string())), DefaultPlan::ZeroFloat);
    assert_eq!(default_plan(&TypeShape::Constructor("Vec".to_string())), DefaultPlan::CallNoArgs);
    assert_eq!(
        default_plan(&TypeShape::Value { rt_type: "NetType".to_string(), callable: false }),
        DefaultPlan::FreshNet
    );
    assert_eq!(
        default_plan(&TypeShape::Value { rt_type: "list".to_string(), callable: false }),
        DefaultPlan::Fail(
            "config/io() only accepts Net, Interface, Enum, Record, str, int, or float types, got list".to_string()
        )
    );

    assert!(check_kind("vcc", "NetType", "Net", ValueKind::Net, "Net(VCC)").is_ok());
    assert_eq!(
        check_kind("gain", "int", "int", ValueKind::Str, "\"x\"").unwrap_err(),
        "Input 'gain' has wrong type for this placeholder: expected int, got \"x\""
    );
    assert_eq!(
        constructor_mismatch("t", "float", "list"),
        "Input 't' (type) has wrong type for this placeholder: expected float, got list"
    );
    assert_eq!(convert_step(true, "int", true, false, false), ConvertStep::CallConverter);
    assert_eq!(convert_step(false, "float", true, false, false), ConvertStep::IntToFloat);
    assert_eq!(convert_step(false, "Mode", false, true, false), ConvertStep::EnumConversion);
    assert_eq!(convert_step(false, "Mode", false, true, true), ConvertStep::Fail);
}
