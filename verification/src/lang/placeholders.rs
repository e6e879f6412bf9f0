//! The placeholders a module declares with `io()` and `config()`: which value
//! a placeholder takes, what default its signature records, and how a type's
//! default value is made. Making the values themselves (nets, interface
//! instances, conversions) is the evaluator's work; these functions decide
//! which of them happens.
use vstd::prelude::*;

use crate::text::{concat, str_eq};

verus! {

/// What kind of type a placeholder is declared with, as far as placeholders
/// treat types differently: nets, interfaces, and everything else.
#[derive(Clone, Copy, Debug, PartialEq, Eq, Structural)]
pub enum PlaceholderKind {
    Net,
    Interface,
    Other,
}

/// The kind a runtime type name stands for.
pub open spec fn placeholder_kind_of(rt_type: Seq<char>) -> PlaceholderKind {
    if rt_type == "NetType"@ {
        PlaceholderKind::Net
    } else if rt_type == "InterfaceFactory"@ {
        PlaceholderKind::Interface
    } else {
        PlaceholderKind::Other
    }
}

impl PlaceholderKind {
    /// The kind of a type, by its runtime type name.
    pub fn of(rt_type: &str) -> (r: PlaceholderKind)
        ensures
            r == placeholder_kind_of(rt_type@),
    {
        if str_eq(rt_type, "NetType") {
            PlaceholderKind::Net
        } else if str_eq(rt_type, "InterfaceFactory") {
            PlaceholderKind::Interface
        } else {
            PlaceholderKind::Other
        }
    }
}

/// Where the default recorded in a module's signature comes from.
#[derive(Clone, Copy, Debug, PartialEq, Eq, Structural)]
pub enum DefaultSource {
    /// The default the declaration gives (checked against the type).
    Explicit,
    /// A net named after the placeholder, not registered.
    NamedNet,
    /// The interface instantiated with the placeholder's name.
    NamedInterface,
    /// The type's own default value.
    TypeDefault,
}

/// Which value an `io()` placeholder takes, and what default is recorded.
#[derive(Clone, Copy, Debug, PartialEq, Eq, Structural)]
pub enum IoPlan {
    /// The value the parent passed (checked, or converted to the enum type);
    /// the recorded default comes from the given source.
    Provided(DefaultSource),
    /// The declared default, checked against the type, is both value and default.
    Declared,
    /// A fresh net named after the placeholder, registered with the module
    /// when there is one, is both value and default.
    FreshNet,
    /// The interface instantiated with the placeholder's name is both value and default.
    FreshInterface,
    /// The value is `None`; the recorded default is the type's default.
    NoValue,
    /// The type's default is both value and default.
    TypeDefault,
    /// The input is missing: it is recorded, and the call fails.
    Missing,
}

/// The plan for `io(name, typ, default=, optional=)`.
pub open spec fn io_plan_spec(
    provided: bool,
    optional: Option<bool>,
    has_default: bool,
    strict: bool,
    kind: PlaceholderKind,
) -> IoPlan {
    if provided {
        IoPlan::Provided(
            if has_default {
                DefaultSource::Explicit
            } else {
                match kind {
                    PlaceholderKind::Net => DefaultSource::NamedNet,
                    PlaceholderKind::Interface => DefaultSource::NamedInterface,
                    PlaceholderKind::Other => DefaultSource::TypeDefault,
                }
            },
        )
    } else if optional == Some(true) {
        if has_default {
            IoPlan::Declared
        } else {
            match kind {
                PlaceholderKind::Net => IoPlan::FreshNet,
                PlaceholderKind::Interface => IoPlan::FreshInterface,
                PlaceholderKind::Other => IoPlan::NoValue,
            }
        }
    } else if strict {
        IoPlan::Missing
    } else if has_default {
        IoPlan::Declared
    } else {
        match kind {
            PlaceholderKind::Net => IoPlan::FreshNet,
            PlaceholderKind::Interface => IoPlan::FreshInterface,
            PlaceholderKind::Other => IoPlan::TypeDefault,
        }
    }
}

/// Decide how `io()` fills its placeholder: whether the parent `provided` a
/// value, whether the placeholder is `optional`, whether it declares a
/// default, whether missing inputs are errors (`strict`), and the kind of its type.
pub fn io_plan(provided: bool, optional: Option<bool>, has_default: bool, strict: bool, kind: PlaceholderKind) -> (r:
    IoPlan)
    ensures
        r == io_plan_spec(provided, optional, has_default, strict, kind),
{
    let is_optional = match optional {
        Some(b) => b,
        None => false,
    };
    if provided {
        let source = if has_default {
            DefaultSource::Explicit
        } else {
            match kind {
                PlaceholderKind::Net => DefaultSource::NamedNet,
                PlaceholderKind::Interface => DefaultSource::NamedInterface,
                PlaceholderKind::Other => DefaultSource::TypeDefault,
            }
        };
        IoPlan::Provided(source)
    } else if is_optional {
        if has_default {
            IoPlan::Declared
        } else {
            match kind {
                PlaceholderKind::Net => IoPlan::FreshNet,
                PlaceholderKind::Interface => IoPlan::FreshInterface,
                PlaceholderKind::Other => IoPlan::NoValue,
            }
        }
    } else if strict {
        IoPlan::Missing
    } else if has_default {
        IoPlan::Declared
    } else {
        match kind {
            PlaceholderKind::Net => IoPlan::FreshNet,
            PlaceholderKind::Interface => IoPlan::FreshInterface,
            PlaceholderKind::Other => IoPlan::TypeDefault,
        }
    }
}

/// Which value a `config()` placeholder takes. Every value taken goes
/// through the check against the type and, failing it, through conversion.
#[derive(Clone, Copy, Debug, PartialEq, Eq, Structural)]
pub enum ConfigPlan {
    /// The value the parent passed.
    Provided,
    /// The declared default.
    Declared,
    /// `None`, unchecked.
    NoValue,
    /// The type's default.
    TypeDefault,
    /// The input is missing: it is recorded, and the call fails.
    Missing,
}

/// The plan for `config(name, typ, default=, optional=)`.
pub open spec fn config_plan_spec(provided: bool, optional: Option<bool>, has_default: bool, strict: bool) -> ConfigPlan {
    if provided {
        ConfigPlan::Provided
    } else if optional == Some(true) {
        if has_default {
            ConfigPlan::Declared
        } else {
            ConfigPlan::NoValue
        }
    } else if strict && !has_default {
        ConfigPlan::Missing
    } else if has_default {
        ConfigPlan::Declared
    } else {
        ConfigPlan::TypeDefault
    }
}

/// Decide how `config()` fills its placeholder.
pub fn config_plan(provided: bool, optional: Option<bool>, has_default: bool, strict: bool) -> (r: ConfigPlan)
    ensures
        r == config_plan_spec(provided, optional, has_default, strict),
{
    let is_optional = match optional {
        Some(b) => b,
        None => false,
    };
    if provided {
        ConfigPlan::Provided
    } else if is_optional {
        if has_default {
            ConfigPlan::Declared
        } else {
            ConfigPlan::NoValue
        }
    } else if strict && !has_default {
        ConfigPlan::Missing
    } else if has_default {
        ConfigPlan::Declared
    } else {
        ConfigPlan::TypeDefault
    }
}

/// A placeholder type, as far as making its default value depends on it.
pub enum TypeShape {
    /// An enum type with this many variants.
    Enum(usize),
    /// A record type.
    Record,
    /// A type constructor, shown as this name (`str`, `int`, `float`, ...).
    Constructor(String),
    /// Any other value of this runtime type, and whether it can be called
    /// with no arguments.
    Value { rt_type: String, callable: bool },
}

/// How a type's default value is made.
#[derive(Debug, PartialEq, Eq)]
pub enum DefaultPlan {
    /// The enum's first variant.
    FirstVariant,
    /// The empty string.
    EmptyStr,
    /// The integer zero.
    ZeroInt,
    /// The float zero.
    ZeroFloat,
    /// Call the type with no arguments.
    CallNoArgs,
    /// A fresh unnamed net.
    FreshNet,
    /// Fail with this message.
    Fail(String),
}

/// The plan for a type's default, as plain values.
pub open spec fn default_plan_spec(t: TypeShape) -> Result<int, Seq<char>> {
    match t {
        TypeShape::Enum(n) => if n > 0 {
            Ok(0)
        } else {
            Err("EnumType provided to config/io() has no variants"@)
        },
        TypeShape::Record => Err("Record dependencies require a default value"@),
        TypeShape::Constructor(name) => if name@ == "str"@ {
            Ok(1)
        } else if name@ == "int"@ {
            Ok(2)
        } else if name@ == "float"@ {
            Ok(3)
        } else {
            Ok(4)
        },
        TypeShape::Value { rt_type, callable } => if callable {
            Ok(4)
        } else if rt_type@ == "NetType"@ {
            Ok(5)
        } else if rt_type@ == "InterfaceFactory"@ {
            Ok(4)
        } else {
            Err(
                "config/io() only accepts Net, Interface, Enum, Record, str, int, or float types, got "@
                    + rt_type@,
            )
        },
    }
}

/// A plan as plain values: which plan (by its place in the list of plans),
/// or the failure message.
pub open spec fn default_plan_view(p: DefaultPlan) -> Result<int, Seq<char>> {
    match p {
        DefaultPlan::FirstVariant => Ok(0),
        DefaultPlan::EmptyStr => Ok(1),
        DefaultPlan::ZeroInt => Ok(2),
        DefaultPlan::ZeroFloat => Ok(3),
        DefaultPlan::CallNoArgs => Ok(4),
        DefaultPlan::FreshNet => Ok(5),
        DefaultPlan::Fail(m) => Err(m@),
    }
}

/// Decide how the default value of a placeholder's type is made: an enum's
/// first variant, the zero of `str`, `int` and `float`, a call of a
/// constructor that takes no arguments, a fresh net; records and other types
/// have none. A type constructor is called (`Constructor` names other than
/// `str`, `int`, `float`).
pub fn default_plan(t: &TypeShape) -> (r: DefaultPlan)
    ensures
        default_plan_view(r) == default_plan_spec(*t),
{
    match t {
        TypeShape::Enum(n) => {
            if *n > 0 {
                DefaultPlan::FirstVariant
            } else {
                DefaultPlan::Fail("EnumType provided to config/io() has no variants".to_owned())
            }
        },
        TypeShape::Record => DefaultPlan::Fail("Record dependencies require a default value".to_owned()),
        TypeShape::Constructor(name) => {
            if str_eq(name.as_str(), "str") {
                DefaultPlan::EmptyStr
            } else if str_eq(name.as_str(), "int") {
                DefaultPlan::ZeroInt
            } else if str_eq(name.as_str(), "float") {
                DefaultPlan::ZeroFloat
            } else {
                DefaultPlan::CallNoArgs
            }
        },
        TypeShape::Value { rt_type, callable } => {
            if *callable {
                DefaultPlan::CallNoArgs
            } else if str_eq(rt_type.as_str(), "NetType") {
                DefaultPlan::FreshNet
            } else if str_eq(rt_type.as_str(), "InterfaceFactory") {
                DefaultPlan::CallNoArgs
            } else {
                DefaultPlan::Fail(
                    concat(
                        "config/io() only accepts Net, Interface, Enum, Record, str, int, or float types, got ",
                        rt_type.as_str(),
                    ),
                )
            }
        },
    }
}

/// What a value is, as far as placeholder types check it.
#[derive(Clone, Copy, Debug, PartialEq, Eq, Structural)]
pub enum ValueKind {
    Net,
    Interface,
    Enum,
    Str,
    Int,
    Float,
    Other,
}

/// Whether a value of kind `v` fits a placeholder whose type has the runtime
/// type name `t` (types that are not type constructors).
pub open spec fn kind_accepts(t: Seq<char>, v: ValueKind) -> bool {
    if t == "NetType"@ {
        v == ValueKind::Net
    } else if t == "InterfaceFactory"@ {
        v == ValueKind::Interface
    } else if t == "EnumType"@ {
        v == ValueKind::Enum
    } else if t == "str"@ || t == "string"@ || t == "String"@ {
        v == ValueKind::Str
    } else if t == "int"@ || t == "Int"@ {
        v == ValueKind::Int
    } else if t == "float"@ || t == "Float"@ {
        v == ValueKind::Float
    } else {
        false
    }
}

/// Check a value against a placeholder type that is not a type constructor:
/// the error names the input, the type and the value as shown.
pub fn check_kind(name: &str, rt_type: &str, shown_type: &str, value: ValueKind, shown_value: &str) -> (r: Result<
    (),
    String,
>)
    ensures
        match r {
            Ok(_) => kind_accepts(rt_type@, value),
            Err(m) => !kind_accepts(rt_type@, value) && m@ == "Input '"@ + name@
                + "' has wrong type for this placeholder: expected "@ + shown_type@ + ", got "@ + shown_value@,
        },
{
    let ok = if str_eq(rt_type, "NetType") {
        value == ValueKind::Net
    } else if str_eq(rt_type, "InterfaceFactory") {
        value == ValueKind::Interface
    } else if str_eq(rt_type, "EnumType") {
        value == ValueKind::Enum
    } else if str_eq(rt_type, "str") || str_eq(rt_type, "string") || str_eq(rt_type, "String") {
        value == ValueKind::Str
    } else if str_eq(rt_type, "int") || str_eq(rt_type, "Int") {
        value == ValueKind::Int
    } else if str_eq(rt_type, "float") || str_eq(rt_type, "Float") {
        value == ValueKind::Float
    } else {
        false
    };
    if ok {
        Ok(())
    } else {
        let mut m = concat("Input '", name);
        m.append("' has wrong type for this placeholder: expected ");
        m.append(shown_type);
        m.append(", got ");
        m.append(shown_value);
        Err(m)
    }
}

/// The error for a value that a type constructor's check refused.
pub fn constructor_mismatch(name: &str, shown_type: &str, shown_value: &str) -> (r: String)
    ensures
        r@ == "Input '"@ + name@ + "' (type) has wrong type for this placeholder: expected "@ + shown_type@
            + ", got "@ + shown_value@,
{
    let mut m = concat("Input '", name);
    m.append("' (type) has wrong type for this placeholder: expected ");
    m.append(shown_type);
    m.append(", got ");
    m.append(shown_value);
    m
}

/// What `validate_or_convert` tries next for a value that failed the check.
#[derive(Clone, Copy, Debug, PartialEq, Eq, Structural)]
pub enum ConvertStep {
    /// Call the declared converter, then check its result.
    CallConverter,
    /// Make a float of the integer, then check it.
    IntToFloat,
    /// Call the enum type with the value, then check the result.
    EnumConversion,
    /// Report the check's failure.
    Fail,
}

/// The conversion tried for a value that failed the check, given whether a
/// converter was declared, the type as shown, whether the value is an
/// integer, whether the type is an enum type, and whether the value already
/// is an enum value.
pub open spec fn convert_step_spec(
    has_converter: bool,
    shown_type: Seq<char>,
    value_is_int: bool,
    type_is_enum: bool,
    value_is_enum: bool,
) -> ConvertStep {
    if has_converter {
        ConvertStep::CallConverter
    } else if (shown_type == "float"@ || shown_type == "Float"@) && value_is_int {
        ConvertStep::IntToFloat
    } else if type_is_enum && !value_is_enum {
        ConvertStep::EnumConversion
    } else {
        ConvertStep::Fail
    }
}

/// Decide the conversion for a value that failed the check. After
/// `IntToFloat` fails its check, the caller goes on as this says for a value
/// that is not an integer.
pub fn convert_step(
    has_converter: bool,
    shown_type: &str,
    value_is_int: bool,
    type_is_enum: bool,
    value_is_enum: bool,
) -> (r: ConvertStep)
    ensures
        r == convert_step_spec(has_converter, shown_type@, value_is_int, type_is_enum, value_is_enum),
{
    if has_converter {
        ConvertStep::CallConverter
    } else if (str_eq(shown_type, "float") || str_eq(shown_type, "Float")) && value_is_int {
        ConvertStep::IntToFloat
    } else if type_is_enum && !value_is_enum {
        ConvertStep::EnumConversion
    } else {
        ConvertStep::Fail
    }
}

} // verus!
