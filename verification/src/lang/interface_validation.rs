//! Type validation for interface fields: which values a field accepts, and the
//! message given when a value does not fit.
use vstd::prelude::*;

use crate::text::{concat, str_eq};

verus! {

/// What the field rules read of a language value: its type name, whether it is
/// an interface factory, and its promotion key (the interface's type name) when
/// it has one.
#[derive(Debug, Clone)]
pub struct ValueDesc {
    pub value_type: String,
    pub is_interface_factory: bool,
    pub promotion_key: Option<String>,
}

impl ValueDesc {
    /// A copy of the description.
    pub fn clone_desc(&self) -> (r: ValueDesc)
        ensures
            r.value_type@ == self.value_type@,
            r.is_interface_factory == self.is_interface_factory,
            crate::text::opt_str(r.promotion_key) == crate::text::opt_str(self.promotion_key),
    {
        ValueDesc {
            value_type: self.value_type.clone(),
            is_interface_factory: self.is_interface_factory,
            promotion_key: match &self.promotion_key {
                Some(k) => Some(k.clone()),
                None => None,
            },
        }
    }
}

/// Categorization of values for interface field type checking.
#[derive(Debug, Copy, Clone, PartialEq, Eq, Structural)]
pub enum FieldKind {
    /// Concrete Net instance
    Net,
    /// The NetType sentinel (Net type without instance)
    NetType,
    /// Interface factory (can create interface instances)
    InterfaceFactory,
    /// Interface instance (created from a factory)
    InterfaceValue,
}

/// The kind of a value with the given type name.
pub open spec fn kind_of(value_type: Seq<char>, is_factory: bool) -> FieldKind {
    if value_type == "Net"@ {
        FieldKind::Net
    } else if value_type == "NetType"@ {
        FieldKind::NetType
    } else if value_type == "InterfaceValue"@ {
        FieldKind::InterfaceValue
    } else if is_factory {
        FieldKind::InterfaceFactory
    } else {
        FieldKind::Net
    }
}

/// A value of kind `provided` fits a field whose specification has kind `spec`.
pub open spec fn kind_fits(provided: FieldKind, spec: FieldKind) -> bool {
    match (spec, provided) {
        (FieldKind::NetType, FieldKind::Net) | (FieldKind::Net, FieldKind::Net) => true,
        (FieldKind::InterfaceFactory, FieldKind::InterfaceValue) | (
            FieldKind::InterfaceValue,
            FieldKind::InterfaceValue,
        ) => true,
        _ => false,
    }
}

/// The name of a value's type as error messages give it.
pub open spec fn name_for_error(v: ValueDesc) -> Seq<char> {
    let t = v.value_type@;
    if t == "Net"@ || t == "NetType"@ {
        "Net"@
    } else if t == "InterfaceValue"@ || v.is_interface_factory {
        match v.promotion_key {
            Some(k) => k@,
            None => "Interface"@,
        }
    } else {
        t
    }
}

impl FieldKind {
    /// Categorize a value into a field kind.
    pub fn of(v: &ValueDesc) -> (k: FieldKind)
        ensures
            k == kind_of(v.value_type@, v.is_interface_factory),
    {
        let t = v.value_type.as_str();
        if str_eq(t, "Net") {
            FieldKind::Net
        } else if str_eq(t, "NetType") {
            FieldKind::NetType
        } else if str_eq(t, "InterfaceValue") {
            FieldKind::InterfaceValue
        } else if v.is_interface_factory {
            FieldKind::InterfaceFactory
        } else {
            FieldKind::Net
        }
    }

    /// Check if a value of `self` type satisfies a field whose specification is `spec`.
    pub fn matches(self, spec: FieldKind) -> (b: bool)
        ensures
            b == kind_fits(self, spec),
    {
        match (spec, self) {
            (FieldKind::NetType, FieldKind::Net) | (FieldKind::Net, FieldKind::Net) => true,
            (FieldKind::InterfaceFactory, FieldKind::InterfaceValue) | (
                FieldKind::InterfaceValue,
                FieldKind::InterfaceValue,
            ) => true,
            _ => false,
        }
    }
}

/// Get a user-friendly type name for error messages: interface values and
/// factories give their interface's type name.
pub fn get_type_name_for_error(value: &ValueDesc) -> (r: String)
    ensures
        r@ == name_for_error(*value),
{
    let t = value.value_type.as_str();
    if str_eq(t, "Net") || str_eq(t, "NetType") {
        "Net".to_owned()
    } else if str_eq(t, "InterfaceValue") || value.is_interface_factory {
        match &value.promotion_key {
            Some(k) => k.clone(),
            None => "Interface".to_owned(),
        }
    } else {
        value.value_type.clone()
    }
}

/// The message for a value that does not fit a field.
pub open spec fn field_mismatch_text(field: Seq<char>, expected: Seq<char>, got: Seq<char>) -> Seq<char> {
    "Interface field '"@ + field + "' expects "@ + expected + ", got "@ + got
}

/// Check that a provided value is compatible with an interface field specification.
pub fn ensure_field_compat(spec_val: &ValueDesc, provided_val: &ValueDesc, field_name: &str) -> (r: Result<
    (),
    String,
>)
    ensures
        kind_fits(
            kind_of(provided_val.value_type@, provided_val.is_interface_factory),
            kind_of(spec_val.value_type@, spec_val.is_interface_factory),
        ) ==> r is Ok,
        !kind_fits(
            kind_of(provided_val.value_type@, provided_val.is_interface_factory),
            kind_of(spec_val.value_type@, spec_val.is_interface_factory),
        ) ==> (r matches Err(m) && m@ == field_mismatch_text(
            field_name@,
            name_for_error(*spec_val),
            name_for_error(*provided_val),
        )),
{
    let spec_kind = FieldKind::of(spec_val);
    let provided_kind = FieldKind::of(provided_val);
    if provided_kind.matches(spec_kind) {
        Ok(())
    } else {
        let expected_name = get_type_name_for_error(spec_val);
        let provided_name = get_type_name_for_error(provided_val);
        let mut m = concat("Interface field '", field_name);
        m.append("' expects ");
        m.append(expected_name.as_str());
        m.append(", got ");
        m.append(provided_name.as_str());
        proof {
            assert(m@ =~= field_mismatch_text(field_name@, expected_name@, provided_name@));
        }
        Err(m)
    }
}

} // verus!
