//! Interfaces: groups of nets and nested interfaces declared with
//! `interface(...)`. This module holds their rules: which fields a
//! declaration may have, how `using()` fields make an interface promotable to
//! other types, and how the nets of an instance are named.
use vstd::prelude::*;

use super::component::LangValue;
use super::interface_validation::{ensure_field_compat, field_mismatch_text, kind_fits, kind_of, name_for_error, ValueDesc};
use crate::strmap::StrMap;
use crate::text::{concat, str_eq, strs};

verus! {

/// A character in ASCII upper case.
pub open spec fn ascii_upper(c: char) -> char {
    if 'a' <= c && c <= 'z' {
        ((c as u32) - 32) as char
    } else {
        c
    }
}

/// A string in ASCII upper case (`str::to_ascii_uppercase`).
pub open spec fn upper(s: Seq<char>) -> Seq<char> {
    s.map_values(|c: char| ascii_upper(c))
}

fn upper_char(c: char) -> (r: char)
    ensures
        r == ascii_upper(c),
        'a' <= c <= 'z' ==> 'A' <= r <= 'Z',
{
    if c == 'a' { 'A' } else if c == 'b' { 'B' } else if c == 'c' { 'C' } else if c == 'd' { 'D' } else if c
        == 'e' { 'E' } else if c == 'f' { 'F' } else if c == 'g' { 'G' } else if c == 'h' { 'H' } else if c
        == 'i' { 'I' } else if c == 'j' { 'J' } else if c == 'k' { 'K' } else if c == 'l' { 'L' } else if c
        == 'm' { 'M' } else if c == 'n' { 'N' } else if c == 'o' { 'O' } else if c == 'p' { 'P' } else if c
        == 'q' { 'Q' } else if c == 'r' { 'R' } else if c == 's' { 'S' } else if c == 't' { 'T' } else if c
        == 'u' { 'U' } else if c == 'v' { 'V' } else if c == 'w' { 'W' } else if c == 'x' { 'X' } else if c
        == 'y' { 'Y' } else if c == 'z' { 'Z' } else { c }
}

/// The one-character string of `c`.
fn char_string(c: char) -> (r: String)
    requires
        'A' <= c <= 'Z',
    ensures
        r@ == seq![c],
{
    let mut s = String::new();
    let t = if c == 'A' { "A" } else if c == 'B' { "B" } else if c == 'C' { "C" } else if c == 'D' { "D" } else if c
        == 'E' { "E" } else if c == 'F' { "F" } else if c == 'G' { "G" } else if c == 'H' { "H" } else if c == 'I' {
        "I"
    } else if c == 'J' { "J" } else if c == 'K' { "K" } else if c == 'L' { "L" } else if c == 'M' { "M" } else if c
        == 'N' { "N" } else if c == 'O' { "O" } else if c == 'P' { "P" } else if c == 'Q' { "Q" } else if c == 'R' {
        "R"
    } else if c == 'S' { "S" } else if c == 'T' { "T" } else if c == 'U' { "U" } else if c == 'V' { "V" } else if c
        == 'W' { "W" } else if c == 'X' { "X" } else if c == 'Y' { "Y" } else { "Z" };
    proof {
        reveal_strlit("A");
        reveal_strlit("B");
        reveal_strlit("C");
        reveal_strlit("D");
        reveal_strlit("E");
        reveal_strlit("F");
        reveal_strlit("G");
        reveal_strlit("H");
        reveal_strlit("I");
        reveal_strlit("J");
        reveal_strlit("K");
        reveal_strlit("L");
        reveal_strlit("M");
        reveal_strlit("N");
        reveal_strlit("O");
        reveal_strlit("P");
        reveal_strlit("Q");
        reveal_strlit("R");
        reveal_strlit("S");
        reveal_strlit("T");
        reveal_strlit("U");
        reveal_strlit("V");
        reveal_strlit("W");
        reveal_strlit("X");
        reveal_strlit("Y");
        reveal_strlit("Z");
    }
    s.append(t);
    s
}

/// A string in ASCII upper case.
pub fn to_ascii_uppercase(s: &str) -> (r: String)
    ensures
        r@ == upper(s@),
{
    let n = s.unicode_len();
    let mut out = String::new();
    let mut start: usize = 0;
    let mut i: usize = 0;
    while i < n
        invariant
            n == s@.len(),
            start <= i <= n,
            out@ == upper(s@.take(start as int)),
            forall|k: int| start <= k < i ==> !('a' <= #[trigger] s@[k] && s@[k] <= 'z'),
        decreases n - i,
    {
        let c = s.get_char(i);
        if 'a' <= c && c <= 'z' {
            let plain = s.substring_char(start, i);
            out.append(plain);
            let u = char_string(upper_char(c));
            out.append(u.as_str());
            proof {
                assert(upper(s@.take(i + 1)) =~= upper(s@.take(start as int)) + s@.subrange(start as int, i as int)
                    + seq![ascii_upper(c)]) by {
                    assert forall|k: int| start <= k < i implies ascii_upper(s@[k]) == s@[k] by {}
                }
            }
            start = i + 1;
        }
        i = i + 1;
    }
    let rest = s.substring_char(start, n);
    out.append(rest);
    proof {
        assert(upper(s@) =~= upper(s@.take(start as int)) + s@.subrange(start as int, n as int)) by {
            assert forall|k: int| start <= k < n implies ascii_upper(s@[k]) == s@[k] by {}
        }
    }
    out
}

/// A net name that stands for no name: `N` followed only by digits.
pub open spec fn is_placeholder_name(s: Seq<char>) -> bool {
    s.len() >= 1 && s[0] == 'N' && forall|k: int| 1 <= k < s.len() ==> '0' <= #[trigger] s[k] && s[k] <= '9'
}

/// `prefix_FIELD`: a field's name under a prefix.
pub open spec fn prefixed(prefix: Seq<char>, field: Seq<char>) -> Seq<char> {
    prefix + "_"@ + upper(field)
}

/// The name of a net copied from a template net for an instance: the
/// template's own name (under the prefix, when there is one), unless it has
/// none or a placeholder one; then the field's name under the prefix, the
/// prefix alone, the field's name, or `NET`.
pub open spec fn clone_net_name(template: Seq<char>, prefix: Option<Seq<char>>, field: Option<Seq<char>>) -> Seq<
    char,
> {
    if template.len() > 0 && !is_placeholder_name(template) {
        match prefix {
            Some(p) => p + "_"@ + template,
            None => template,
        }
    } else {
        match (prefix, field) {
            (Some(p), Some(f)) => prefixed(p, f),
            (Some(p), None) => p,
            (None, Some(f)) => upper(f),
            (None, None) => "NET"@,
        }
    }
}

fn placeholder_name(s: &str) -> (r: bool)
    ensures
        r == is_placeholder_name(s@),
{
    let n = s.unicode_len();
    if n == 0 || s.get_char(0) != 'N' {
        return false;
    }
    let mut i: usize = 1;
    while i < n
        invariant
            n == s@.len(),
            1 <= i <= n,
            forall|k: int| 1 <= k < i ==> '0' <= #[trigger] s@[k] && s@[k] <= '9',
        decreases n - i,
    {
        let c = s.get_char(i);
        if !('0' <= c && c <= '9') {
            return false;
        }
        i = i + 1;
    }
    true
}

/// The name for a net copied from a template net (of name `template`) for the
/// field `field` of an instance named `prefix`.
pub fn template_net_name(template: &str, prefix: Option<&str>, field: Option<&str>) -> (r: String)
    ensures
        r@ == clone_net_name(
            template@,
            match prefix {
                Some(p) => Some(p@),
                None => None,
            },
            match field {
                Some(f) => Some(f@),
                None => None,
            },
        ),
{
    if template.unicode_len() > 0 && !placeholder_name(template) {
        match prefix {
            Some(p) => {
                let mut r = concat(p, "_");
                r.append(template);
                r
            },
            None => template.to_owned(),
        }
    } else {
        match (prefix, field) {
            (Some(p), Some(f)) => prefixed_field(p, f),
            (Some(p), None) => p.to_owned(),
            (None, Some(f)) => to_ascii_uppercase(f),
            (None, None) => "NET".to_owned(),
        }
    }
}

/// `prefix_FIELD`.
pub fn prefixed_field(prefix: &str, field: &str) -> (r: String)
    ensures
        r@ == prefixed(prefix@, field@),
{
    let mut r = concat(prefix, "_");
    r.append(to_ascii_uppercase(field).as_str());
    r
}

/// The name of a fresh net for a `Net`-typed field: the field's name under
/// the instance's name, or the field's name alone.
pub fn field_net_name(instance: Option<&str>, field: &str) -> (r: String)
    ensures
        r@ == match instance {
            Some(p) => prefixed(p@, field@),
            None => upper(field@),
        },
{
    match instance {
        Some(p) => prefixed_field(p, field),
        None => to_ascii_uppercase(field),
    }
}

/// The name of a fresh net that stands for a whole `Net`-typed interface
/// value: the prefix in upper case, or `NET`.
pub fn net_type_instance_name(prefix: Option<&str>) -> (r: String)
    ensures
        r@ == match prefix {
            Some(p) => upper(p@),
            None => "NET"@,
        },
{
    match prefix {
        Some(p) => to_ascii_uppercase(p),
        None => "NET".to_owned(),
    }
}

/// What an interface type knows once it is named: its name, and the types it
/// can be promoted to with the path of the field that gives each (its own
/// name with the empty path).
#[derive(Debug)]
pub struct InterfaceTypeData {
    pub name: String,
    pub promotion_by_type: StrMap<String>,
}

/// An interface type: its fields (each a type, a template or a `field()`),
/// the function run after an instance is made, the promotions its `using()`
/// fields give, and its name data once it is assigned to a variable.
#[derive(Debug)]
pub struct InterfaceFactoryGen {
    pub interface_type_data: Option<InterfaceTypeData>,
    pub fields: Vec<(String, ValueDesc)>,
    pub post_init_fn: Option<u64>,
    pub promotion_by_type: StrMap<String>,
}

/// An interface instance: its field values and the interface type it came from.
#[derive(Debug)]
pub struct InterfaceValueGen<V> {
    pub fields: Vec<(String, V)>,
    pub factory: V,
}

impl<V> InterfaceValueGen<V> {
    pub fn fields(&self) -> (r: &Vec<(String, V)>)
        ensures
            r == &self.fields,
    {
        &self.fields
    }

    pub fn factory(&self) -> (r: &V)
        ensures
            r == &self.factory,
    {
        &self.factory
    }
}

/// A value as promotion sees it: a net, the net type, an interface instance
/// (by its type), an interface type, or any other value (by its type name).
pub enum PromotionValue {
    Net,
    NetType,
    InterfaceValue(Box<PromotionValue>),
    Factory { type_data: Option<(String, StrMap<String>)>, promotion_by_type: StrMap<String> },
    Other(String),
}

/// The message for an interface type that was never given a name.
pub open spec fn anonymous_msg() -> Seq<char> {
    "Anonymous interfaces are not allowed. All interfaces must be assigned to a variable (e.g., MyInterface = interface(...))"@
}

/// The type a value is promoted as.
pub open spec fn promotion_key(v: PromotionValue) -> Result<Seq<char>, Seq<char>>
    decreases v,
{
    match v {
        PromotionValue::Net => Ok("Net"@),
        PromotionValue::NetType => Ok("Net"@),
        PromotionValue::InterfaceValue(f) => promotion_key(*f),
        PromotionValue::Factory { type_data, .. } => match type_data {
            Some((name, _)) => Ok(name@),
            None => Err(anonymous_msg()),
        },
        PromotionValue::Other(t) => Ok(t@),
    }
}

/// The promotions a value offers, as a map from type to field path.
pub open spec fn promotion_map(v: PromotionValue) -> Map<Seq<char>, Seq<char>>
    decreases v,
{
    match v {
        PromotionValue::Factory { type_data, promotion_by_type } => match type_data {
            Some((_, m)) => m@,
            None => promotion_by_type@,
        },
        PromotionValue::InterfaceValue(f) => promotion_map(*f),
        _ => Map::empty(),
    }
}

/// The promotions a value offers, as entries in their order.
pub open spec fn promotion_entries(v: PromotionValue) -> Seq<(Seq<char>, Seq<char>)>
    decreases v,
{
    match v {
        PromotionValue::Factory { type_data, promotion_by_type } => match type_data {
            Some((_, m)) => m.entries_view(),
            None => promotion_by_type.entries_view(),
        },
        PromotionValue::InterfaceValue(f) => promotion_entries(*f),
        _ => Seq::empty(),
    }
}

/// The well-formedness of a value's maps.
pub open spec fn promotion_wf(v: PromotionValue) -> bool
    decreases v,
{
    match v {
        PromotionValue::Factory { type_data, promotion_by_type } => promotion_by_type.wf() && match type_data {
            Some((_, m)) => m.wf(),
            None => true,
        },
        PromotionValue::InterfaceValue(f) => promotion_wf(*f),
        _ => true,
    }
}

/// The type a value is promoted as: `Net` for nets, an interface's name for
/// its types and instances, the type name of anything else.
pub fn get_promotion_key(value: &PromotionValue) -> (r: Result<String, String>)
    ensures
        match promotion_key(*value) {
            Ok(k) => r matches Ok(x) && x@ == k,
            Err(m) => r matches Err(x) && x@ == m,
        },
    decreases value,
{
    match value {
        PromotionValue::Net => Ok("Net".to_owned()),
        PromotionValue::NetType => Ok("Net".to_owned()),
        PromotionValue::InterfaceValue(f) => get_promotion_key(f),
        PromotionValue::Factory { type_data, .. } => match type_data {
            Some((name, _)) => Ok(name.clone()),
            None => Err(
                "Anonymous interfaces are not allowed. All interfaces must be assigned to a variable (e.g., MyInterface = interface(...))".to_owned(),
            ),
        },
        PromotionValue::Other(t) => Ok(t.clone()),
    }
}

fn copy_string_map(m: &StrMap<String>) -> (r: StrMap<String>)
    requires
        m.wf(),
    ensures
        r.wf(),
        r@ == m@,
        r.entries_view() == m.entries_view(),
{
    let r = super::component::copy_str_map(m);
    proof {
        r.lemma_same_entries(m);
    }
    r
}

/// The promotions a value offers: those of an interface type (its named
/// data's when it has been named), of an instance's type, none otherwise.
pub fn get_promotion_map(value: &PromotionValue) -> (r: StrMap<String>)
    requires
        promotion_wf(*value),
    ensures
        r.wf(),
        r@ == promotion_map(*value),
        r.entries_view() == promotion_entries(*value),
    decreases value,
{
    match value {
        PromotionValue::Factory { type_data, promotion_by_type } => match type_data {
            Some((_, m)) => copy_string_map(m),
            None => copy_string_map(promotion_by_type),
        },
        PromotionValue::InterfaceValue(f) => get_promotion_map(f),
        _ => StrMap::new(),
    }
}

/// A field path under another: `current.nested`, or `current` for the empty path.
pub open spec fn joined_path(current: Seq<char>, nested: Seq<char>) -> Seq<char> {
    if nested.len() == 0 {
        current
    } else {
        current + "."@ + nested
    }
}

/// The entries of promotion paths after inserting each nested one, in order.
pub open spec fn nested_paths(
    acc: Seq<(Seq<char>, Seq<char>)>,
    current: Seq<char>,
    nested: Seq<(Seq<char>, Seq<char>)>,
) -> Seq<(Seq<char>, Seq<char>)>
    decreases nested.len(),
{
    if nested.len() == 0 {
        acc
    } else {
        crate::strmap::assoc_insert(
            nested_paths(acc, current, nested.drop_last()),
            nested.last().0,
            joined_path(current, nested.last().1),
        )
    }
}

/// The promotion paths a field gives: none unless it is wrapped in `using()`;
/// then its value's type, reached by the field's path, and each promotion the
/// value offers, reached through the field.
pub open spec fn field_promotions(using: Option<PromotionValue>, current: Seq<char>) -> Result<
    Seq<(Seq<char>, Seq<char>)>,
    Seq<char>,
> {
    match using {
        None => Ok(Seq::empty()),
        Some(inner) => match promotion_key(inner) {
            Err(m) => Err(m),
            Ok(k) => Ok(nested_paths(seq![(k, current)], current, promotion_entries(inner))),
        },
    }
}

/// The promotion paths of a field whose value is `using` when it is wrapped
/// in `using()`, the field's path being `current_path`.
pub fn discover_promotion_paths(using: Option<&PromotionValue>, current_path: &str) -> (r: Result<
    StrMap<String>,
    String,
>)
    requires
        using matches Some(v) ==> promotion_wf(*v),
    ensures
        match field_promotions(
            match using {
                Some(v) => Some(*v),
                None => None,
            },
            current_path@,
        ) {
            Ok(es) => r matches Ok(m) && m.wf() && m.entries_view() == es,
            Err(e) => r matches Err(x) && x@ == e,
        },
{
    let mut paths: StrMap<String> = StrMap::new();
    let inner = match using {
        Some(v) => v,
        None => {
            return Ok(paths);
        },
    };
    let key = get_promotion_key(inner)?;
    paths.insert(key, current_path.to_owned());
    proof {
        assert(paths.entries_view() =~= seq![(key@, current_path@)]);
    }
    let nested = get_promotion_map(inner);
    let es = nested.entries();
    let ghost nv = nested.entries_view();
    let mut i: usize = 0;
    proof {
        assert(nv.take(0) =~= Seq::<(Seq<char>, Seq<char>)>::empty());
    }
    while i < es.len()
        invariant
            nested.wf(),
            nv == nested.entries_view(),
            es@.len() == nv.len(),
            forall|j: int| 0 <= j < es@.len() ==> (#[trigger] es@[j].0@, es@[j].1@) == nv[j],
            i <= es@.len(),
            paths.wf(),
            paths.entries_view() == nested_paths(seq![(key@, current_path@)], current_path@, nv.take(i as int)),
        decreases es@.len() - i,
    {
        proof {
            assert(nv.take(i + 1).drop_last() =~= nv.take(i as int));
            assert(nv.take(i + 1).last() == nv[i as int]);
            assert((es@[i as int].0@, es@[i as int].1@) == nv[i as int]);
        }
        let (ty, p) = (&es[i].0, &es[i].1);
        let full = if p.as_str().unicode_len() == 0 {
            current_path.to_owned()
        } else {
            let mut f = concat(current_path, ".");
            f.append(p.as_str());
            f
        };
        paths.insert(ty.clone(), full);
        i = i + 1;
    }
    proof {
        assert(nv.take(es@.len() as int) =~= nv);
    }
    Ok(paths)
}

/// What a `using()` wrapper holds.
#[derive(Debug)]
pub struct UsingGen<V> {
    pub value: V,
}

/// A value, or a value wrapped in `using()`.
pub enum MaybeUsing<V> {
    Using(UsingGen<V>),
    Plain(V),
}

/// The value inside a `using()` wrapper, or the value itself.
pub fn unwrap_using<V>(value: MaybeUsing<V>) -> (r: V)
    ensures
        r == match value {
            MaybeUsing::Using(u) => u.value,
            MaybeUsing::Plain(v) => v,
        },
{
    match value {
        MaybeUsing::Using(u) => u.value,
        MaybeUsing::Plain(v) => v,
    }
}

/// Whether `using()` may wrap a value of this type (the value is an
/// interface type when `is_factory`).
pub open spec fn using_allowed(value_type: Seq<char>, is_factory: bool) -> bool {
    value_type == "Net"@ || value_type == "NetType"@ || value_type == "InterfaceValue"@ || is_factory
}

/// Check what `using()` wraps: nets, the net type, interface types and
/// instances.
pub fn check_using(value: &ValueDesc) -> (r: Result<(), String>)
    ensures
        match r {
            Ok(_) => using_allowed(value.value_type@, value.is_interface_factory),
            Err(m) => !using_allowed(value.value_type@, value.is_interface_factory) && m@
                == "using() can only wrap Net or Interface types/instances, got "@ + value.value_type@,
        },
{
    let t = value.value_type.as_str();
    if str_eq(t, "Net") || str_eq(t, "NetType") || str_eq(t, "InterfaceValue") || value.is_interface_factory {
        Ok(())
    } else {
        Err(concat("using() can only wrap Net or Interface types/instances, got ", t))
    }
}

/// An argument of `interface(...)`: the field's name, its value (unwrapped
/// from `using()`), a handle on that value, and the promotion view of the
/// value when it was wrapped in `using()`.
pub struct InterfaceKwarg {
    pub name: String,
    pub value: ValueDesc,
    pub handle: u64,
    pub using: Option<PromotionValue>,
}

/// The first promotion among `fp` whose type the entries `m` already reach:
/// the type, the path `m` has for it, and the new path.
pub open spec fn first_conflict(fp: Seq<(Seq<char>, Seq<char>)>, m: Seq<(Seq<char>, Seq<char>)>) -> Option<
    (Seq<char>, Seq<char>, Seq<char>),
>
    decreases fp.len(),
{
    if fp.len() == 0 {
        None
    } else {
        match crate::strmap::key_index(m, fp[0].0) {
            Some(i) => Some((fp[0].0, m[i].1, fp[0].1)),
            None => first_conflict(fp.drop_first(), m),
        }
    }
}

/// Entries inserted one by one.
pub open spec fn insert_all(acc: Seq<(Seq<char>, Seq<char>)>, fp: Seq<(Seq<char>, Seq<char>)>) -> Seq<
    (Seq<char>, Seq<char>),
>
    decreases fp.len(),
{
    if fp.len() == 0 {
        acc
    } else {
        crate::strmap::assoc_insert(insert_all(acc, fp.drop_last()), fp.last().0, fp.last().1)
    }
}

/// The value types an interface field may hold (interface types too).
pub open spec fn field_type_allowed(value_type: Seq<char>, is_factory: bool) -> bool {
    value_type == "NetType"@ || value_type == "Net"@ || value_type == "InterfaceValue"@ || value_type
        == "field"@ || is_factory
}

/// The message for a field of a type an interface cannot hold.
pub open spec fn bad_field_msg(name: Seq<char>, value_type: Seq<char>) -> Seq<char> {
    "Interface field `"@ + name
        + "` must be Net type, Net instance, Interface type, Interface instance, field() specification, or using() wrapped value, got `"@
        + value_type + "`"@
}

/// The message for two fields that promote to one type.
pub open spec fn conflict_msg(t: Seq<char>, existing: Seq<char>, p: Seq<char>) -> Seq<char> {
    "Interface has conflicting promotion paths to type '"@ + t + "': '"@ + existing + "' and '"@ + p + "'"@
}

/// What `interface(...)` builds from its arguments, one by one: the fields
/// (name and type name), the `__post_init__` handle, and the promotion paths;
/// or the first problem.
pub open spec fn interface_outcome(kwargs: Seq<InterfaceKwarg>) -> Result<
    (Seq<(Seq<char>, Seq<char>)>, Option<u64>, Seq<(Seq<char>, Seq<char>)>),
    Seq<char>,
>
    decreases kwargs.len(),
{
    if kwargs.len() == 0 {
        Ok((Seq::empty(), None, Seq::empty()))
    } else {
        match interface_outcome(kwargs.drop_last()) {
            Err(m) => Err(m),
            Ok((fields, post, paths)) => {
                let k = kwargs.last();
                if k.name@ == "__post_init__"@ {
                    Ok((fields, Some(k.handle), paths))
                } else if k.name@ == "name"@ {
                    Err("Field name 'name' is reserved (conflicts with implicit name parameter)"@)
                } else {
                    match field_promotions(k.using, k.name@) {
                        Err(m) => Err(m),
                        Ok(fp) => {
                            match first_conflict(fp, paths) {
                                Some((t, e, p)) => Err(conflict_msg(t, e, p)),
                                None => if field_type_allowed(k.value.value_type@, k.value.is_interface_factory) {
                                    Ok((fields.push((k.name@, k.value.value_type@)), post, insert_all(paths, fp)))
                                } else {
                                    Err(bad_field_msg(k.name@, k.value.value_type@))
                                },
                            }
                        },
                    }
                }
            },
        }
    }
}

proof fn lemma_interface_err(kwargs: Seq<InterfaceKwarg>, i: int)
    requires
        0 <= i < kwargs.len(),
        interface_outcome(kwargs.take(i + 1)) is Err,
    ensures
        interface_outcome(kwargs) == interface_outcome(kwargs.take(i + 1)),
    decreases kwargs.len() - i,
{
    if i + 1 < kwargs.len() {
        assert(kwargs.take(i + 2).drop_last() =~= kwargs.take(i + 1));
        lemma_interface_err(kwargs, i + 1);
    } else {
        assert(kwargs.take(i + 1) =~= kwargs);
    }
}

/// The first conflict between new promotions and the paths so far.
fn find_conflict(fp: &StrMap<String>, paths: &StrMap<String>) -> (r: Option<(String, String, String)>)
    requires
        fp.wf(),
        paths.wf(),
    ensures
        match first_conflict(fp.entries_view(), paths.entries_view()) {
            Some((t, e, p)) => r matches Some(x) && x.0@ == t && x.1@ == e && x.2@ == p,
            None => r is None,
        },
{
    let es = fp.entries();
    let ghost fv = fp.entries_view();
    let mut i: usize = 0;
    proof {
        assert(fv.skip(0) =~= fv);
    }
    while i < es.len()
        invariant
            fp.wf(),
            paths.wf(),
            fv == fp.entries_view(),
            es@.len() == fv.len(),
            forall|j: int| 0 <= j < es@.len() ==> (#[trigger] es@[j].0@, es@[j].1@) == fv[j],
            i <= es@.len(),
            first_conflict(fv, paths.entries_view()) == first_conflict(fv.skip(i as int), paths.entries_view()),
        decreases es@.len() - i,
    {
        proof {
            assert(fv.skip(i as int).drop_first() =~= fv.skip(i + 1));
            assert(fv.skip(i as int)[0] == fv[i as int]);
            assert((es@[i as int].0@, es@[i as int].1@) == fv[i as int]);
            paths.lemma_view_key_index(es@[i as int].0@);
        }
        match paths.get(es[i].0.as_str()) {
            Some(existing) => {
                return Some((es[i].0.clone(), existing.clone(), es[i].1.clone()));
            },
            None => {},
        }
        i = i + 1;
    }
    None
}

/// Insert every entry of `fp` into `paths`, in order.
fn insert_entries(paths: &mut StrMap<String>, fp: &StrMap<String>)
    requires
        old(paths).wf(),
        fp.wf(),
    ensures
        final(paths).wf(),
        final(paths).entries_view() == insert_all(old(paths).entries_view(), fp.entries_view()),
{
    let es = fp.entries();
    let ghost fv = fp.entries_view();
    let ghost start = paths.entries_view();
    let mut i: usize = 0;
    proof {
        assert(fv.take(0) =~= Seq::<(Seq<char>, Seq<char>)>::empty());
    }
    while i < es.len()
        invariant
            fp.wf(),
            fv == fp.entries_view(),
            es@.len() == fv.len(),
            forall|j: int| 0 <= j < es@.len() ==> (#[trigger] es@[j].0@, es@[j].1@) == fv[j],
            i <= es@.len(),
            paths.wf(),
            paths.entries_view() == insert_all(start, fv.take(i as int)),
        decreases es@.len() - i,
    {
        proof {
            assert(fv.take(i + 1).drop_last() =~= fv.take(i as int));
            assert(fv.take(i + 1).last() == fv[i as int]);
            assert((es@[i as int].0@, es@[i as int].1@) == fv[i as int]);
        }
        paths.insert(es[i].0.clone(), es[i].1.clone());
        i = i + 1;
    }
    proof {
        assert(fv.take(es@.len() as int) =~= fv);
    }
}

/// The view of a declared interface: its fields (name and type name), its
/// `__post_init__` handle and its promotion paths.
pub open spec fn declared_view(f: InterfaceFactoryGen) -> (
    Seq<(Seq<char>, Seq<char>)>,
    Option<u64>,
    Seq<(Seq<char>, Seq<char>)>,
) {
    (
        f.fields@.map_values(|e: (String, ValueDesc)| (e.0@, e.1.value_type@)),
        f.post_init_fn,
        f.promotion_by_type.entries_view(),
    )
}

/// `interface(...)`: declare an interface type from its fields. A field may
/// hold the net type, a net (as a template), an interface type or instance,
/// or a `field()`; `__post_init__` names a function run on each new
/// instance; `name` is reserved. Fields wrapped in `using()` make the
/// interface promotable to their types, and two fields may not promote to
/// one type.
pub fn declare_interface(kwargs: Vec<InterfaceKwarg>) -> (r: Result<InterfaceFactoryGen, String>)
    requires
        forall|i: int| 0 <= i < kwargs@.len() ==> ((#[trigger] kwargs@[i]).using matches Some(v) ==> promotion_wf(v)),
    ensures
        match interface_outcome(kwargs@) {
            Ok(v) => r matches Ok(f) && declared_view(f) == v && f.interface_type_data is None
                && f.promotion_by_type.wf(),
            Err(m) => r matches Err(x) && x@ == m,
        },
{
    let mut fields: Vec<(String, ValueDesc)> = Vec::new();
    let mut post: Option<u64> = None;
    let mut paths: StrMap<String> = StrMap::new();
    let mut i: usize = 0;
    proof {
        assert(kwargs@.take(0) =~= Seq::<InterfaceKwarg>::empty());
        assert(fields@.map_values(|e: (String, ValueDesc)| (e.0@, e.1.value_type@)) =~= Seq::empty());
    }
    while i < kwargs.len()
        invariant
            i <= kwargs@.len(),
            forall|j: int| 0 <= j < kwargs@.len() ==> ((#[trigger] kwargs@[j]).using matches Some(v) ==> promotion_wf(v)),
            paths.wf(),
            interface_outcome(kwargs@.take(i as int)) == Ok::<_, Seq<char>>(
                (fields@.map_values(|e: (String, ValueDesc)| (e.0@, e.1.value_type@)), post, paths.entries_view()),
            ),
        decreases kwargs@.len() - i,
    {
        proof {
            assert(kwargs@.take(i + 1).drop_last() =~= kwargs@.take(i as int));
            assert(kwargs@.take(i + 1).last() == kwargs@[i as int]);
        }
        let k = &kwargs[i];
        if str_eq(k.name.as_str(), "__post_init__") {
            post = Some(k.handle);
        } else if str_eq(k.name.as_str(), "name") {
            proof {
                lemma_interface_err(kwargs@, i as int);
            }
            return Err("Field name 'name' is reserved (conflicts with implicit name parameter)".to_owned());
        } else {
            let using = match &k.using {
                Some(v) => Some(v),
                None => None,
            };
            let fp = match discover_promotion_paths(using, k.name.as_str()) {
                Ok(fp) => fp,
                Err(e) => {
                    proof {
                        lemma_interface_err(kwargs@, i as int);
                    }
                    return Err(e);
                },
            };
            match find_conflict(&fp, &paths) {
                Some((t, e, p)) => {
                    proof {
                        lemma_interface_err(kwargs@, i as int);
                    }
                    let mut m = concat("Interface has conflicting promotion paths to type '", t.as_str());
                    m.append("': '");
                    m.append(e.as_str());
                    m.append("' and '");
                    m.append(p.as_str());
                    m.append("'");
                    return Err(m);
                },
                None => {},
            }
            let t = k.value.value_type.as_str();
            if !(str_eq(t, "NetType") || str_eq(t, "Net") || str_eq(t, "InterfaceValue") || str_eq(t, "field")
                || k.value.is_interface_factory) {
                proof {
                    lemma_interface_err(kwargs@, i as int);
                }
                let mut m = concat("Interface field `", k.name.as_str());
                m.append(
                    "` must be Net type, Net instance, Interface type, Interface instance, field() specification, or using() wrapped value, got `",
                );
                m.append(t);
                m.append("`");
                return Err(m);
            }
            insert_entries(&mut paths, &fp);
            let ghost before = fields@;
            fields.push((k.name.clone(), k.value.clone_desc()));
            proof {
                assert(fields@.map_values(|e: (String, ValueDesc)| (e.0@, e.1.value_type@)) =~= before.map_values(
                    |e: (String, ValueDesc)| (e.0@, e.1.value_type@),
                ).push((k.name@, k.value.value_type@)));
            }
        }
        i = i + 1;
    }
    proof {
        assert(kwargs@.take(kwargs@.len() as int) =~= kwargs@);
    }
    Ok(InterfaceFactoryGen { interface_type_data: None, fields, post_init_fn: post, promotion_by_type: paths })
}

impl InterfaceFactoryGen {
    /// Name the interface type after the variable it is assigned to, the
    /// first time only: its promotions then include its own name, with the
    /// empty path.
    pub fn export_as(&mut self, variable_name: &str)
        requires
            old(self).promotion_by_type.wf(),
        ensures
            final(self).fields == old(self).fields,
            final(self).post_init_fn == old(self).post_init_fn,
            final(self).promotion_by_type == old(self).promotion_by_type,
            old(self).interface_type_data is Some ==> final(self).interface_type_data == old(
                self,
            ).interface_type_data,
            old(self).interface_type_data is None ==> (final(self).interface_type_data matches Some(d) && d.name@
                == variable_name@ && d.promotion_by_type.wf() && d.promotion_by_type@ == old(
                self,
            ).promotion_by_type@.insert(variable_name@, Seq::empty())),
    {
        if self.interface_type_data.is_none() {
            let mut promos = copy_string_map(&self.promotion_by_type);
            promos.insert(variable_name.to_owned(), String::new());
            self.interface_type_data = Some(
                InterfaceTypeData { name: variable_name.to_owned(), promotion_by_type: promos },
            );
        }
    }

    /// The fields, in declaration order.
    pub fn fields(&self) -> (r: &Vec<(String, ValueDesc)>)
        ensures
            r == &self.fields,
    {
        &self.fields
    }

    /// The fields, in declaration order, as name and specification.
    pub fn iter(&self) -> (r: &Vec<(String, ValueDesc)>)
        ensures
            r == &self.fields,
    {
        &self.fields
    }

    /// The field of the given name.
    pub fn field(&self, name: &str) -> (r: Option<&ValueDesc>)
        ensures
            match r {
                Some(d) => exists|i: int|
                    0 <= i < self.fields@.len() && self.fields@[i].0@ == name@ && self.fields@[i].1 == *d,
                None => forall|i: int| 0 <= i < self.fields@.len() ==> self.fields@[i].0@ != name@,
            },
    {
        let mut i: usize = 0;
        while i < self.fields.len()
            invariant
                i <= self.fields@.len(),
                forall|k: int| 0 <= k < i ==> self.fields@[k].0@ != name@,
            decreases self.fields@.len() - i,
        {
            if str_eq(self.fields[i].0.as_str(), name) {
                return Some(&self.fields[i].1);
            }
            i = i + 1;
        }
        None
    }

    /// The promotions the interface's `using()` fields give.
    pub fn promotion_by_type(&self) -> (r: &StrMap<String>)
        ensures
            r == &self.promotion_by_type,
    {
        &self.promotion_by_type
    }
}

/// How one field of a new instance gets its value.
#[derive(Debug, PartialEq, Eq)]
pub enum FieldPlan {
    /// The value the caller passed.
    Provided,
    /// The default of the field's `field()` specification.
    Default,
    /// A fresh net of this name, registered with the module when there is one.
    FreshNet(String),
    /// A copy of the field's template net, named by `template_net_name`
    /// from the template's name, this prefix and this field.
    CloneTemplate { prefix: Option<String>, field: Option<String> },
    /// An instance of the field's interface type (or a copy of its interface
    /// instance) made with this prefix.
    Instantiate(Option<String>),
    /// A copy of an interface instance.
    Copy,
}

/// A plan as plain values.
pub enum FieldPlanView {
    Provided,
    Default,
    FreshNet(Seq<char>),
    CloneTemplate(Option<Seq<char>>, Option<Seq<char>>),
    Instantiate(Option<Seq<char>>),
    Copy,
}

pub open spec fn plan_view(p: FieldPlan) -> FieldPlanView {
    match p {
        FieldPlan::Provided => FieldPlanView::Provided,
        FieldPlan::Default => FieldPlanView::Default,
        FieldPlan::FreshNet(n) => FieldPlanView::FreshNet(n@),
        FieldPlan::CloneTemplate { prefix, field } => FieldPlanView::CloneTemplate(
            crate::text::opt_str(prefix),
            crate::text::opt_str(field),
        ),
        FieldPlan::Instantiate(p) => FieldPlanView::Instantiate(crate::text::opt_str(p)),
        FieldPlan::Copy => FieldPlanView::Copy,
    }
}

/// The plan for a field `fname` (specified by `spec`) of an instance named
/// `instance` when the caller passed nothing for it.
pub open spec fn default_field_plan(instance: Option<Seq<char>>, fname: Seq<char>, spec: ValueDesc) -> FieldPlanView {
    let t = spec.value_type@;
    if t == "field"@ {
        FieldPlanView::Default
    } else if t == "NetType"@ {
        FieldPlanView::FreshNet(
            match instance {
                Some(p) => prefixed(p, fname),
                None => upper(fname),
            },
        )
    } else if t == "Net"@ {
        FieldPlanView::CloneTemplate(instance, Some(fname))
    } else {
        FieldPlanView::Instantiate(
            match instance {
                Some(p) => Some(prefixed(p, fname)),
                None => None,
            },
        )
    }
}

/// The plans for the fields of a new instance, from field `from` on, or the
/// first field whose passed value does not fit.
pub open spec fn invoke_plans(
    instance: Option<Seq<char>>,
    fields: Seq<(String, ValueDesc)>,
    provided: Seq<Option<ValueDesc>>,
) -> Result<Seq<FieldPlanView>, Seq<char>>
    decreases fields.len(),
{
    if fields.len() == 0 || provided.len() != fields.len() {
        Ok(Seq::empty())
    } else {
        match invoke_plans(instance, fields.drop_last(), provided.drop_last()) {
            Err(m) => Err(m),
            Ok(ps) => {
                let (fname, spec) = fields.last();
                match provided.last() {
                    Some(v) => if kind_fits(
                        kind_of(v.value_type@, v.is_interface_factory),
                        kind_of(spec.value_type@, spec.is_interface_factory),
                    ) {
                        Ok(ps.push(FieldPlanView::Provided))
                    } else {
                        Err(field_mismatch_text(fname@, name_for_error(spec), name_for_error(v)))
                    },
                    None => Ok(ps.push(default_field_plan(instance, fname@, spec))),
                }
            },
        }
    }
}

proof fn lemma_invoke_plans_err(
    instance: Option<Seq<char>>,
    fields: Seq<(String, ValueDesc)>,
    provided: Seq<Option<ValueDesc>>,
    i: int,
)
    requires
        fields.len() == provided.len(),
        0 <= i < fields.len(),
        invoke_plans(instance, fields.take(i + 1), provided.take(i + 1)) is Err,
    ensures
        invoke_plans(instance, fields, provided) == invoke_plans(instance, fields.take(i + 1), provided.take(i + 1)),
    decreases fields.len() - i,
{
    if i + 1 < fields.len() {
        assert(fields.take(i + 2).drop_last() =~= fields.take(i + 1));
        assert(provided.take(i + 2).drop_last() =~= provided.take(i + 1));
        lemma_invoke_plans_err(instance, fields, provided, i + 1);
    } else {
        assert(fields.take(i + 1) =~= fields);
        assert(provided.take(i + 1) =~= provided);
    }
}

impl InterfaceFactoryGen {
    /// Calling the interface type: the instance's name (the `name` argument,
    /// which must be a string) and how each field gets its value, in order. A
    /// value the caller passed must fit its field; other fields get their
    /// `field()` default, a fresh net `INSTANCE_FIELD` (or `FIELD`), a copy of
    /// their template net, or a nested instance prefixed `INSTANCE_FIELD`.
    pub fn invoke_plan(&self, name_arg: Option<&LangValue>, provided: &Vec<Option<ValueDesc>>) -> (r: Result<
        (Option<String>, Vec<FieldPlan>),
        String,
    >)
        requires
            provided@.len() == self.fields@.len(),
        ensures
            match name_arg {
                Some(v) if v.str_value is None => r matches Err(m) && m@ == "Interface name must be a string"@,
                _ => {
                    let instance = match name_arg {
                        Some(v) => Some(v.str_value->0@),
                        None => None,
                    };
                    match invoke_plans(instance, self.fields@, provided@) {
                        Ok(ps) => r matches Ok(x) && crate::text::opt_str(x.0) == instance && x.1@.map_values(
                            |p: FieldPlan| plan_view(p),
                        ) == ps,
                        Err(m) => r matches Err(x) && x@ == m,
                    }
                },
            },
    {
        let instance: Option<String> = match name_arg {
            Some(v) => match &v.str_value {
                Some(s) => Some(s.clone()),
                None => {
                    return Err("Interface name must be a string".to_owned());
                },
            },
            None => None,
        };
        let ghost inst = crate::text::opt_str(instance);
        let mut plans: Vec<FieldPlan> = Vec::new();
        let mut i: usize = 0;
        proof {
            assert(self.fields@.take(0) =~= Seq::<(String, ValueDesc)>::empty());
            assert(provided@.take(0) =~= Seq::<Option<ValueDesc>>::empty());
            assert(plans@.map_values(|p: FieldPlan| plan_view(p)) =~= Seq::<FieldPlanView>::empty());
        }
        while i < self.fields.len()
            invariant
                i <= self.fields@.len(),
                provided@.len() == self.fields@.len(),
                inst == crate::text::opt_str(instance),
                name_arg matches Some(v) ==> v.str_value is Some,
                inst == match name_arg {
                    Some(v) => Some(v.str_value->0@),
                    None => None,
                },
                invoke_plans(inst, self.fields@.take(i as int), provided@.take(i as int)) == Ok::<
                    Seq<FieldPlanView>,
                    Seq<char>,
                >(plans@.map_values(|p: FieldPlan| plan_view(p))),
            decreases self.fields@.len() - i,
        {
            proof {
                assert(self.fields@.take(i + 1).drop_last() =~= self.fields@.take(i as int));
                assert(provided@.take(i + 1).drop_last() =~= provided@.take(i as int));
                assert(self.fields@.take(i + 1).last() == self.fields@[i as int]);
                assert(provided@.take(i + 1).last() == provided@[i as int]);
            }
            let fname = &self.fields[i].0;
            let spec = &self.fields[i].1;
            let plan = match &provided[i] {
                Some(v) => {
                    match ensure_field_compat(spec, v, fname.as_str()) {
                        Ok(_) => FieldPlan::Provided,
                        Err(e) => {
                            proof {
                                lemma_invoke_plans_err(inst, self.fields@, provided@, i as int);
                            }
                            return Err(e);
                        },
                    }
                },
                None => {
                    let t = spec.value_type.as_str();
                    if str_eq(t, "field") {
                        FieldPlan::Default
                    } else if str_eq(t, "NetType") {
                        let n = match &instance {
                            Some(p) => field_net_name(Some(p.as_str()), fname.as_str()),
                            None => field_net_name(None, fname.as_str()),
                        };
                        FieldPlan::FreshNet(n)
                    } else if str_eq(t, "Net") {
                        FieldPlan::CloneTemplate {
                            prefix: match &instance {
                                Some(p) => Some(p.clone()),
                                None => None,
                            },
                            field: Some(fname.clone()),
                        }
                    } else {
                        FieldPlan::Instantiate(
                            match &instance {
                                Some(p) => Some(prefixed_field(p.as_str(), fname.as_str())),
                                None => None,
                            },
                        )
                    }
                },
            };
            let ghost before = plans@;
            plans.push(plan);
            proof {
                assert(plans@.map_values(|p: FieldPlan| plan_view(p)) =~= before.map_values(
                    |p: FieldPlan| plan_view(p),
                ).push(plan_view(plans@.last())));
            }
            i = i + 1;
        }
        proof {
            assert(self.fields@.take(self.fields@.len() as int) =~= self.fields@);
            assert(provided@.take(provided@.len() as int) =~= provided@);
        }
        Ok((instance, plans))
    }
}

/// How a nested interface value is made from its specification `spec`
/// under `prefix`: an interface type's instance (its fields planned by
/// `nested_field_plan`), a fresh net for the net type, a copy of a template
/// net, a copy of an instance; anything else is an internal error.
pub fn instantiate_plan(spec: &ValueDesc, prefix: Option<&str>) -> (r: Result<FieldPlan, String>)
    ensures
        ({
            let t = spec.value_type@;
            let pv = match prefix {
                Some(p) => Some(p@),
                None => None,
            };
            if spec.is_interface_factory {
                r matches Ok(p) && plan_view(p) == FieldPlanView::Instantiate(pv)
            } else if t == "NetType"@ {
                r matches Ok(p) && plan_view(p) == FieldPlanView::FreshNet(
                    match prefix {
                        Some(p) => upper(p@),
                        None => "NET"@,
                    },
                )
            } else if t == "Net"@ {
                r matches Ok(p) && plan_view(p) == FieldPlanView::CloneTemplate(pv, None)
            } else if t == "InterfaceValue"@ {
                r matches Ok(p) && plan_view(p) == FieldPlanView::Copy
            } else {
                r matches Err(m) && m@
                    == "internal error: expected spec to be InterfaceFactory/Net/InterfaceValue/NetType, got "@ + t
            }
        }),
{
    let t = spec.value_type.as_str();
    let owned = match prefix {
        Some(p) => Some(p.to_owned()),
        None => None,
    };
    if spec.is_interface_factory {
        Ok(FieldPlan::Instantiate(owned))
    } else if str_eq(t, "NetType") {
        Ok(FieldPlan::FreshNet(net_type_instance_name(prefix)))
    } else if str_eq(t, "Net") {
        Ok(FieldPlan::CloneTemplate { prefix: owned, field: None })
    } else if str_eq(t, "InterfaceValue") {
        Ok(FieldPlan::Copy)
    } else {
        Err(
            concat(
                "internal error: expected spec to be InterfaceFactory/Net/InterfaceValue/NetType, got ",
                t,
            ),
        )
    }
}

/// How a field `fname` of a nested instance made under `prefix` gets its
/// value: its `field()` default, a fresh net `PREFIX_FIELD` (or `FIELD`), or
/// a nested value made under `PREFIX_FIELD` when the field is an interface
/// type and under `prefix` otherwise.
pub fn nested_field_plan(prefix: Option<&str>, fname: &str, spec: &ValueDesc) -> (r: FieldPlan)
    ensures
        plan_view(r) == ({
            let t = spec.value_type@;
            let next = match prefix {
                Some(p) => prefixed(p@, fname@),
                None => upper(fname@),
            };
            if t == "field"@ {
                FieldPlanView::Default
            } else if t == "NetType"@ {
                FieldPlanView::FreshNet(next)
            } else if spec.is_interface_factory {
                FieldPlanView::Instantiate(Some(next))
            } else {
                FieldPlanView::Instantiate(
                    match prefix {
                        Some(p) => Some(p@),
                        None => None,
                    },
                )
            }
        }),
{
    let t = spec.value_type.as_str();
    let next = field_net_name(prefix, fname);
    if str_eq(t, "field") {
        FieldPlan::Default
    } else if str_eq(t, "NetType") {
        FieldPlan::FreshNet(next)
    } else if spec.is_interface_factory {
        FieldPlan::Instantiate(Some(next))
    } else {
        FieldPlan::Instantiate(
            match prefix {
                Some(p) => Some(p.to_owned()),
                None => None,
            },
        )
    }
}

} // verus!
