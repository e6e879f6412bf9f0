//! Instantiating a module through its loader: how the call's arguments are
//! sorted into the module's name, its properties and its inputs, and what is
//! reported once the module has been evaluated.
use vstd::prelude::*;

use super::component::{find_last_slash, last_slash, LangValue};
use crate::strmap::StrMap;
use crate::text::{concat, join_comma, join_with_comma, starts_with, str_eq, strs};

verus! {

/// A loader for a module file: calling it instantiates the module.
#[derive(Debug)]
pub struct ModuleLoader {
    pub name: String,
    pub source_path: String,
    /// The placeholder names (`io()`/`config()`) the module declares.
    pub params: Vec<String>,
    /// The type of each placeholder, by name.
    pub param_types: StrMap<String>,
}

/// A named argument of a loader call: its name, its value, and the entries
/// of the value when it is a dict.
pub struct LoaderArg {
    pub name: String,
    pub value: LangValue,
    pub dict_entries: Option<Vec<(LangValue, LangValue)>>,
}

/// A loader call sorted out: the inputs handed to the module (by name, in
/// order), the instance name when one was given, and the properties when given.
pub struct LoaderCall {
    pub inputs: Vec<(String, LangValue)>,
    pub name: Option<String>,
    pub properties: Option<StrMap<LangValue>>,
}

/// The view of a sorted call: inputs, name, and properties as a map.
pub open spec fn loader_call_view(c: LoaderCall) -> (
    Seq<(Seq<char>, (u64, Seq<char>, Option<Seq<char>>))>,
    Option<Seq<char>>,
    Option<Map<Seq<char>, (u64, Seq<char>, Option<Seq<char>>)>>,
) {
    (
        c.inputs@.map_values(|e: (String, LangValue)| (e.0@, e.1@)),
        crate::text::opt_str(c.name),
        match c.properties {
            Some(m) => Some(m@),
            None => None,
        },
    )
}

/// The properties a dict's entries give, or the first problem with them.
pub open spec fn dict_properties(entries: Seq<(LangValue, LangValue)>) -> Result<
    Map<Seq<char>, (u64, Seq<char>, Option<Seq<char>>)>,
    Seq<char>,
>
    decreases entries.len(),
{
    if entries.len() == 0 {
        Ok(Map::empty())
    } else {
        match dict_properties(entries.drop_last()) {
            Err(m) => Err(m),
            Ok(m) => match entries.last().0.str_value {
                Some(k) => Ok(m.insert(k@, entries.last().1@)),
                None => Err("property keys must be strings"@),
            },
        }
    }
}

/// How a loader call's arguments sort out, argument by argument: the call so
/// far, or the first problem.
pub open spec fn sort_args(args: Seq<LoaderArg>) -> Result<
    (
        Seq<(Seq<char>, (u64, Seq<char>, Option<Seq<char>>))>,
        Option<Seq<char>>,
        Option<Map<Seq<char>, (u64, Seq<char>, Option<Seq<char>>)>>,
    ),
    Seq<char>,
>
    decreases args.len(),
{
    if args.len() == 0 {
        Ok((Seq::empty(), None, None))
    } else {
        match sort_args(args.drop_last()) {
            Err(m) => Err(m),
            Ok((inputs, name, props)) => {
                let a = args.last();
                if a.name@ == "name"@ {
                    match a.value.str_value {
                        Some(s) => Ok((inputs, Some(s@), props)),
                        None => Err("name parameter must be a string"@),
                    }
                } else if a.name@ == "properties"@ {
                    match a.dict_entries {
                        Some(es) => match dict_properties(es@) {
                            Ok(m) => Ok((inputs, name, Some(m))),
                            Err(m) => Err(m),
                        },
                        None => Err("properties parameter must be a dict"@),
                    }
                } else {
                    Ok((inputs.push((a.name@, a.value@)), name, props))
                }
            },
        }
    }
}

/// The message when a loader is called with positional arguments.
pub open spec fn positional_msg() -> Seq<char> {
    "ModuleLoader only supports named arguments"@
}

/// The properties a dict's entries give.
fn properties_of(entries: &Vec<(LangValue, LangValue)>) -> (r: Result<StrMap<LangValue>, String>)
    ensures
        match r {
            Ok(m) => m.wf() && dict_properties(entries@) == Ok::<
                Map<Seq<char>, (u64, Seq<char>, Option<Seq<char>>)>,
                Seq<char>,
            >(m@),
            Err(e) => dict_properties(entries@) == Err::<
                Map<Seq<char>, (u64, Seq<char>, Option<Seq<char>>)>,
                Seq<char>,
            >(e@),
        },
{
    let mut map: StrMap<LangValue> = StrMap::new();
    let mut i: usize = 0;
    while i < entries.len()
        invariant
            i <= entries@.len(),
            map.wf(),
            dict_properties(entries@.take(i as int)) == Ok::<
                Map<Seq<char>, (u64, Seq<char>, Option<Seq<char>>)>,
                Seq<char>,
            >(map@),
        decreases entries@.len() - i,
    {
        proof {
            assert(entries@.take(i + 1).drop_last() =~= entries@.take(i as int));
            assert(entries@.take(i + 1).last() == entries@[i as int]);
        }
        match &entries[i].0.str_value {
            Some(k) => {
                map.insert(k.clone(), entries[i].1.copy());
            },
            None => {
                proof {
                    lemma_dict_properties_err(entries@, i as int);
                }
                return Err("property keys must be strings".to_owned());
            },
        }
        i = i + 1;
    }
    proof {
        assert(entries@.take(entries@.len() as int) =~= entries@);
    }
    Ok(map)
}

proof fn lemma_dict_properties_err(entries: Seq<(LangValue, LangValue)>, i: int)
    requires
        0 <= i < entries.len(),
        dict_properties(entries.take(i + 1)) is Err,
    ensures
        dict_properties(entries) == dict_properties(entries.take(i + 1)),
    decreases entries.len() - i,
{
    if i + 1 < entries.len() {
        assert(entries.take(i + 2).drop_last() =~= entries.take(i + 1));
        lemma_dict_properties_err(entries, i + 1);
    } else {
        assert(entries.take(i + 1) =~= entries);
    }
}

proof fn lemma_sort_args_err(args: Seq<LoaderArg>, i: int)
    requires
        0 <= i < args.len(),
        sort_args(args.take(i + 1)) is Err,
    ensures
        sort_args(args) == sort_args(args.take(i + 1)),
    decreases args.len() - i,
{
    if i + 1 < args.len() {
        assert(args.take(i + 2).drop_last() =~= args.take(i + 1));
        lemma_sort_args_err(args, i + 1);
    } else {
        assert(args.take(i + 1) =~= args);
    }
}

impl ModuleLoader {
    /// Sort a loader call's arguments: `name` (a string) names the instance,
    /// `properties` (a dict with string keys) gives its properties, and every
    /// other argument is an input. A later `name` or `properties` replaces an
    /// earlier one. Positional arguments are refused.
    pub fn sort_arguments(n_positional: usize, args: &Vec<LoaderArg>) -> (r: Result<LoaderCall, String>)
        ensures
            n_positional > 0 ==> (r matches Err(e) && e@ == positional_msg()),
            n_positional == 0 ==> match r {
                Ok(c) => sort_args(args@) == Ok::<_, Seq<char>>(loader_call_view(c)) && (c.properties matches Some(
                    m,
                ) ==> m.wf()),
                Err(e) => sort_args(args@) == Err::<
                    (
                        Seq<(Seq<char>, (u64, Seq<char>, Option<Seq<char>>))>,
                        Option<Seq<char>>,
                        Option<Map<Seq<char>, (u64, Seq<char>, Option<Seq<char>>)>>,
                    ),
                    Seq<char>,
                >(e@),
            },
    {
        if n_positional > 0 {
            return Err("ModuleLoader only supports named arguments".to_owned());
        }
        let mut call = LoaderCall { inputs: Vec::new(), name: None, properties: None };
        let mut i: usize = 0;
        proof {
            assert(args@.take(0) =~= Seq::<LoaderArg>::empty());
            assert(loader_call_view(call).0 =~= Seq::empty());
        }
        while i < args.len()
            invariant
                n_positional == 0,
                i <= args@.len(),
                sort_args(args@.take(i as int)) == Ok::<_, Seq<char>>(loader_call_view(call)),
                call.properties matches Some(m) ==> m.wf(),
            decreases args@.len() - i,
        {
            proof {
                assert(args@.take(i + 1).drop_last() =~= args@.take(i as int));
                assert(args@.take(i + 1).last() == args@[i as int]);
            }
            let a = &args[i];
            if str_eq(a.name.as_str(), "name") {
                match &a.value.str_value {
                    Some(s) => {
                        call.name = Some(s.clone());
                    },
                    None => {
                        proof {
                            lemma_sort_args_err(args@, i as int);
                        }
                        return Err("name parameter must be a string".to_owned());
                    },
                }
            } else if str_eq(a.name.as_str(), "properties") {
                match &a.dict_entries {
                    Some(es) => match properties_of(es) {
                        Ok(m) => {
                            call.properties = Some(m);
                        },
                        Err(e) => {
                            proof {
                                lemma_sort_args_err(args@, i as int);
                            }
                            return Err(e);
                        },
                    },
                    None => {
                        proof {
                            lemma_sort_args_err(args@, i as int);
                        }
                        return Err("properties parameter must be a dict".to_owned());
                    },
                }
            } else {
                let ghost before = call.inputs@;
                call.inputs.push((a.name.clone(), a.value.copy()));
                proof {
                    assert(call.inputs@ == before.push(call.inputs@.last()));
                    assert(loader_call_view(call).0 =~= sort_args(args@.take(i as int))->Ok_0.0.push(
                        (a.name@, a.value@),
                    ));
                }
            }
            i = i + 1;
        }
        proof {
            assert(args@.take(args@.len() as int) =~= args@);
        }
        Ok(call)
    }

    /// The instance's name: the one given, else the loader's own, with the
    /// diagnostic reported when none was given.
    pub fn instance_name(&self, given: Option<String>) -> (r: (String, Option<String>))
        ensures
            match given {
                Some(n) => r.0@ == n@ && r.1 is None,
                None => r.0@ == self.name@ && (r.1 matches Some(m) && m@
                    == "Missing required argument `name` when instantiating module "@ + self.name@),
            },
    {
        match given {
            Some(n) => (n, None),
            None => {
                let msg = concat("Missing required argument `name` when instantiating module ", self.name.as_str());
                (self.name.clone(), Some(msg))
            },
        }
    }

    /// Whether an exported attribute may be looked up through the loader:
    /// names starting with `__` are private.
    pub fn exported_attr_allowed(attr: &str) -> (r: bool)
        ensures
            r == !crate::text::has_prefix(attr@, "__"@),
    {
        !starts_with(attr, "__")
    }
}

/// How severe a diagnostic is.
#[derive(Clone, Copy, Debug, PartialEq, Eq, Structural)]
pub enum Severity {
    Error,
    Warning,
    Advice,
    Disabled,
}

impl ModuleLoader {
    /// How a diagnostic of the instantiated module is reported at the call
    /// site: its severity, and the message of the diagnostic that wraps it.
    pub fn wrap_child_diagnostic(&self, severity: Severity) -> (r: (Severity, String))
        ensures
            r.0 == severity,
            r.1@ == match severity {
                Severity::Error => "Error instantiating `"@ + self.name@ + "`"@,
                Severity::Warning => "Warning from `"@ + self.name@ + "`"@,
                _ => "Issue in `"@ + self.name@ + "`"@,
            },
    {
        let head = match severity {
            Severity::Error => "Error instantiating `",
            Severity::Warning => "Warning from `",
            _ => "Issue in `",
        };
        let mut m = concat(head, self.name.as_str());
        m.append("`");
        (severity, m)
    }
}

/// The names in `provided` that are not in `used`, in order.
pub open spec fn unused_names(provided: Seq<Seq<char>>, used: Seq<Seq<char>>) -> Seq<Seq<char>> {
    provided.filter(|n: Seq<char>| !used.contains(n))
}

pub(crate) fn holds(v: &Vec<String>, s: &str) -> (r: bool)
    ensures
        r == strs(v@).contains(s@),
{
    let mut i: usize = 0;
    while i < v.len()
        invariant
            i <= v@.len(),
            forall|k: int| 0 <= k < i ==> v@[k]@ != s@,
        decreases v@.len() - i,
    {
        if str_eq(v[i].as_str(), s) {
            proof {
                assert(strs(v@)[i as int] == s@);
            }
            return true;
        }
        i = i + 1;
    }
    proof {
        if strs(v@).contains(s@) {
            let k = choose|k: int| 0 <= k < v@.len() && strs(v@)[k] == s@;
            assert(v@[k]@ == s@);
        }
    }
    false
}

impl ModuleLoader {
    /// What is reported after the module was evaluated. With an output
    /// (`used` holds the module's declared parameters): the provided inputs
    /// the module does not use, if any. Without one: that instantiation
    /// failed, unless errors were already reported or there is no call site.
    pub fn after_eval(
        &self,
        provided: &Vec<String>,
        used: Option<&Vec<String>>,
        had_errors: bool,
        has_call_site: bool,
    ) -> (r: Option<String>)
        ensures
            match used {
                Some(u) => {
                    let unused = unused_names(strs(provided@), strs(u@));
                    if unused.len() == 0 {
                        r is None
                    } else {
                        r matches Some(m) && m@ == "Unknown argument(s) provided to module "@ + self.name@ + ": "@
                            + join_comma(unused)
                    }
                },
                None => if !had_errors && has_call_site {
                    r matches Some(m) && m@ == "Failed to instantiate module "@ + self.name@
                } else {
                    r is None
                },
            },
    {
        match used {
            Some(u) => {
                let mut unused: Vec<String> = Vec::new();
                let mut i: usize = 0;
                proof {
                    assert(strs(provided@).take(0).filter(|n: Seq<char>| !strs(u@).contains(n)) =~= Seq::<
                        Seq<char>,
                    >::empty());
                }
                while i < provided.len()
                    invariant
                        i <= provided@.len(),
                        strs(unused@) == strs(provided@).take(i as int).filter(
                            |n: Seq<char>| !strs(u@).contains(n),
                        ),
                    decreases provided@.len() - i,
                {
                    proof {
                        assert(strs(provided@).take(i + 1).drop_last() =~= strs(provided@).take(i as int));
                        assert(strs(provided@).take(i + 1).last() == provided@[i as int]@);
                        strs(provided@).take(i as int).lemma_filter_push(
                            provided@[i as int]@,
                            |n: Seq<char>| !strs(u@).contains(n),
                        );
                        assert(strs(provided@).take(i + 1) =~= strs(provided@).take(i as int).push(
                            provided@[i as int]@,
                        ));
                    }
                    if !holds(u, provided[i].as_str()) {
                        let ghost before = unused@;
                        unused.push(provided[i].clone());
                        proof {
                            assert(strs(unused@) =~= strs(before).push(provided@[i as int]@));
                        }
                    }
                    i = i + 1;
                }
                proof {
                    assert(strs(provided@).take(provided@.len() as int) =~= strs(provided@));
                }
                if unused.len() == 0 {
                    None
                } else {
                    let mut m = concat("Unknown argument(s) provided to module ", self.name.as_str());
                    m.append(": ");
                    m.append(join_with_comma(&unused).as_str());
                    Some(m)
                }
            },
            None => {
                if !had_errors && has_call_site {
                    Some(concat("Failed to instantiate module ", self.name.as_str()))
                } else {
                    None
                }
            },
        }
    }
}

/// A path without its trailing slashes (a lone `/` stays).
pub open spec fn trimmed_end(p: Seq<char>) -> Seq<char>
    decreases p.len(),
{
    if p.len() > 1 && p.last() == '/' {
        trimmed_end(p.drop_last())
    } else {
        p
    }
}

/// The last component of a path.
pub open spec fn last_component(p: Seq<char>) -> Seq<char> {
    let t = trimmed_end(p);
    match last_slash(t) {
        Some(i) => t.subrange(i + 1, t.len() as int),
        None => t,
    }
}

/// The position of the last `.` in `s`.
pub open spec fn last_dot(s: Seq<char>) -> Option<int>
    decreases s.len(),
{
    if s.len() == 0 {
        None
    } else if s.last() == '.' {
        Some(s.len() - 1)
    } else {
        last_dot(s.drop_last())
    }
}

/// A file name without its extension: the part before the last `.`, unless
/// that `.` is the name's first character; nothing for `..`.
pub open spec fn stem_of(name: Seq<char>) -> Seq<char> {
    if name == ".."@ {
        Seq::empty()
    } else {
        match last_dot(name) {
            Some(i) => if i == 0 {
                name
            } else {
                name.subrange(0, i)
            },
            None => name,
        }
    }
}

/// The stem of a path's file name.
pub open spec fn file_stem(p: Seq<char>) -> Seq<char> {
    stem_of(last_component(p))
}

fn trim_end_slashes(p: &str) -> (r: String)
    ensures
        r@ == trimmed_end(p@),
{
    let mut cur = p.to_owned();
    while cur.as_str().unicode_len() > 1 && cur.as_str().get_char(cur.as_str().unicode_len() - 1) == '/'
        invariant
            trimmed_end(cur@) == trimmed_end(p@),
        decreases cur@.len(),
    {
        let n = cur.as_str().unicode_len();
        let next = crate::text::substring(cur.as_str(), 0, n - 1);
        proof {
            assert(next@ =~= cur@.drop_last());
        }
        cur = next;
    }
    cur
}

fn find_last_dot(s: &str) -> (r: Option<usize>)
    ensures
        match r {
            Some(i) => last_dot(s@) == Some(i as int) && i < s@.len(),
            None => last_dot(s@) is None,
        },
{
    let n = s.unicode_len();
    let mut i = n;
    proof {
        assert(s@.take(n as int) =~= s@);
    }
    while i > 0
        invariant
            n == s@.len(),
            i <= n,
            last_dot(s@) == last_dot(s@.take(i as int)),
        decreases i,
    {
        proof {
            assert(s@.take(i as int).drop_last() =~= s@.take(i - 1));
        }
        if s.get_char(i - 1) == '.' {
            return Some(i - 1);
        }
        i = i - 1;
    }
    None
}

/// The stem of a path's file name (`board` for `boards/board.zen`).
pub fn stem_of_path(p: &str) -> (r: String)
    ensures
        r@ == file_stem(p@),
{
    let t = trim_end_slashes(p);
    let n = t.as_str().unicode_len();
    let name = match find_last_slash(t.as_str()) {
        Some(i) => crate::text::substring(t.as_str(), i + 1, n),
        None => t.clone(),
    };
    proof {
        reveal_strlit("..");
    }
    if str_eq(name.as_str(), "..") {
        return String::new();
    }
    let m = name.as_str().unicode_len();
    match find_last_dot(name.as_str()) {
        Some(i) => {
            if i == 0 {
                name
            } else {
                crate::text::substring(name.as_str(), 0, i)
            }
        },
        None => name,
    }
}

/// The map of parameter types a signature gives, each later entry of a name
/// replacing the earlier.
pub open spec fn param_types_of(sig: Seq<(String, String)>) -> Seq<(Seq<char>, Seq<char>)>
    decreases sig.len(),
{
    if sig.len() == 0 {
        Seq::empty()
    } else {
        crate::strmap::assoc_insert(param_types_of(sig.drop_last()), sig.last().0@, sig.last().1@)
    }
}

/// The loader for the module file at `path`, given the signature (each
/// parameter's name and type) found by evaluating it once without inputs,
/// when that evaluation gave one. Its parameters are `name`,
/// `properties` and the signature's names, sorted, each once.
pub fn build_module_loader_from_path(path: &str, signature: Option<&Vec<(String, String)>>) -> (r: ModuleLoader)
    ensures
        r.name@ == file_stem(path@),
        r.source_path@ == path@,
        crate::text::sorted_strictly(strs(r.params@)),
        forall|x: Seq<char>|
            strs(r.params@).contains(x) <==> (x == "name"@ || x == "properties"@ || (signature matches Some(
                sig,
            ) && exists|k: int| 0 <= k < sig@.len() && sig@[k].0@ == x)),
        r.param_types.wf(),
        r.param_types.entries_view() == match signature {
            Some(sig) => param_types_of(sig@),
            None => Seq::empty(),
        },
{
    let name = stem_of_path(path);
    let mut names: Vec<String> = Vec::new();
    names.push("name".to_owned());
    names.push("properties".to_owned());
    let mut param_types: StrMap<String> = StrMap::new();
    proof {
        reveal_strlit("name");
        reveal_strlit("properties");
        assert(strs(names@)[0] == "name"@);
        assert(strs(names@)[1] == "properties"@);
        assert(strs(names@)[0].len() != strs(names@)[1].len());
        assert(strs(names@).no_duplicates());
    }
    match signature {
        Some(sig) => {
            let mut i: usize = 0;
            proof {
                assert(sig@.take(0) =~= Seq::<(String, String)>::empty());
            }
            while i < sig.len()
                invariant
                    i <= sig@.len(),
                    strs(names@).no_duplicates(),
                    forall|x: Seq<char>|
                        strs(names@).contains(x) <==> (x == "name"@ || x == "properties"@ || exists|k: int|
                            0 <= k < i && sig@[k].0@ == x),
                    param_types.wf(),
                    param_types.entries_view() == param_types_of(sig@.take(i as int)),
                decreases sig@.len() - i,
            {
                proof {
                    assert(sig@.take(i + 1).drop_last() =~= sig@.take(i as int));
                    assert(sig@.take(i + 1).last() == sig@[i as int]);
                }
                let pname = &sig[i].0;
                if !holds(&names, pname.as_str()) {
                    let ghost before = names@;
                    names.push(pname.clone());
                    proof {
                        assert(strs(names@) =~= strs(before).push(pname@));
                        assert forall|x: Seq<char>|
                            strs(names@).contains(x) <==> (x == "name"@ || x == "properties"@ || exists|k: int|
                                0 <= k < i + 1 && sig@[k].0@ == x) by {
                            if strs(names@).contains(x) && !strs(before).contains(x) {
                                let j = choose|j: int| 0 <= j < strs(names@).len() && strs(names@)[j] == x;
                                if j < strs(before).len() {
                                    assert(strs(before)[j] == x);
                                }
                            }
                            if strs(before).contains(x) {
                                let j = choose|j: int| 0 <= j < strs(before).len() && strs(before)[j] == x;
                                assert(strs(names@)[j] == x);
                            }
                            if x == pname@ {
                                assert(strs(names@)[strs(before).len() as int] == x);
                            }
                        }
                    }
                } else {
                    proof {
                        assert forall|x: Seq<char>|
                            strs(names@).contains(x) <==> (x == "name"@ || x == "properties"@ || exists|k: int|
                                0 <= k < i + 1 && sig@[k].0@ == x) by {
                            if exists|k: int| 0 <= k < i + 1 && sig@[k].0@ == x {
                                let k = choose|k: int| 0 <= k < i + 1 && sig@[k].0@ == x;
                                if k == i {
                                    assert(x == pname@);
                                } else {
                                    assert(0 <= k < i && sig@[k].0@ == x);
                                }
                            }
                        }
                    }
                }
                param_types.insert(pname.clone(), sig[i].1.clone());
                i = i + 1;
            }
            proof {
                assert(sig@.take(sig@.len() as int) =~= sig@);
            }
        },
        None => {},
    }
    let params = crate::text::sort_strings(names);
    ModuleLoader { name, source_path: path.to_owned(), params, param_types }
}

} // verus!
