//! SPICE models: a sub-circuit of a model file, bound to nets and arguments.
//! The sub-circuit's declaration is found in the file's text with regular
//! expressions; its nets and parameters are then read from the match.
use regex::Regex;
use vstd::prelude::*;

use super::component::LangValue;
use crate::graph::paths::quoted;
use crate::strmap::StrMap;
use crate::text::{concat, decimal_text, digits_of, first_index_of, is_ws, str_eq, strs};

verus! {

/// A SPICE sub-circuit bound to its nets and arguments.
#[derive(Debug)]
pub struct SpiceModelValueGen<V> {
    /// The text of the model file.
    pub definition: String,
    /// The sub-circuit's name.
    pub name: String,
    /// The nets, in the order of the sub-circuit's ports.
    pub nets: Vec<V>,
    /// The arguments, by parameter name.
    pub args: StrMap<String>,
}

impl<V> SpiceModelValueGen<V> {
    pub fn nets(&self) -> (r: &Vec<V>)
        ensures
            r == &self.nets,
    {
        &self.nets
    }

    pub fn args(&self) -> (r: &StrMap<String>)
        ensures
            r == &self.args,
    {
        &self.args
    }

    pub fn name(&self) -> (r: &str)
        ensures
            r@ == self.name@,
    {
        self.name.as_str()
    }

    pub fn definition(&self) -> (r: &str)
        ensures
            r@ == self.definition@,
    {
        self.definition.as_str()
    }
}

/// The lines of a text scanned so far: the finished lines, and the line
/// being read.
pub open spec fn line_scan(s: Seq<char>) -> (Seq<Seq<char>>, Seq<char>)
    decreases s.len(),
{
    if s.len() == 0 {
        (Seq::empty(), Seq::empty())
    } else {
        let (done, cur) = line_scan(s.drop_last());
        if s.last() == '\n' {
            (done.push(strip_cr(cur)), Seq::empty())
        } else {
            (done, cur.push(s.last()))
        }
    }
}

/// A line without the `\r` of a `\r\n` ending.
pub open spec fn strip_cr(l: Seq<char>) -> Seq<char> {
    if l.len() > 0 && l.last() == '\r' {
        l.drop_last()
    } else {
        l
    }
}

/// The lines of a text (`str::lines`): split at `\n` or `\r\n`, the last
/// ending optional.
pub open spec fn lines_of(s: Seq<char>) -> Seq<Seq<char>> {
    let (done, cur) = line_scan(s);
    if cur.len() > 0 {
        done.push(cur)
    } else {
        done
    }
}

/// The tokens of a text scanned so far: the finished tokens, and the token
/// being read.
pub open spec fn ws_scan(s: Seq<char>) -> (Seq<Seq<char>>, Seq<char>)
    decreases s.len(),
{
    if s.len() == 0 {
        (Seq::empty(), Seq::empty())
    } else {
        let (done, cur) = ws_scan(s.drop_last());
        if is_ws(s.last()) {
            if cur.len() > 0 {
                (done.push(cur), Seq::empty())
            } else {
                (done, Seq::empty())
            }
        } else {
            (done, cur.push(s.last()))
        }
    }
}

/// The white-space separated tokens of a text (`str::split_whitespace`).
pub open spec fn ws_tokens(s: Seq<char>) -> Seq<Seq<char>> {
    let (done, cur) = ws_scan(s);
    if cur.len() > 0 {
        done.push(cur)
    } else {
        done
    }
}

/// The lines of a text.
pub fn text_lines(s: &str) -> (r: Vec<String>)
    ensures
        strs(r@) == lines_of(s@),
{
    let n = s.unicode_len();
    let mut done: Vec<String> = Vec::new();
    let mut start: usize = 0;
    let mut i: usize = 0;
    while i < n
        invariant
            n == s@.len(),
            start <= i <= n,
            (strs(done@), s@.subrange(start as int, i as int)) == line_scan(s@.take(i as int)),
        decreases n - i,
    {
        proof {
            assert(s@.take(i + 1).drop_last() =~= s@.take(i as int));
            assert(s@.take(i + 1).last() == s@[i as int]);
        }
        if s.get_char(i) == '\n' {
            let mut end = i;
            if end > start && s.get_char(end - 1) == '\r' {
                end = end - 1;
            }
            let line = crate::text::substring(s, start, end);
            let ghost before = done@;
            done.push(line);
            proof {
                let cur = s@.subrange(start as int, i as int);
                assert(line@ =~= strip_cr(cur));
                assert(strs(done@) =~= strs(before).push(strip_cr(cur)));
                assert(s@.subrange(i + 1, i + 1) =~= Seq::<char>::empty());
            }
            start = i + 1;
        } else {
            proof {
                assert(s@.subrange(start as int, i + 1) =~= s@.subrange(start as int, i as int).push(s@[i as int]));
            }
        }
        i = i + 1;
    }
    proof {
        assert(s@.take(n as int) =~= s@);
    }
    if start < n {
        let last = crate::text::substring(s, start, n);
        done.push(last);
        proof {
            assert(strs(done@) =~= strs(done@.drop_last()).push(last@));
        }
    }
    done
}

/// The white-space separated tokens of a text.
pub fn whitespace_tokens(s: &str) -> (r: Vec<String>)
    ensures
        strs(r@) == ws_tokens(s@),
{
    let n = s.unicode_len();
    let mut done: Vec<String> = Vec::new();
    let mut start: usize = 0;
    let mut i: usize = 0;
    while i < n
        invariant
            n == s@.len(),
            start <= i <= n,
            (strs(done@), s@.subrange(start as int, i as int)) == ws_scan(s@.take(i as int)),
        decreases n - i,
    {
        proof {
            assert(s@.take(i + 1).drop_last() =~= s@.take(i as int));
            assert(s@.take(i + 1).last() == s@[i as int]);
        }
        let c = s.get_char(i);
        let ws = c == '\t' || c == '\n' || c == '\u{0B}' || c == '\u{0C}' || c == '\r' || c == ' ' || c
            == '\u{85}' || c == '\u{A0}' || c == '\u{1680}' || ('\u{2000}' <= c && c <= '\u{200A}') || c
            == '\u{2028}' || c == '\u{2029}' || c == '\u{202F}' || c == '\u{205F}' || c == '\u{3000}';
        if ws {
            if i > start {
                let tok = crate::text::substring(s, start, i);
                let ghost before = done@;
                done.push(tok);
                proof {
                    assert(strs(done@) =~= strs(before).push(tok@));
                }
            }
            proof {
                assert(s@.subrange(i + 1, i + 1) =~= Seq::<char>::empty());
            }
            start = i + 1;
        } else {
            proof {
                assert(s@.subrange(start as int, i + 1) =~= s@.subrange(start as int, i as int).push(c));
            }
        }
        i = i + 1;
    }
    proof {
        assert(s@.take(n as int) =~= s@);
    }
    if start < n {
        let last = crate::text::substring(s, start, n);
        done.push(last);
        proof {
            assert(strs(done@) =~= strs(done@.drop_last()).push(last@));
        }
    }
    done
}

/// A character with a meaning in a regex pattern.
pub open spec fn is_regex_meta(c: char) -> bool {
    c == '\\' || c == '.' || c == '+' || c == '*' || c == '?' || c == '(' || c == ')' || c == '|' || c == '['
        || c == ']' || c == '{' || c == '}' || c == '^' || c == '$' || c == '#' || c == '&' || c == '-' || c == '~'
}

/// What `regex::escape` gives for a text: the text with a backslash put before
/// every character that has a meaning in a pattern.
pub open spec fn regex_escaped(s: Seq<char>) -> Seq<char>
    decreases s.len(),
{
    if s.len() == 0 {
        Seq::empty()
    } else if is_regex_meta(s.last()) {
        regex_escaped(s.drop_last()) + seq!['\\', s.last()]
    } else {
        regex_escaped(s.drop_last()).push(s.last())
    }
}

/// `regex::escape`: the text as a pattern that matches it literally, each
/// meta character preceded by a backslash.
#[verifier::external_body]
fn escape_for_regex(s: &str) -> (r: String)
    ensures
        r@ == regex_escaped(s@),
{
    regex::escape(s)
}

#[verifier::external_type_specification]
#[verifier::external_body]
pub struct ExRegex(Regex);

/// Whether `Regex::new` accepts a pattern. It depends on the pattern alone.
pub uninterp spec fn regex_compiles(pattern: Seq<char>) -> bool;

/// What `Regex::captures` gives on `text` for the regex compiled from
/// `pattern`: the capture groups of the first match (group 0 being the whole
/// match), or none when it does not match. It depends on the pattern and the
/// text alone.
pub uninterp spec fn regex_groups(pattern: Seq<char>, text: Seq<char>) -> Option<Seq<Option<Seq<char>>>>;

/// The capture groups of the first match of a pattern in a text; a pattern
/// that does not compile matches nothing.
pub open spec fn regex_captures(pattern: Seq<char>, text: Seq<char>) -> Option<Seq<Option<Seq<char>>>> {
    if regex_compiles(pattern) {
        regex_groups(pattern, text)
    } else {
        None
    }
}

/// A compiled regex together with the pattern it was compiled from.
pub struct CompiledRegex {
    pattern: String,
    re: Regex,
}

impl CompiledRegex {
    /// The pattern the regex was compiled from.
    pub closed spec fn pattern_view(&self) -> Seq<char> {
        self.pattern@
    }
}

/// `Regex::new`: the pattern compiled, kept with its text; none when the
/// pattern does not compile.
#[verifier::external_body]
fn compile_regex(pattern: &str) -> (r: Option<CompiledRegex>)
    ensures
        r is Some <==> regex_compiles(pattern@),
        r matches Some(c) ==> c.pattern_view() == pattern@,
{
    Regex::new(pattern).ok().map(|re| CompiledRegex { pattern: pattern.to_owned(), re })
}

/// `Regex::captures`: the groups of the first match, each as its text when it
/// took part in the match.
#[verifier::external_body]
fn regex_captures_in(c: &CompiledRegex, text: &str) -> (r: Option<Vec<Option<String>>>)
    ensures
        match r {
            Some(groups) => regex_groups(c.pattern_view(), text@) == Some(
                groups@.map_values(|g: Option<String>| crate::text::opt_str(g)),
            ),
            None => regex_groups(c.pattern_view(), text@) is None,
        },
{
    c.re.captures(text).map(|caps| caps.iter().map(|m| m.map(|m| m.as_str().to_owned())).collect())
}

/// The capture groups of the first match of `pattern` in `text`.
fn captures_of(pattern: &str, text: &str) -> (r: Option<Vec<Option<String>>>)
    ensures
        match r {
            Some(groups) => regex_captures(pattern@, text@) == Some(
                groups@.map_values(|g: Option<String>| crate::text::opt_str(g)),
            ),
            None => regex_captures(pattern@, text@) is None,
        },
{
    match compile_regex(pattern) {
        None => None,
        Some(c) => regex_captures_in(&c, text),
    }
}

/// The pattern of a sub-circuit's declaration line.
pub open spec fn decl_pattern(name: Seq<char>) -> Seq<char> {
    "(?i)^\\.subckt\\s+"@ + regex_escaped(name) + "\\b\\s*((?:\\S+\\s*)*?)\\s*(?:params:\\s*(.*))?$"@
}

/// The pattern of a line that continues a declaration's parameters.
pub open spec fn params_pattern() -> Seq<char> {
    "(?i)^\\s*\\+\\s*params:\\s*(.*)$"@
}

/// The text of capture group `i`, empty when it took no part.
pub open spec fn group(caps: Seq<Option<Seq<char>>>, i: int) -> Seq<char> {
    if 0 <= i < caps.len() && caps[i] is Some {
        caps[i]->0
    } else {
        Seq::empty()
    }
}

/// A parameter's name: the part of its token before the first `=`.
pub open spec fn param_name_of(token: Seq<char>) -> Seq<char> {
    match first_index_of(token, '=') {
        Some(i) => token.take(i),
        None => token,
    }
}

/// The parameter names a parameter list gives.
pub open spec fn param_names(text: Seq<char>) -> Seq<Seq<char>> {
    ws_tokens(text).map_values(|t: Seq<char>| param_name_of(t))
}

/// The index of the first line at or after `from` that declares the sub-circuit.
pub open spec fn first_decl(ls: Seq<Seq<char>>, pattern: Seq<char>, from: int) -> Option<int>
    decreases ls.len() - from,
{
    if from < 0 || from >= ls.len() {
        None
    } else if regex_captures(pattern, ls[from]) is Some {
        Some(from)
    } else {
        first_decl(ls, pattern, from + 1)
    }
}

/// The parameter names of the continuation lines from `from` on, up to the
/// first line that is none.
pub open spec fn continuation_params(ls: Seq<Seq<char>>, from: int) -> Seq<Seq<char>>
    decreases ls.len() - from,
{
    if from < 0 || from >= ls.len() {
        Seq::empty()
    } else {
        match regex_captures(params_pattern(), ls[from]) {
            Some(caps) => param_names(group(caps, 1)) + continuation_params(ls, from + 1),
            None => Seq::empty(),
        }
    }
}

/// A sub-circuit's ports and parameters, each parameter once.
pub struct SubCircuit {
    pub nets: Vec<String>,
    pub params: Vec<String>,
}

/// The sub-circuit `name` as a model file declares it: its ports, and its
/// parameters (with repeats, in order), or the error.
pub open spec fn sub_circuit_spec(s: Seq<char>, name: Seq<char>) -> Result<
    (Seq<Seq<char>>, Seq<Seq<char>>),
    Seq<char>,
> {
    let ls = lines_of(s);
    match first_decl(ls, decl_pattern(name), 0) {
        None => Err("cannot find subckt named "@ + name),
        Some(i) => {
            let caps = regex_captures(decl_pattern(name), ls[i])->0;
            let params = param_names(group(caps, 2)) + continuation_params(ls, i + 1);
            if params.contains(Seq::empty()) {
                Err("empty parameter name in subckt "@ + name)
            } else {
                Ok((ws_tokens(group(caps, 1)), params))
            }
        },
    }
}

fn group_text(caps: &Vec<Option<String>>, i: usize) -> (r: String)
    ensures
        r@ == group(caps@.map_values(|g: Option<String>| crate::text::opt_str(g)), i as int),
{
    if i < caps.len() {
        match &caps[i] {
            Some(t) => t.clone(),
            None => String::new(),
        }
    } else {
        String::new()
    }
}

/// The parameter names of a parameter list, appended to `out`.
fn push_param_names(text: &str, out: &mut Vec<String>)
    ensures
        strs(final(out)@) == strs(old(out)@) + param_names(text@),
{
    let toks = whitespace_tokens(text);
    let ghost start = strs(out@);
    let mut k: usize = 0;
    while k < toks.len()
        invariant
            k <= toks@.len(),
            strs(toks@) == ws_tokens(text@),
            strs(out@) == start + param_names(text@).take(k as int),
        decreases toks@.len() - k,
    {
        let t = toks[k].as_str();
        let name = match crate::text::find_char(t, '=') {
            Some(j) => crate::text::substring(t, 0, j),
            None => t.to_owned(),
        };
        proof {
            assert(strs(toks@)[k as int] == t@);
            assert(name@ == param_name_of(t@));
            assert(param_names(text@).take(k + 1) =~= param_names(text@).take(k as int).push(name@));
        }
        let ghost before = out@;
        out.push(name);
        proof {
            assert(strs(out@) =~= strs(before).push(name@));
        }
        k = k + 1;
    }
    proof {
        assert(param_names(text@).take(toks@.len() as int) =~= param_names(text@));
    }
}

fn holds_empty(v: &Vec<String>) -> (r: bool)
    ensures
        r == strs(v@).contains(Seq::empty()),
{
    let mut i: usize = 0;
    while i < v.len()
        invariant
            i <= v@.len(),
            forall|k: int| 0 <= k < i ==> v@[k]@.len() != 0,
        decreases v@.len() - i,
    {
        if v[i].as_str().unicode_len() == 0 {
            proof {
                assert(strs(v@)[i as int] =~= Seq::<char>::empty());
            }
            return true;
        }
        i = i + 1;
    }
    proof {
        if strs(v@).contains(Seq::empty()) {
            let k = choose|k: int| 0 <= k < v@.len() && strs(v@)[k] == Seq::<char>::empty();
            assert(v@[k]@.len() == 0);
        }
    }
    false
}

/// The captures of one match as plain values.
pub open spec fn caps_view(c: Vec<Option<String>>) -> Seq<Option<Seq<char>>> {
    c@.map_values(|g: Option<String>| crate::text::opt_str(g))
}

/// The parameter names of the `+ params:` continuation lines, given their captures.
pub open spec fn cont_names(cs: Seq<Seq<Option<Seq<char>>>>) -> Seq<Seq<char>>
    decreases cs.len(),
{
    if cs.len() == 0 {
        Seq::empty()
    } else {
        cont_names(cs.drop_last()) + param_names(group(cs.last(), 1))
    }
}

/// The sub-circuit that a declaration line's captures and the captures of the
/// continuation lines after it describe: its ports and its parameters (with
/// repeats, in order), or the error for an empty parameter name.
pub open spec fn sub_circuit_of(
    name: Seq<char>,
    decl: Seq<Option<Seq<char>>>,
    conts: Seq<Seq<Option<Seq<char>>>>,
) -> Result<(Seq<Seq<char>>, Seq<Seq<char>>), Seq<char>> {
    let params = param_names(group(decl, 2)) + cont_names(conts);
    if params.contains(Seq::empty()) {
        Err("empty parameter name in subckt "@ + name)
    } else {
        Ok((ws_tokens(group(decl, 1)), params))
    }
}

/// The sub-circuit `name` from the captures of its declaration line (ports in
/// group 1, parameters in group 2) and of the `+ params:` lines after it
/// (parameters in group 1). Parameters are kept once each, in order.
pub fn sub_circuit_from_captures(
    name: &str,
    decl: &Vec<Option<String>>,
    conts: &Vec<Vec<Option<String>>>,
) -> (r: Result<SubCircuit, String>)
    ensures
        match sub_circuit_of(name@, caps_view(*decl), conts@.map_values(|c: Vec<Option<String>>| caps_view(c))) {
            Ok((nets, params)) => r matches Ok(c) && strs(c.nets@) == nets && strs(c.params@)
                == crate::seqs::dedup(params),
            Err(m) => r matches Err(e) && e@ == m,
        },
{
    let ghost cv = conts@.map_values(|c: Vec<Option<String>>| caps_view(c));
    let nets_text = group_text(decl, 1);
    let nets = whitespace_tokens(nets_text.as_str());
    let mut params: Vec<String> = Vec::new();
    let first_params = group_text(decl, 2);
    push_param_names(first_params.as_str(), &mut params);
    proof {
        assert(strs(params@) =~= param_names(first_params@));
        assert(cv.take(0) =~= Seq::<Seq<Option<Seq<char>>>>::empty());
        assert(strs(params@) =~= param_names(first_params@) + cont_names(cv.take(0)));
    }
    let mut k: usize = 0;
    while k < conts.len()
        invariant
            k <= conts@.len(),
            cv == conts@.map_values(|c: Vec<Option<String>>| caps_view(c)),
            strs(params@) == param_names(first_params@) + cont_names(cv.take(k as int)),
        decreases conts@.len() - k,
    {
        let more = group_text(&conts[k], 1);
        let ghost before = strs(params@);
        push_param_names(more.as_str(), &mut params);
        proof {
            assert(cv.take(k + 1).drop_last() =~= cv.take(k as int));
            assert(cv.take(k + 1).last() == caps_view(conts@[k as int]));
            assert(strs(params@) =~= param_names(first_params@) + cont_names(cv.take(k + 1)));
        }
        k = k + 1;
    }
    proof {
        assert(cv.take(conts@.len() as int) =~= cv);
    }
    if holds_empty(&params) {
        return Err(concat("empty parameter name in subckt ", name));
    }
    let unique = dedup_strings(&params);
    Ok(SubCircuit { nets, params: unique })
}

/// Find the sub-circuit `name` in a model file's text: the first line that
/// declares it gives its ports and parameters, and the `+ params:` lines right
/// after it give more parameters. Parameters are kept once each, in order.
pub fn get_sub_circuit(s: &str, name: &str) -> (r: Result<SubCircuit, String>)
    ensures
        match sub_circuit_spec(s@, name@) {
            Ok((nets, params)) => r matches Ok(c) && strs(c.nets@) == nets && strs(c.params@)
                == crate::seqs::dedup(params),
            Err(m) => r matches Err(e) && e@ == m,
        },
{
    let esc = escape_for_regex(name);
    let mut pattern = concat("(?i)^\\.subckt\\s+", esc.as_str());
    pattern.append("\\b\\s*((?:\\S+\\s*)*?)\\s*(?:params:\\s*(.*))?$");
    let params_pat = "(?i)^\\s*\\+\\s*params:\\s*(.*)$";
    let ls = text_lines(s);
    let ghost lv = strs(ls@);
    let mut i: usize = 0;
    while i < ls.len()
        invariant
            i <= ls@.len(),
            lv == strs(ls@),
            lv == lines_of(s@),
            pattern@ == decl_pattern(name@),
            params_pat@ == params_pattern(),
            first_decl(lv, decl_pattern(name@), 0) == first_decl(lv, decl_pattern(name@), i as int),
        decreases ls@.len() - i,
    {
        let caps = captures_of(pattern.as_str(), ls[i].as_str());
        proof {
            assert(lv[i as int] == ls@[i as int]@);
        }
        match caps {
            Some(caps) => {
                let mut conts: Vec<Vec<Option<String>>> = Vec::new();
                let mut j = i + 1;
                proof {
                    assert(conts@.map_values(|c: Vec<Option<String>>| caps_view(c)) =~= Seq::<
                        Seq<Option<Seq<char>>>,
                    >::empty());
                    assert(cont_names(Seq::<Seq<Option<Seq<char>>>>::empty()) + continuation_params(lv, j as int)
                        =~= continuation_params(lv, i + 1));
                }
                while j < ls.len()
                    invariant
                        i < j <= ls@.len(),
                        lv == strs(ls@),
                        params_pat@ == params_pattern(),
                        cont_names(conts@.map_values(|c: Vec<Option<String>>| caps_view(c))) + continuation_params(
                            lv,
                            j as int,
                        ) == continuation_params(lv, i + 1),
                    ensures
                        cont_names(conts@.map_values(|c: Vec<Option<String>>| caps_view(c))) == continuation_params(
                            lv,
                            i + 1,
                        ),
                    decreases ls@.len() - j,
                {
                    proof {
                        assert(lv[j as int] == ls@[j as int]@);
                    }
                    match captures_of(params_pat, ls[j].as_str()) {
                        Some(c2) => {
                            if j + 1 == ls.len() {
                                proof {
                                    assert(continuation_params(lv, j + 1) =~= Seq::<Seq<char>>::empty());
                                }
                            }
                            let ghost before = conts@.map_values(|c: Vec<Option<String>>| caps_view(c));
                            let ghost cv = caps_view(c2);
                            conts.push(c2);
                            proof {
                                let after = conts@.map_values(|c: Vec<Option<String>>| caps_view(c));
                                assert(after =~= before.push(cv));
                                assert(after.drop_last() =~= before);
                                assert(cont_names(after) == cont_names(before) + param_names(group(cv, 1)));
                                assert(cont_names(before) + continuation_params(lv, j as int) =~= cont_names(before) + (
                                param_names(group(cv, 1)) + continuation_params(lv, j + 1)));
                                assert(cont_names(after) + continuation_params(lv, j + 1) =~= cont_names(before)
                                    + continuation_params(lv, j as int));
                            }
                        },
                        None => {
                            proof {
                                let cn = cont_names(conts@.map_values(|c: Vec<Option<String>>| caps_view(c)));
                                assert(cn + continuation_params(lv, j as int) =~= cn);
                            }
                            break;
                        },
                    }
                    j = j + 1;
                }
                proof {
                    assert(first_decl(lv, decl_pattern(name@), i as int) == Some(i as int));
                    let caps_spec = regex_captures(decl_pattern(name@), lv[i as int])->0;
                    assert(caps_spec == caps_view(caps));
                }
                return sub_circuit_from_captures(name, &caps, &conts);
            },
            None => {},
        }
        i = i + 1;
    }
    proof {
        assert(first_decl(lv, decl_pattern(name@), i as int) is None);
    }
    Err(concat("cannot find subckt named ", name))
}

/// The strings, each once, in order of first occurrence.
fn dedup_strings(v: &Vec<String>) -> (r: Vec<String>)
    ensures
        strs(r@) == crate::seqs::dedup(strs(v@)),
{
    let mut out: Vec<String> = Vec::new();
    let mut i: usize = 0;
    proof {
        assert(strs(v@).take(0) =~= Seq::<Seq<char>>::empty());
        assert(strs(out@) =~= Seq::<Seq<char>>::empty());
    }
    while i < v.len()
        invariant
            i <= v@.len(),
            strs(out@) == crate::seqs::dedup(strs(v@).take(i as int)),
        decreases v@.len() - i,
    {
        proof {
            assert(strs(v@).take(i + 1) =~= strs(v@).take(i as int).push(v@[i as int]@));
            crate::seqs::lemma_dedup_push(strs(v@).take(i as int), v@[i as int]@);
        }
        if !crate::lang::loader::holds(&out, v[i].as_str()) {
            let ghost before = out@;
            out.push(v[i].clone());
            proof {
                assert(strs(out@) =~= strs(before).push(v@[i as int]@));
            }
        }
        i = i + 1;
    }
    proof {
        assert(strs(v@).take(v@.len() as int) =~= strs(v@));
    }
    out
}

/// A list of strings as `Debug` shows it: `["a", "b"]`.
pub open spec fn debug_list(items: Seq<Seq<char>>) -> Seq<char> {
    "["@ + crate::text::join_comma(items.map_values(|t: Seq<char>| quoted(t))) + "]"@
}

fn debug_strings(items: &Vec<String>) -> (r: String)
    ensures
        r@ == debug_list(strs(items@)),
{
    let mut q: Vec<String> = Vec::new();
    let mut i: usize = 0;
    while i < items.len()
        invariant
            i <= items@.len(),
            strs(q@) == strs(items@).take(i as int).map_values(|t: Seq<char>| quoted(t)),
        decreases items@.len() - i,
    {
        let t = crate::graph::paths::quote(items[i].as_str());
        let ghost before = q@;
        q.push(t);
        proof {
            assert(q@ == before.push(t));
            assert(strs(q@) =~= strs(before).push(t@));
            assert(strs(items@).take(i + 1) =~= strs(items@).take(i as int).push(items@[i as int]@));
            assert(strs(q@) =~= strs(items@).take(i + 1).map_values(|t: Seq<char>| quoted(t)));
        }
        i = i + 1;
    }
    proof {
        assert(strs(items@).take(items@.len() as int) =~= strs(items@));
    }
    let mut r = "[".to_owned();
    r.append(crate::text::join_with_comma(&q).as_str());
    r.append("]");
    proof {
        reveal_strlit("[");
    }
    r
}

/// The SPICE model constructor.
#[derive(Debug)]
pub struct SpiceModelType;

/// A constructor call with its arguments checked: the model file's path, the
/// sub-circuit's name, the nets and the arguments.
pub struct SpiceCall {
    pub path: String,
    pub name: String,
    pub nets: Vec<LangValue>,
    pub args: StrMap<String>,
}

/// The arguments a dict's entries give, or the first problem with them.
pub open spec fn spice_args(entries: Seq<(LangValue, LangValue)>) -> Result<Map<Seq<char>, Seq<char>>, Seq<char>>
    decreases entries.len(),
{
    if entries.len() == 0 {
        Ok(Map::empty())
    } else {
        match spice_args(entries.drop_last()) {
            Err(m) => Err(m),
            Ok(m) => match entries.last().0.str_value {
                None => Err("parameter names must be strings"@),
                Some(k) => match entries.last().1.str_value {
                    None => Err("parameter values must be strings"@),
                    Some(v) => Ok(m.insert(k@, v@)),
                },
            },
        }
    }
}

/// The type of the first value among `nets` that is not a net.
pub open spec fn first_non_net(nets: Seq<LangValue>) -> Option<Seq<char>>
    decreases nets.len(),
{
    if nets.len() == 0 {
        None
    } else if nets[0].value_type@ != "Net"@ {
        Some(nets[0].value_type@)
    } else {
        first_non_net(nets.drop_first())
    }
}

/// What checking a constructor call's arguments gives: the problem, or the
/// arguments as a map.
pub open spec fn spice_call_outcome(
    path: LangValue,
    name: LangValue,
    nets: Option<Seq<LangValue>>,
    args: Option<Seq<(LangValue, LangValue)>>,
) -> Result<Map<Seq<char>, Seq<char>>, Seq<char>> {
    if path.str_value is None || name.str_value is None {
        Err("`path` must be a string"@)
    } else if nets is None {
        Err("`nets` must be a list of Net"@)
    } else if args is None {
        Err("`args` must be a map"@)
    } else {
        match spice_args(args->0) {
            Err(m) => Err(m),
            Ok(m) => match first_non_net(nets->0) {
                Some(t) => Err("Expected Net, got "@ + t),
                None => Ok(m),
            },
        }
    }
}

proof fn lemma_spice_args_err(entries: Seq<(LangValue, LangValue)>, i: int)
    requires
        0 <= i < entries.len(),
        spice_args(entries.take(i + 1)) is Err,
    ensures
        spice_args(entries) == spice_args(entries.take(i + 1)),
    decreases entries.len() - i,
{
    if i + 1 < entries.len() {
        assert(entries.take(i + 2).drop_last() =~= entries.take(i + 1));
        lemma_spice_args_err(entries, i + 1);
    } else {
        assert(entries.take(i + 1) =~= entries);
    }
}

fn args_map(entries: &Vec<(LangValue, LangValue)>) -> (r: Result<StrMap<String>, String>)
    ensures
        match r {
            Ok(m) => m.wf() && spice_args(entries@) == Ok::<Map<Seq<char>, Seq<char>>, Seq<char>>(m@),
            Err(e) => spice_args(entries@) == Err::<Map<Seq<char>, Seq<char>>, Seq<char>>(e@),
        },
{
    let mut map: StrMap<String> = StrMap::new();
    let mut i: usize = 0;
    while i < entries.len()
        invariant
            i <= entries@.len(),
            map.wf(),
            spice_args(entries@.take(i as int)) == Ok::<Map<Seq<char>, Seq<char>>, Seq<char>>(map@),
        decreases entries@.len() - i,
    {
        proof {
            assert(entries@.take(i + 1).drop_last() =~= entries@.take(i as int));
            assert(entries@.take(i + 1).last() == entries@[i as int]);
        }
        let k = match &entries[i].0.str_value {
            Some(k) => k,
            None => {
                proof {
                    lemma_spice_args_err(entries@, i as int);
                }
                return Err("parameter names must be strings".to_owned());
            },
        };
        let v = match &entries[i].1.str_value {
            Some(v) => v,
            None => {
                proof {
                    lemma_spice_args_err(entries@, i as int);
                }
                return Err("parameter values must be strings".to_owned());
            },
        };
        map.insert(k.clone(), v.clone());
        i = i + 1;
    }
    proof {
        assert(entries@.take(entries@.len() as int) =~= entries@);
    }
    Ok(map)
}

fn find_non_net(nets: &Vec<LangValue>) -> (r: Option<String>)
    ensures
        crate::text::opt_str(r) == first_non_net(nets@),
{
    let mut i: usize = 0;
    proof {
        assert(nets@.skip(0) =~= nets@);
    }
    while i < nets.len()
        invariant
            i <= nets@.len(),
            first_non_net(nets@) == first_non_net(nets@.skip(i as int)),
        decreases nets@.len() - i,
    {
        proof {
            assert(nets@.skip(i as int).drop_first() =~= nets@.skip(i + 1));
            assert(nets@.skip(i as int)[0] == nets@[i as int]);
        }
        if !str_eq(nets[i].value_type.as_str(), "Net") {
            return Some(nets[i].value_type.clone());
        }
        i = i + 1;
    }
    proof {
        assert(nets@.skip(i as int).len() == 0);
    }
    None
}

impl SpiceModelType {
    /// Check a constructor call's arguments: the path and the name must be
    /// strings, `nets` a list of nets, and `args` a dict from strings to strings.
    pub fn parse_arguments(
        path: &LangValue,
        name: &LangValue,
        nets: Option<&Vec<LangValue>>,
        args: Option<&Vec<(LangValue, LangValue)>>,
    ) -> (r: Result<SpiceCall, String>)
        ensures
            match spice_call_outcome(
                *path,
                *name,
                match nets {
                    Some(n) => Some(n@),
                    None => None,
                },
                match args {
                    Some(a) => Some(a@),
                    None => None,
                },
            ) {
                Ok(m) => r matches Ok(c) && c.path@ == path.str_value->0@ && c.name@ == name.str_value->0@
                    && c.nets@.map_values(|v: LangValue| v@) == nets->0@.map_values(|v: LangValue| v@)
                    && c.args.wf() && c.args@ == m,
                Err(e) => r matches Err(x) && x@ == e,
            },
    {
        let p = match &path.str_value {
            Some(p) => p.clone(),
            None => {
                return Err("`path` must be a string".to_owned());
            },
        };
        let n = match &name.str_value {
            Some(n) => n.clone(),
            None => {
                return Err("`path` must be a string".to_owned());
            },
        };
        let nets = match nets {
            Some(v) => v,
            None => {
                return Err("`nets` must be a list of Net".to_owned());
            },
        };
        let args = match args {
            Some(a) => a,
            None => {
                return Err("`args` must be a map".to_owned());
            },
        };
        let map = args_map(args)?;
        match find_non_net(nets) {
            Some(t) => {
                return Err(concat("Expected Net, got ", t.as_str()));
            },
            None => {},
        }
        let mut copied: Vec<LangValue> = Vec::new();
        let mut i: usize = 0;
        while i < nets.len()
            invariant
                i <= nets@.len(),
                copied@.map_values(|v: LangValue| v@) == nets@.take(i as int).map_values(|v: LangValue| v@),
            decreases nets@.len() - i,
        {
            let ghost before = copied@;
            let x = nets[i].copy();
            copied.push(x);
            proof {
                assert(copied@ == before.push(x));
                assert(nets@.take(i + 1) =~= nets@.take(i as int).push(nets@[i as int]));
                assert(copied@.map_values(|v: LangValue| v@) =~= before.map_values(|v: LangValue| v@).push(x@));
                assert(nets@.take(i + 1).map_values(|v: LangValue| v@) =~= nets@.take(i as int).map_values(
                    |v: LangValue| v@,
                ).push(nets@[i as int]@));
                assert(copied@.map_values(|v: LangValue| v@) =~= nets@.take(i + 1).map_values(
                    |v: LangValue| v@,
                ));
            }
            i = i + 1;
        }
        proof {
            assert(nets@.take(nets@.len() as int) =~= nets@);
        }
        Ok(SpiceCall { path: p, name: n, nets: copied, args: map })
    }
}

/// What binding a checked call to a model file's text gives: the error, if any.
pub open spec fn spice_bind_error(
    contents: Seq<char>,
    name: Seq<char>,
    n_nets: nat,
    args: Map<Seq<char>, Seq<char>>,
    arg_order: Seq<Seq<char>>,
) -> Option<Seq<char>> {
    match sub_circuit_spec(contents, name) {
        Err(m) => Some(m),
        Ok((ports, params)) => {
            let ps = crate::seqs::dedup(params);
            let missing = ps.filter(|p: Seq<char>| !args.contains_key(p));
            let unexpected = arg_order.filter(|a: Seq<char>| !ps.contains(a));
            if n_nets != ports.len() {
                Some("Expected "@ + digits_of(ports.len()) + " nets, "@ + digits_of(n_nets) + " provided"@)
            } else if missing.len() > 0 {
                Some("Required argument(s) "@ + debug_list(missing) + " not provided"@)
            } else if unexpected.len() > 0 {
                Some("Unexpected argument(s) "@ + debug_list(unexpected) + " "@)
            } else {
                None
            }
        },
    }
}

/// The strings of `v` for which `keep` says so, in order.
fn filter_by(v: &Vec<String>, other: &Vec<String>, keep_present: bool) -> (r: Vec<String>)
    ensures
        strs(r@) == strs(v@).filter(|x: Seq<char>| strs(other@).contains(x) == keep_present),
{
    let mut out: Vec<String> = Vec::new();
    let mut i: usize = 0;
    proof {
        assert(strs(v@).take(0).filter(|x: Seq<char>| strs(other@).contains(x) == keep_present) =~= Seq::<
            Seq<char>,
        >::empty());
    }
    while i < v.len()
        invariant
            i <= v@.len(),
            strs(out@) == strs(v@).take(i as int).filter(|x: Seq<char>| strs(other@).contains(x) == keep_present),
        decreases v@.len() - i,
    {
        proof {
            assert(strs(v@).take(i + 1) =~= strs(v@).take(i as int).push(v@[i as int]@));
            strs(v@).take(i as int).lemma_filter_push(
                v@[i as int]@,
                |x: Seq<char>| strs(other@).contains(x) == keep_present,
            );
        }
        if crate::lang::loader::holds(other, v[i].as_str()) == keep_present {
            let ghost before = out@;
            out.push(v[i].clone());
            proof {
                assert(strs(out@) =~= strs(before).push(v@[i as int]@));
            }
        }
        i = i + 1;
    }
    proof {
        assert(strs(v@).take(v@.len() as int) =~= strs(v@));
    }
    out
}

impl SpiceModelType {
    /// Bind a checked call to the text of its model file: the sub-circuit
    /// must exist, take as many nets as given, and have exactly the given
    /// arguments as its parameters.
    pub fn bind(call: SpiceCall, contents: String) -> (r: Result<SpiceModelValueGen<LangValue>, String>)
        requires
            call.args.wf(),
        ensures
            match spice_bind_error(contents@, call.name@, call.nets@.len(), call.args@, call.args.key_order()) {
                Some(m) => r matches Err(e) && e@ == m,
                None => r matches Ok(v) && v.definition@ == contents@ && v.name@ == call.name@ && v.nets@
                    == call.nets@ && v.args == call.args,
            },
    {
        let circuit = get_sub_circuit(contents.as_str(), call.name.as_str())?;
        if call.nets.len() != circuit.nets.len() {
            let mut m = concat("Expected ", decimal_text(circuit.nets.len() as u128).as_str());
            m.append(" nets, ");
            m.append(decimal_text(call.nets.len() as u128).as_str());
            m.append(" provided");
            return Err(m);
        }
        let keys = call.args.keys();
        let missing = filter_by(&circuit.params, &keys, false);
        proof {
            let ps = strs(circuit.params@);
            assert(strs(keys@) == call.args.key_order());
            assert forall|p: Seq<char>| strs(keys@).contains(p) == call.args@.contains_key(p) by {
                call.args.lemma_key_order_contains(p);
            }
            assert((|x: Seq<char>| strs(keys@).contains(x) == false) =~= (|p: Seq<char>|
                !call.args@.contains_key(p)));
            assert(strs(missing@) == ps.filter(|p: Seq<char>| !call.args@.contains_key(p)));
        }
        if missing.len() > 0 {
            let mut m = concat("Required argument(s) ", debug_strings(&missing).as_str());
            m.append(" not provided");
            return Err(m);
        }
        let unexpected = filter_by(&keys, &circuit.params, false);
        proof {
            let ps = strs(circuit.params@);
            assert((|x: Seq<char>| ps.contains(x) == false) =~= (|a: Seq<char>| !ps.contains(a)));
            assert(strs(unexpected@) == call.args.key_order().filter(|a: Seq<char>| !ps.contains(a)));
        }
        if unexpected.len() > 0 {
            let mut m = concat("Unexpected argument(s) ", debug_strings(&unexpected).as_str());
            m.append(" ");
            return Err(m);
        }
        Ok(SpiceModelValueGen { definition: contents, name: call.name, nets: call.nets, args: call.args })
    }
}

} // verus!
