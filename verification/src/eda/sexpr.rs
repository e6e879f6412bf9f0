//! S-expressions as read by the `sexp` crate, held as plain values.
use vstd::prelude::*;

verus! {

/// An atom of an s-expression. A floating-point atom carries no value here:
/// nothing in the symbol logic reads one.
#[derive(Debug, Clone)]
pub enum SAtom {
    S(String),
    I(i64),
    F,
}

/// An s-expression: an atom or a list of s-expressions.
#[derive(Debug)]
pub enum SExpr {
    Atom(SAtom),
    List(Vec<SExpr>),
}

#[verifier::external_type_specification]
#[verifier::external_body]
pub struct ExSexp(sexp::Sexp);

/// What `sexp::parse` gives for a text: the tree, or the error's message.
pub uninterp spec fn sexp_parse(text: Seq<char>) -> Result<SExpr, Seq<char>>;

/// Converts a tree of the `sexp` crate into an `SExpr`, node for node.
#[verifier::external_body]
fn sexp_tree(s: sexp::Sexp) -> SExpr {
    match s {
        sexp::Sexp::Atom(sexp::Atom::S(x)) => SExpr::Atom(SAtom::S(x)),
        sexp::Sexp::Atom(sexp::Atom::I(i)) => SExpr::Atom(SAtom::I(i)),
        sexp::Sexp::Atom(sexp::Atom::F(_)) => SExpr::Atom(SAtom::F),
        sexp::Sexp::List(v) => SExpr::List(v.into_iter().map(sexp_tree).collect()),
    }
}

/// `sexp::parse`: reads one s-expression from the text. Its result depends on
/// the text alone; it is named `sexp_parse` and not described further.
#[verifier::external_body]
pub(crate) fn parse_text(text: &str) -> (r: Result<SExpr, String>)
    ensures
        match r {
            Ok(e) => sexp_parse(text@) == Ok::<SExpr, Seq<char>>(e),
            Err(m) => sexp_parse(text@) == Err::<SExpr, Seq<char>>(m@),
        },
{
    match sexp::parse(text) {
        Ok(s) => Ok(sexp_tree(s)),
        Err(e) => Err(e.to_string()),
    }
}

/// The string of a string atom.
pub open spec fn atom_str(e: SExpr) -> Option<Seq<char>> {
    match e {
        SExpr::Atom(SAtom::S(s)) => Some(s@),
        _ => None,
    }
}

/// The items of a list.
pub open spec fn list_items(e: SExpr) -> Option<Seq<SExpr>> {
    match e {
        SExpr::List(v) => Some(v@),
        _ => None,
    }
}

/// The string atom at position `i` of a list of items.
pub open spec fn str_at(items: Seq<SExpr>, i: int) -> Option<Seq<char>> {
    if 0 <= i < items.len() {
        atom_str(items[i])
    } else {
        None
    }
}

/// The string of a string atom.
pub fn as_str_atom(e: &SExpr) -> (r: Option<&String>)
    ensures
        match r {
            Some(s) => atom_str(*e) == Some(s@),
            None => atom_str(*e) is None,
        },
{
    match e {
        SExpr::Atom(SAtom::S(s)) => Some(s),
        _ => None,
    }
}

/// The string atom at position `i`.
pub fn str_item(items: &[SExpr], i: usize) -> (r: Option<&String>)
    ensures
        match r {
            Some(s) => str_at(items@, i as int) == Some(s@),
            None => str_at(items@, i as int) is None,
        },
{
    if i < items.len() {
        as_str_atom(&items[i])
    } else {
        None
    }
}

} // verus!
