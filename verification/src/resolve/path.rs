//! Lexical path normalization: `.` and `..` components resolved without the file system.
use vstd::prelude::*;
use vstd::string::*;

use crate::text::{concat, str_eq, substring};

verus! {

/// The pieces of a path between its `/` separators (empty pieces included).
pub open spec fn split_on_slash(s: Seq<char>) -> Seq<Seq<char>>
    decreases s.len(),
{
    if s.len() == 0 {
        seq![Seq::empty()]
    } else {
        let r = split_on_slash(s.drop_last());
        if s.last() == '/' {
            r.push(Seq::empty())
        } else {
            r.update(r.len() - 1, r.last().push(s.last()))
        }
    }
}

/// The effect of one piece on a normalized path (absolute flag, components):
/// empty and `.` pieces are skipped, `..` removes the last component when that
/// is a normal one (and is kept when there is none or the last is itself `..`),
/// any other piece is appended.
pub open spec fn norm_step(state: (bool, Seq<Seq<char>>), piece: Seq<char>) -> (bool, Seq<Seq<char>>) {
    if piece.len() == 0 || piece == seq!['.'] {
        state
    } else if piece == seq!['.', '.'] {
        if state.1.len() > 0 && state.1.last() != seq!['.', '.'] {
            (state.0, state.1.drop_last())
        } else {
            (state.0, state.1.push(piece))
        }
    } else {
        (state.0, state.1.push(piece))
    }
}

/// The effect of the pieces, in order.
pub open spec fn norm_fold(state: (bool, Seq<Seq<char>>), pieces: Seq<Seq<char>>) -> (bool, Seq<Seq<char>>)
    decreases pieces.len(),
{
    if pieces.len() == 0 {
        state
    } else {
        norm_step(norm_fold(state, pieces.drop_last()), pieces.last())
    }
}

/// The components joined by `/`.
pub open spec fn join_slash(comps: Seq<Seq<char>>) -> Seq<char>
    decreases comps.len(),
{
    if comps.len() == 0 {
        Seq::empty()
    } else if comps.len() == 1 {
        comps[0]
    } else {
        join_slash(comps.drop_last()) + seq!['/'] + comps.last()
    }
}

/// The normalized form of a path: a leading `/` when it is absolute, then its
/// remaining components joined by `/`.
pub open spec fn normalized(s: Seq<char>) -> Seq<char> {
    let st = norm_fold((s.len() > 0 && s[0] == '/', Seq::empty()), split_on_slash(s));
    (if st.0 { seq!['/'] } else { Seq::empty() }) + join_slash(st.1)
}

fn apply_piece(abs: bool, comps: &mut Vec<String>, piece: String, Ghost(cv): Ghost<Seq<Seq<char>>>)
    requires
        old(comps)@.map_values(|c: String| c@) == cv,
    ensures
        final(comps)@.map_values(|c: String| c@) == norm_step((abs, cv), piece@).1,
{
    let ghost before = comps@;
    proof {
        reveal_strlit(".");
        reveal_strlit("..");
        assert("."@ =~= seq!['.']);
        assert(".."@ =~= seq!['.', '.']);
    }
    if piece.as_str().unicode_len() == 0 || str_eq(piece.as_str(), ".") {
    } else if str_eq(piece.as_str(), "..") {
        let poppable = comps.len() > 0 && !str_eq(comps[comps.len() - 1].as_str(), "..");
        proof {
            if comps@.len() > 0 {
                assert(cv.last() == comps@[comps@.len() - 1]@);
            }
        }
        if poppable {
            comps.pop();
            proof {
                assert(comps@.map_values(|c: String| c@) =~= cv.drop_last());
            }
        } else {
            let ghost pv = piece@;
            comps.push(piece);
            proof {
                assert(pv =~= seq!['.', '.']);
                assert(comps@.map_values(|c: String| c@) =~= cv.push(seq!['.', '.']));
            }
        }
    } else {
        let ghost pv = piece@;
        comps.push(piece);
        proof {
            assert(comps@.map_values(|c: String| c@) =~= cv.push(pv));
        }
    }
}

/// Normalize a path by resolving `..` and `.` components.
pub fn normalize_path(path: &str) -> (r: String)
    ensures
        r@ == normalized(path@),
{
    let n = path.unicode_len();
    let abs = n > 0 && path.get_char(0) == '/';
    let mut comps: Vec<String> = Vec::new();
    let mut start: usize = 0;
    let mut i: usize = 0;
    let ghost mut done: Seq<Seq<char>> = Seq::empty();
    proof {
        assert(path@.take(0) =~= Seq::<char>::empty());
        assert(split_on_slash(path@.take(0)) =~= done.push(path@.subrange(0, 0)));
    }
    while i < n
        invariant
            n == path@.len(),
            abs == (path@.len() > 0 && path@[0] == '/'),
            start <= i <= n,
            split_on_slash(path@.take(i as int)) == done.push(path@.subrange(start as int, i as int)),
            comps@.map_values(|c: String| c@) == norm_fold((abs, Seq::empty()), done).1,
        decreases n - i,
    {
        let c = path.get_char(i);
        proof {
            assert(path@.take(i + 1).drop_last() =~= path@.take(i as int));
            assert(path@.take(i + 1).last() == c);
        }
        if c == '/' {
            let piece = substring(path, start, i);
            let ghost cv = comps@.map_values(|c: String| c@);
            apply_piece(abs, &mut comps, piece, Ghost(cv));
            proof {
                let nd = done.push(path@.subrange(start as int, i as int));
                assert(nd.drop_last() =~= done);
                assert(norm_fold((abs, Seq::empty()), nd) == norm_step(norm_fold((abs, Seq::empty()), done), nd.last()));
                assert(norm_fold((abs, Seq::empty()), done).0 == abs) by {
                    lemma_norm_fold_abs(abs, done);
                }
                done = nd;
                assert(path@.subrange(i + 1, i + 1) =~= Seq::<char>::empty());
                assert(split_on_slash(path@.take(i + 1)) =~= done.push(path@.subrange(i + 1, i + 1)));
            }
            start = i + 1;
        } else {
            proof {
                let r = split_on_slash(path@.take(i as int));
                assert(path@.subrange(start as int, i as int).push(c) =~= path@.subrange(start as int, i + 1));
                assert(r.update(r.len() - 1, r.last().push(c)) =~= done.push(path@.subrange(start as int, i + 1)));
            }
        }
        i = i + 1;
    }
    let piece = substring(path, start, n);
    let ghost cv = comps@.map_values(|c: String| c@);
    apply_piece(abs, &mut comps, piece, Ghost(cv));
    proof {
        let nd = done.push(path@.subrange(start as int, n as int));
        assert(path@.take(n as int) =~= path@);
        assert(nd.drop_last() =~= done);
        lemma_norm_fold_abs(abs, done);
        lemma_norm_fold_abs(abs, nd);
    }
    let ghost cs = comps@.map_values(|c: String| c@);
    let joined = join_all(&comps);
    if abs {
        proof {
            reveal_strlit("/");
        }
        concat("/", joined.as_str())
    } else {
        proof {
            assert(joined@ =~= Seq::<char>::empty() + joined@);
        }
        joined
    }
}

proof fn lemma_norm_fold_abs(abs: bool, pieces: Seq<Seq<char>>)
    ensures
        norm_fold((abs, Seq::empty()), pieces).0 == abs,
    decreases pieces.len(),
{
    if pieces.len() > 0 {
        lemma_norm_fold_abs(abs, pieces.drop_last());
    }
}

/// The components joined by `/`.
fn join_all(comps: &Vec<String>) -> (r: String)
    ensures
        r@ == join_slash(comps@.map_values(|c: String| c@)),
{
    let ghost cv = comps@.map_values(|c: String| c@);
    let mut out = String::new();
    let mut i: usize = 0;
    proof {
        reveal_strlit("/");
        assert("/"@ =~= seq!['/']);
        assert(cv.take(0) =~= Seq::<Seq<char>>::empty());
    }
    while i < comps.len()
        invariant
            cv == comps@.map_values(|c: String| c@),
            i <= comps@.len(),
            out@ == join_slash(cv.take(i as int)),
            "/"@ == seq!['/'],
        decreases comps@.len() - i,
    {
        proof {
            assert(cv.take(i + 1).drop_last() =~= cv.take(i as int));
            assert(cv.take(i + 1).last() == comps@[i as int]@);
        }
        if i > 0 {
            out.append("/");
        }
        out.append(comps[i].as_str());
        proof {
            if i == 0 {
                assert(out@ =~= cv.take(1)[0]);
            } else {
                assert(out@ =~= join_slash(cv.take(i as int)) + seq!['/'] + cv.take(i + 1).last());
            }
        }
        i = i + 1;
    }
    proof {
        assert(cv.take(comps@.len() as int) =~= cv);
    }
    out
}


proof fn lemma_split_no_slash(s: Seq<char>)
    ensures
        split_on_slash(s).len() >= 1,
        forall|i: int, k: int|
            0 <= i < split_on_slash(s).len() && 0 <= k < split_on_slash(s)[i].len() ==> #[trigger] split_on_slash(
                s,
            )[i][k] != '/',
    decreases s.len(),
{
    if s.len() > 0 {
        lemma_split_no_slash(s.drop_last());
        let r = split_on_slash(s.drop_last());
        if s.last() != '/' {
            let u = r.update(r.len() - 1, r.last().push(s.last()));
            assert forall|i: int, k: int| 0 <= i < u.len() && 0 <= k < u[i].len() implies #[trigger] u[i][k] != '/' by {
                if i == r.len() - 1 {
                    if k < r.last().len() {
                        assert(u[i][k] == r[i][k]);
                    }
                } else {
                    assert(u[i] == r[i]);
                }
            }
        } else {
            let u = r.push(Seq::<char>::empty());
            assert forall|i: int, k: int| 0 <= i < u.len() && 0 <= k < u[i].len() implies #[trigger] u[i][k] != '/' by {
                assert(u[i] == r[i]);
            }
        }
    }
}

/// Components left by the pieces: each is non-empty and holds no `/`.
pub open spec fn clean_components(c: Seq<Seq<char>>) -> bool {
    forall|i: int| 0 <= i < c.len() ==> (#[trigger] c[i]).len() > 0 && c[i][0] != '/'
}

proof fn lemma_fold_clean(abs: bool, pieces: Seq<Seq<char>>)
    requires
        forall|i: int, k: int| 0 <= i < pieces.len() && 0 <= k < pieces[i].len() ==> #[trigger] pieces[i][k] != '/',
    ensures
        clean_components(norm_fold((abs, Seq::empty()), pieces).1),
    decreases pieces.len(),
{
    if pieces.len() > 0 {
        let d = pieces.drop_last();
        assert forall|i: int, k: int| 0 <= i < d.len() && 0 <= k < d[i].len() implies #[trigger] d[i][k] != '/' by {
            assert(d[i] == pieces[i]);
        }
        lemma_fold_clean(abs, d);
        let st = norm_fold((abs, Seq::empty()), d);
        let p = pieces.last();
        if p.len() > 0 {
            assert(p[0] == pieces[pieces.len() - 1][0]);
        }
        let c2 = norm_step(st, p).1;
        assert forall|i: int| 0 <= i < c2.len() implies (#[trigger] c2[i]).len() > 0 && c2[i][0] != '/' by {
            if i < st.1.len() {
                assert(c2[i] == st.1[i]);
            }
        }
    }
}

proof fn lemma_join_slash_first(comps: Seq<Seq<char>>)
    requires
        comps.len() > 0,
        comps[0].len() > 0,
    ensures
        join_slash(comps).len() > 0,
        join_slash(comps)[0] == comps[0][0],
    decreases comps.len(),
{
    if comps.len() > 1 {
        lemma_join_slash_first(comps.drop_last());
    }
}

/// A path that does not start with `/` normalizes to a path that does not
/// either: normalizing never makes a relative path absolute.
pub proof fn lemma_normalized_relative(s: Seq<char>)
    requires
        !(s.len() > 0 && s[0] == '/'),
    ensures
        !(normalized(s).len() > 0 && normalized(s)[0] == '/'),
{
    lemma_split_no_slash(s);
    lemma_fold_clean(false, split_on_slash(s));
    lemma_norm_fold_abs(false, split_on_slash(s));
    let comps = norm_fold((false, Seq::empty()), split_on_slash(s)).1;
    assert(normalized(s) =~= join_slash(comps));
    if comps.len() > 0 {
        lemma_join_slash_first(comps);
    }
}

} // verus!
