//! Where the package aliases of a file come from: the pcb.toml files in the
//! file's ancestors that lie under the alias root (the workspace root, or the
//! repository root for a file of a remote package).
use vstd::prelude::*;
use vstd::string::*;

use crate::config::{join_path, path_join};
use crate::text::{has_prefix, starts_with, substring};

verus! {

/// The position of the last `/` of a path.
pub open spec fn last_slash(p: Seq<char>) -> Option<int>
    decreases p.len(),
{
    if p.len() == 0 {
        None
    } else if p.last() == '/' {
        Some(p.len() - 1)
    } else {
        last_slash(p.drop_last())
    }
}

pub proof fn lemma_last_slash(p: Seq<char>)
    ensures
        last_slash(p) matches Some(i) ==> 0 <= i < p.len() && p[i] == '/' && forall|k: int|
            i < k < p.len() ==> p[k] != '/',
        last_slash(p) is None ==> forall|k: int| 0 <= k < p.len() ==> p[k] != '/',
    decreases p.len(),
{
    if p.len() > 0 && p.last() != '/' {
        lemma_last_slash(p.drop_last());
        assert forall|k: int| 0 <= k < p.len() - 1 implies p.drop_last()[k] == p[k] by {}
        assert(p[p.len() - 1] != '/');
    }
}

/// The directory above a path: the text before its last `/`, or `/` for a
/// top-level absolute path; none for `/` itself and for a path without `/`.
pub open spec fn parent_of(p: Seq<char>) -> Option<Seq<char>> {
    match last_slash(p) {
        None => None,
        Some(i) => if i == 0 {
            if p.len() > 1 {
                Some(seq!['/'])
            } else {
                None
            }
        } else {
            Some(p.take(i))
        },
    }
}

/// `p` is `root` or lies below it, comparing whole components.
pub open spec fn under_root(p: Seq<char>, root: Seq<char>) -> bool {
    &&& has_prefix(p, root)
    &&& (p.len() == root.len() || (root.len() > 0 && root.last() == '/') || p[root.len() as int] == '/')
}

/// `p` and each directory above it, from `p` upward, as long as they lie under `root`.
pub open spec fn ancestors_under(p: Seq<char>, root: Seq<char>) -> Seq<Seq<char>>
    decreases p.len(),
{
    if !under_root(p, root) {
        Seq::empty()
    } else {
        match parent_of(p) {
            None => seq![p],
            Some(q) => {
                proof {
                    lemma_last_slash(p);
                }
                seq![p] + ancestors_under(q, root)
            },
        }
    }
}

/// The pcb.toml files that may hold aliases for `file`: one in each of its
/// ancestors under `root`, the deepest first.
pub open spec fn alias_toml_paths(file: Seq<char>, root: Seq<char>) -> Seq<Seq<char>> {
    ancestors_under(file, root).map_values(|a: Seq<char>| path_join(a, "pcb.toml"@))
}

/// The root of the repository a remote file was fetched into: `up` directories
/// above the file, where `up` is the number of components of its path in the package.
pub open spec fn up_dirs(p: Seq<char>, up: nat) -> Seq<char>
    decreases up,
{
    if up == 0 {
        p
    } else {
        match parent_of(p) {
            None => Seq::empty(),
            Some(q) => up_dirs(q, (up - 1) as nat),
        }
    }
}

/// The number of non-empty components of a path.
pub open spec fn component_count(p: Seq<char>) -> nat
    decreases p.len(),
{
    if p.len() == 0 {
        0
    } else {
        let before = component_count(p.drop_last());
        if p.last() != '/' && (p.len() == 1 || p[p.len() - 2] == '/') {
            before + 1
        } else {
            before
        }
    }
}

fn last_slash_of(p: &str) -> (r: Option<usize>)
    ensures
        match r {
            Some(i) => last_slash(p@) == Some(i as int),
            None => last_slash(p@) is None,
        },
{
    let mut i = p.unicode_len();
    proof {
        assert(p@.take(i as int) =~= p@);
    }
    while i > 0
        invariant
            i <= p@.len(),
            last_slash(p@) == last_slash(p@.take(i as int)),
        decreases i,
    {
        proof {
            assert(p@.take(i as int).drop_last() =~= p@.take(i - 1));
            assert(p@.take(i as int).last() == p@[i - 1]);
        }
        if p.get_char(i - 1) == '/' {
            return Some(i - 1);
        }
        i = i - 1;
    }
    None
}

/// The directory above a path, as `parent_of` says.
pub fn parent_dir(p: &str) -> (r: Option<String>)
    ensures
        match r {
            Some(q) => parent_of(p@) == Some(q@),
            None => parent_of(p@) is None,
        },
{
    proof {
        lemma_last_slash(p@);
    }
    match last_slash_of(p) {
        None => None,
        Some(i) => {
            if i == 0 {
                if p.unicode_len() > 1 {
                    proof {
                        reveal_strlit("/");
                        assert("/"@ =~= seq!['/']);
                    }
                    Some("/".to_owned())
                } else {
                    None
                }
            } else {
                let q = substring(p, 0, i);
                proof {
                    assert(q@ =~= p@.take(i as int));
                }
                Some(q)
            }
        },
    }
}

/// Whether `p` is `root` or lies below it.
pub fn is_under_root(p: &str, root: &str) -> (b: bool)
    ensures
        b == under_root(p@, root@),
{
    if !starts_with(p, root) {
        return false;
    }
    let n = p.unicode_len();
    let m = root.unicode_len();
    n == m || (m > 0 && root.get_char(m - 1) == '/') || p.get_char(m) == '/'
}

/// The pcb.toml files that may hold aliases for `file`, the deepest first.
pub fn alias_toml_candidates(file: &str, root: &str) -> (r: Vec<String>)
    ensures
        r@.map_values(|s: String| s@) == alias_toml_paths(file@, root@),
{
    let mut out: Vec<String> = Vec::new();
    let mut cur = file.to_owned();
    let ghost mut done: Seq<Seq<char>> = Seq::empty();
    proof {
        reveal_strlit("pcb.toml");
    }
    loop
        invariant
            done + ancestors_under(cur@, root@) == ancestors_under(file@, root@),
            out@.map_values(|s: String| s@) == done.map_values(|a: Seq<char>| path_join(a, "pcb.toml"@)),
        decreases cur@.len(),
    {
        if !is_under_root(cur.as_str(), root) {
            proof {
                assert(done + ancestors_under(cur@, root@) =~= done);
            }
            return out;
        }
        let joined = join_path(cur.as_str(), "pcb.toml");
        let ghost before = out@.map_values(|s: String| s@);
        out.push(joined);
        proof {
            assert(out@.map_values(|s: String| s@) =~= before.push(path_join(cur@, "pcb.toml"@)));
            assert(done.push(cur@).map_values(|a: Seq<char>| path_join(a, "pcb.toml"@)) =~= done.map_values(
                |a: Seq<char>| path_join(a, "pcb.toml"@),
            ).push(path_join(cur@, "pcb.toml"@)));
            lemma_last_slash(cur@);
        }
        match parent_dir(cur.as_str()) {
            None => {
                proof {
                    assert(done + ancestors_under(cur@, root@) =~= done.push(cur@));
                    done = done.push(cur@);
                }
                return out;
            },
            Some(q) => {
                proof {
                    assert(done + ancestors_under(cur@, root@) =~= done.push(cur@) + ancestors_under(q@, root@));
                    done = done.push(cur@);
                }
                cur = q;
            },
        }
    }
}

/// The directory `up` levels above `p` (empty when there is none).
pub fn up_directories(p: &str, up: usize) -> (r: String)
    ensures
        r@ == up_dirs(p@, up as nat),
{
    let mut cur = p.to_owned();
    let mut k: usize = 0;
    while k < up
        invariant
            k <= up,
            up_dirs(p@, up as nat) == up_dirs(cur@, (up - k) as nat),
        decreases up - k,
    {
        match parent_dir(cur.as_str()) {
            None => {
                return String::new();
            },
            Some(q) => {
                cur = q;
            },
        }
        k = k + 1;
    }
    cur
}

/// The number of non-empty components of a path.
pub fn count_components(p: &str) -> (n: usize)
    ensures
        n == component_count(p@),
{
    let len = p.unicode_len();
    let mut n: usize = 0;
    let mut i: usize = 0;
    proof {
        assert(p@.take(0) =~= Seq::<char>::empty());
    }
    while i < len
        invariant
            len == p@.len(),
            i <= len,
            n == component_count(p@.take(i as int)),
            n <= i,
        decreases len - i,
    {
        proof {
            assert(p@.take(i + 1).drop_last() =~= p@.take(i as int));
            assert(p@.take(i + 1).last() == p@[i as int]);
            if i > 0 {
                assert(p@.take(i + 1)[i - 1] == p@[i - 1]);
            }
        }
        let c = p.get_char(i);
        if c != '/' && (i == 0 || p.get_char(i - 1) == '/') {
            n = n + 1;
        }
        i = i + 1;
    }
    proof {
        assert(p@.take(len as int) =~= p@);
    }
    n
}

} // verus!
