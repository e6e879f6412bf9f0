//! Workspace configuration (`pcb.toml`) and board discovery.
use globset::{Glob, GlobSet, GlobSetBuilder};
use vstd::prelude::*;

use crate::strmap::StrMap;
use crate::text::{
    concat, ends_with, eq_ignore_ascii, eq_ignore_ascii_case, has_suffix, lemma_seq_lt_asymmetric,
    lemma_seq_lt_irreflexive, lemma_seq_lt_total, lemma_seq_lt_transitive, seq_lt, str_eq, str_less,
    substring,
};

verus! {

/// Configuration for the `[workspace]` section.
#[derive(Debug, Clone)]
pub struct WorkspaceConfig {
    /// Optional workspace name
    pub name: Option<String>,
    /// Board directories or glob patterns; `["boards/*"]` when not given
    pub members: Vec<String>,
    /// Default board name to use
    pub default_board: Option<String>,
}

/// Configuration for the `[module]` section.
#[derive(Debug, Clone)]
pub struct ModuleConfig {
    pub name: String,
}

/// Configuration for the `[board]` section.
#[derive(Debug, Clone)]
pub struct BoardConfig {
    /// Board name
    pub name: String,
    /// Path to the .zen file for this board (relative to pcb.toml)
    pub path: String,
    /// Description of the board (empty when not given)
    pub description: String,
}

/// Complete representation of a pcb.toml configuration file.
#[derive(Debug)]
pub struct PcbToml {
    pub workspace: Option<WorkspaceConfig>,
    pub module: Option<ModuleConfig>,
    pub board: Option<BoardConfig>,
    /// Package aliases
    pub packages: StrMap<String>,
}

/// A discovered board.
#[derive(Debug, Clone)]
pub struct BoardInfo {
    /// Board name
    pub name: String,
    /// Path to the .zen file (relative to workspace root)
    pub zen_path: String,
    /// Board description
    pub description: String,
}

impl View for BoardInfo {
    type V = (Seq<char>, Seq<char>, Seq<char>);

    open spec fn view(&self) -> (Seq<char>, Seq<char>, Seq<char>) {
        (self.name@, self.zen_path@, self.description@)
    }
}

/// A problem met during board discovery.
#[derive(Debug, Clone)]
pub struct DiscoveryError {
    pub path: String,
    pub error: String,
}

impl View for DiscoveryError {
    type V = (Seq<char>, Seq<char>);

    open spec fn view(&self) -> (Seq<char>, Seq<char>) {
        (self.path@, self.error@)
    }
}

/// Result of board discovery with any errors encountered.
#[derive(Debug)]
pub struct DiscoveryResult {
    pub boards: Vec<BoardInfo>,
    pub errors: Vec<DiscoveryError>,
}

/// Workspace information with discovered boards.
#[derive(Debug)]
pub struct WorkspaceInfo {
    /// Workspace root directory
    pub root: String,
    /// Workspace configuration if present
    pub config: Option<WorkspaceConfig>,
    /// All discovered boards
    pub boards: Vec<BoardInfo>,
    /// Discovery errors
    pub errors: Vec<DiscoveryError>,
}

impl PcbToml {
    /// Check if this configuration represents a workspace.
    pub fn is_workspace(&self) -> (b: bool)
        ensures
            b == self.workspace is Some,
    {
        self.workspace.is_some()
    }

    /// Check if this configuration represents a module.
    pub fn is_module(&self) -> (b: bool)
        ensures
            b == self.module is Some,
    {
        self.module.is_some()
    }

    /// Check if this configuration represents a board.
    pub fn is_board(&self) -> (b: bool)
        ensures
            b == self.board is Some,
    {
        self.board.is_some()
    }
}

/// `rel` appended to `base` as a path: an absolute `rel` replaces `base`, and a
/// separator is added between them when `base` is not empty and does not end in one.
pub open spec fn path_join(base: Seq<char>, rel: Seq<char>) -> Seq<char> {
    if rel.len() > 0 && rel[0] == '/' {
        rel
    } else if base.len() == 0 || base.last() == '/' {
        base + rel
    } else {
        base + seq!['/'] + rel
    }
}

/// Join two paths.
pub fn join_path(base: &str, rel: &str) -> (r: String)
    ensures
        r@ == path_join(base@, rel@),
{
    let n = base.unicode_len();
    let m = rel.unicode_len();
    if m > 0 && rel.get_char(0) == '/' {
        rel.to_owned()
    } else if n == 0 || base.get_char(n - 1) == '/' {
        concat(base, rel)
    } else {
        let mut s = concat(base, "/");
        proof {
            reveal_strlit("/");
        }
        s.append(rel);
        s
    }
}

impl BoardInfo {
    /// The board's .zen file under the workspace root.
    pub fn absolute_zen_path(&self, workspace_root: &str) -> (r: String)
        ensures
            r@ == path_join(workspace_root@, self.zen_path@),
    {
        join_path(workspace_root, self.zen_path.as_str())
    }
}

/// The member patterns used when the workspace names none.
pub fn default_members() -> (r: Vec<String>)
    ensures
        r@.len() == 1,
        r@[0]@ == "boards/*"@,
{
    let mut v = Vec::new();
    v.push("boards/*".to_owned());
    v
}

/// The glob patterns that select board directories: each member pattern, and
/// for one ending in `/*` also the pattern without that suffix.
pub open spec fn glob_patterns(members: Seq<Seq<char>>) -> Seq<Seq<char>>
    decreases members.len(),
{
    if members.len() == 0 {
        Seq::empty()
    } else {
        let prev = glob_patterns(members.drop_last());
        let p = members.last();
        if has_suffix(p, "/*"@) {
            prev.push(p).push(p.subrange(0, p.len() - 2))
        } else {
            prev.push(p)
        }
    }
}

/// The members a workspace configuration names, or the default.
pub open spec fn members_of(config: Option<WorkspaceConfig>) -> Seq<Seq<char>> {
    match config {
        Some(c) => c.members@.map_values(|m: String| m@),
        None => seq!["boards/*"@],
    }
}

/// The glob patterns for a workspace configuration.
pub fn member_patterns(config: &Option<WorkspaceConfig>) -> (r: Vec<String>)
    ensures
        r@.map_values(|p: String| p@) == glob_patterns(members_of(*config)),
{
    let members = match config {
        Some(c) => c.members.clone(),
        None => default_members(),
    };
    let ghost mv = members_of(*config);
    proof {
        match config {
            Some(c) => {
                assert forall|k: int| 0 <= k < members@.len() implies members@[k]@ == c.members@[k]@ by {
                    assert(cloned::<String>(c.members@[k], members@[k]));
                }
                assert(members@.map_values(|m: String| m@) =~= mv);
            },
            None => {
                assert(members@.map_values(|m: String| m@) =~= mv);
            },
        }
    }
    let mut out: Vec<String> = Vec::new();
    let mut i: usize = 0;
    proof {
        assert(mv.take(0) =~= Seq::<Seq<char>>::empty());
    }
    while i < members.len()
        invariant
            mv == members@.map_values(|m: String| m@),
            i <= members@.len(),
            out@.map_values(|p: String| p@) == glob_patterns(mv.take(i as int)),
        decreases members@.len() - i,
    {
        let p = members[i].as_str();
        proof {
            assert(mv.take(i + 1).drop_last() =~= mv.take(i as int));
            assert(mv.take(i + 1).last() == p@);
        }
        let ghost before = out@.map_values(|p: String| p@);
        out.push(p.to_owned());
        if ends_with(p, "/*") {
            let n = p.unicode_len();
            proof {
                reveal_strlit("/*");
            }
            out.push(substring(p, 0, n - 2));
            proof {
                assert(out@.map_values(|p: String| p@) =~= before.push(p@).push(p@.subrange(0, p@.len() - 2)));
            }
        } else {
            proof {
                assert(out@.map_values(|p: String| p@) =~= before.push(p@));
            }
        }
        i = i + 1;
    }
    proof {
        assert(mv.take(members@.len() as int) =~= mv);
    }
    out
}

#[verifier::external_type_specification]
#[verifier::external_body]
pub struct ExGlobSet(GlobSet);

/// Whether globset, given `patterns` (each compiled with `Glob::new`), finds
/// `path` matched by one of them. It depends on the patterns and the path alone.
pub uninterp spec fn globs_match(patterns: Seq<Seq<char>>, path: Seq<char>) -> bool;

/// The message of the error that compiling `patterns` into a globset gives
/// (`Glob::new` on each, then `GlobSetBuilder::build`), or none when they
/// compile. It depends on the patterns alone.
pub uninterp spec fn glob_compile_error(patterns: Seq<Seq<char>>) -> Option<Seq<char>>;

/// The glob patterns that select workspace members, compiled into one set.
pub struct MemberGlobs {
    patterns: Vec<String>,
    set: GlobSet,
}

impl MemberGlobs {
    /// The patterns the set was compiled from.
    pub closed spec fn pattern_view(&self) -> Seq<Seq<char>> {
        self.patterns@.map_values(|p: String| p@)
    }
}

/// Compiles patterns into a `GlobSet` with `Glob::new`, `GlobSetBuilder::add`
/// and `GlobSetBuilder::build`; a pattern that does not parse, or a set that
/// does not build, gives the error's message. Nothing is stated of the set:
/// `MemberGlobs` keeps it together with the patterns it was compiled from.
/// Whether it compiles, and the message when it does not, are named
/// `glob_compile_error` of the patterns.
#[verifier::external_body]
fn compile_globs(patterns: &Vec<String>) -> (r: Result<GlobSet, String>)
    ensures
        r is Ok <==> glob_compile_error(patterns@.map_values(|p: String| p@)) is None,
        r matches Err(e) ==> glob_compile_error(patterns@.map_values(|p: String| p@)) == Some(e@),
{
    let mut builder = GlobSetBuilder::new();
    for p in patterns {
        match Glob::new(p) {
            Ok(g) => {
                builder.add(g);
            },
            Err(e) => return Err(e.to_string()),
        }
    }
    builder.build().map_err(|e| e.to_string())
}

/// `GlobSet::is_match` on the set of `globs`, which was compiled from
/// `globs`'s patterns: whether one of them matches the path, named
/// `globs_match` of the patterns and the path.
#[verifier::external_body]
fn set_matches(globs: &MemberGlobs, path: &str) -> (b: bool)
    ensures
        b == globs_match(globs.pattern_view(), path@),
{
    globs.set.is_match(path)
}

/// The member globs of a workspace configuration: the patterns of
/// `member_patterns`, compiled; the error of the first that does not compile.
pub fn member_globs(config: &Option<WorkspaceConfig>) -> (r: Result<MemberGlobs, String>)
    ensures
        r is Ok <==> glob_compile_error(glob_patterns(members_of(*config))) is None,
        r matches Ok(g) ==> g.pattern_view() == glob_patterns(members_of(*config)),
        r matches Err(e) ==> glob_compile_error(glob_patterns(members_of(*config))) == Some(e@),
{
    let patterns = member_patterns(config);
    match compile_globs(&patterns) {
        Ok(set) => Ok(MemberGlobs { patterns, set }),
        Err(e) => Err(e),
    }
}

/// The message for a board whose name is already taken (ignoring ASCII case).
pub open spec fn duplicate_text(name: Seq<char>, legacy: bool) -> Seq<char> {
    "Duplicate board name: '"@ + name + "'"@ + if legacy {
        " (legacy discovery)"@
    } else {
        Seq::empty()
    }
}

/// No two boards have names equal ignoring ASCII case.
pub open spec fn names_distinct(boards: Seq<BoardInfo>) -> bool {
    forall|i: int, j: int| 0 <= i < j < boards.len() ==> !eq_ignore_ascii(boards[i].name@, boards[j].name@)
}

/// The state of a board discovery: the boards found so far, the problems met,
/// and the directories whose pcb.toml described a board.
pub struct DiscoveryState {
    pub boards: Vec<BoardInfo>,
    pub errors: Vec<DiscoveryError>,
    pub visited: Vec<String>,
}

/// A `.zen` file name: it ends in `.zen` after at least one other character.
pub open spec fn is_zen_file(name: Seq<char>) -> bool {
    has_suffix(name, ".zen"@) && name.len() > 4
}

/// The `.zen` files among the names, in order.
pub open spec fn zen_files(names: Seq<Seq<char>>) -> Seq<Seq<char>>
    decreases names.len(),
{
    if names.len() == 0 {
        Seq::empty()
    } else if is_zen_file(names.last()) {
        zen_files(names.drop_last()).push(names.last())
    } else {
        zen_files(names.drop_last())
    }
}

/// The name of a legacy board: its file name without the `.zen` suffix.
pub open spec fn legacy_name(file: Seq<char>) -> Seq<char> {
    if has_suffix(file, ".zen"@) {
        file.subrange(0, file.len() - 4)
    } else {
        file
    }
}

/// Some board's name equals `name` ignoring ASCII case.
pub open spec fn name_taken(boards: Seq<BoardInfo>, name: Seq<char>) -> bool {
    exists|i: int| 0 <= i < boards.len() && eq_ignore_ascii(boards[i].name@, name)
}

impl DiscoveryState {
    /// The discovery invariant: board names are distinct ignoring ASCII case.
    pub open spec fn wf(&self) -> bool {
        names_distinct(self.boards@)
    }

    /// A discovery with nothing found yet.
    pub fn new() -> (s: Self)
        ensures
            s.wf(),
            s.boards@.len() == 0,
            s.errors@.len() == 0,
            s.visited@.len() == 0,
    {
        DiscoveryState { boards: Vec::new(), errors: Vec::new(), visited: Vec::new() }
    }

    /// Whether a directory (relative to the workspace root) is a workspace member.
    pub fn is_member_dir(&self, globs: &MemberGlobs, relative_path: &str) -> (b: bool)
        ensures
            b == globs_match(globs.pattern_view(), relative_path@),
    {
        set_matches(globs, relative_path)
    }

    /// Record a board, unless its name is taken (ignoring ASCII case): then record
    /// a duplicate error against `culprit_path` instead.
    pub fn insert_board(&mut self, board: BoardInfo, culprit_path: String, legacy: bool)
        requires
            old(self).wf(),
        ensures
            final(self).wf(),
            final(self).visited@ == old(self).visited@,
            (exists|i: int|
                0 <= i < old(self).boards@.len() && eq_ignore_ascii(old(self).boards@[i].name@, board.name@))
                ==> {
                &&& final(self).boards@ == old(self).boards@
                &&& final(self).errors@.len() == old(self).errors@.len() + 1
                &&& forall|k: int| 0 <= k < old(self).errors@.len() ==> final(self).errors@[k] == old(self).errors@[k]
                &&& final(self).errors@.last()@ == (culprit_path@, duplicate_text(board.name@, legacy))
            },
            !(exists|i: int|
                0 <= i < old(self).boards@.len() && eq_ignore_ascii(old(self).boards@[i].name@, board.name@))
                ==> final(self).boards@ == old(self).boards@.push(board) && final(self).errors@ == old(self).errors@,
    {
        let mut i: usize = 0;
        while i < self.boards.len()
            invariant
                self.wf(),
                self.boards@ == old(self).boards@,
                self.errors@ == old(self).errors@,
                self.visited@ == old(self).visited@,
                i <= self.boards@.len(),
                forall|k: int| 0 <= k < i ==> !eq_ignore_ascii(self.boards@[k].name@, board.name@),
            decreases self.boards@.len() - i,
        {
            if eq_ignore_ascii_case(self.boards[i].name.as_str(), board.name.as_str()) {
                let mut msg = concat("Duplicate board name: '", board.name.as_str());
                msg.append("'");
                if legacy {
                    msg.append(" (legacy discovery)");
                }
                proof {
                    reveal_strlit("'");
                    assert(msg@ =~= duplicate_text(board.name@, legacy));
                }
                self.errors.push(DiscoveryError { path: culprit_path, error: msg });
                return;
            }
            i = i + 1;
        }
        let ghost old_b = self.boards@;
        self.boards.push(board);
        proof {
            assert forall|a: int, b: int| 0 <= a < b < self.boards@.len() implies !eq_ignore_ascii(
                self.boards@[a].name@,
                self.boards@[b].name@,
            ) by {
                if b < old_b.len() {
                    assert(self.boards@[a] == old_b[a]);
                    assert(self.boards@[b] == old_b[b]);
                } else {
                    assert(self.boards@[a] == old_b[a]);
                    assert(self.boards@[b] == board);
                }
            }
        }
    }

    /// A member directory's pcb.toml was read (or failed to parse): a `[board]`
    /// section adds its board, with the .zen path made relative to the workspace root.
    pub fn add_member_toml(
        &mut self,
        dir: String,
        relative_path: &str,
        toml_path: String,
        parsed: Result<PcbToml, String>,
    )
        requires
            old(self).wf(),
        ensures
            final(self).wf(),
            match parsed {
                Err(e) => final(self).boards@ == old(self).boards@ && final(self).visited@ == old(self).visited@
                    && final(self).errors@.drop_last() == old(self).errors@
                    && final(self).errors@.len() == old(self).errors@.len() + 1 && final(self).errors@.last()@ == (
                    toml_path@,
                    "Failed to parse pcb.toml: "@ + e@,
                ),
                Ok(t) => match t.board {
                    None => final(self).boards@ == old(self).boards@ && final(self).errors@ == old(self).errors@
                        && final(self).visited@ == old(self).visited@,
                    Some(b) => {
                        &&& final(self).visited@.map_values(|d: String| d@) == old(self).visited@.map_values(
                            |d: String| d@,
                        ).push(dir@)
                        &&& if name_taken(old(self).boards@, b.name@) {
                            &&& final(self).boards@ == old(self).boards@
                            &&& final(self).errors@.len() == old(self).errors@.len() + 1
                            &&& final(self).errors@.drop_last() == old(self).errors@
                            &&& final(self).errors@.last()@ == (toml_path@, duplicate_text(b.name@, false))
                        } else {
                            &&& final(self).boards@.len() == old(self).boards@.len() + 1
                            &&& final(self).boards@.drop_last() == old(self).boards@
                            &&& final(self).boards@.last()@ == (b.name@, path_join(relative_path@, b.path@), b.description@)
                            &&& final(self).errors@ == old(self).errors@
                        }
                    },
                },
            },
    {
        match parsed {
            Ok(config) => {
                if let Some(board_config) = config.board {
                    let ghost old_v = self.visited@;
                    self.visited.push(dir);
                    proof {
                        assert(self.visited@.map_values(|d: String| d@) =~= old_v.map_values(|d: String| d@).push(
                            dir@,
                        ));
                    }
                    let zen_path = join_path(relative_path, board_config.path.as_str());
                    let board = BoardInfo {
                        name: board_config.name,
                        zen_path,
                        description: board_config.description,
                    };
                    self.insert_board(board, toml_path, false);
                }
            },
            Err(e) => {
                let msg = concat("Failed to parse pcb.toml: ", e.as_str());
                self.errors.push(DiscoveryError { path: toml_path, error: msg });
            },
        }
    }

    /// Whether a directory already described a board.
    pub fn is_visited(&self, dir: &str) -> (b: bool)
        ensures
            b == self.visited@.map_values(|d: String| d@).contains(dir@),
    {
        let mut i: usize = 0;
        while i < self.visited.len()
            invariant
                i <= self.visited@.len(),
                forall|k: int| 0 <= k < i ==> self.visited@[k]@ != dir@,
            decreases self.visited@.len() - i,
        {
            if str_eq(self.visited[i].as_str(), dir) {
                proof {
                    assert(self.visited@.map_values(|d: String| d@)[i as int] == dir@);
                }
                return true;
            }
            i = i + 1;
        }
        proof {
            let vv = self.visited@.map_values(|d: String| d@);
            if vv.contains(dir@) {
                let k = choose|k: int| 0 <= k < vv.len() && #[trigger] vv[k] == dir@;
                assert(self.visited@[k]@ == dir@);
            }
        }
        false
    }

    /// A directory directly under `boards/` holding the given file names: one with
    /// exactly one `.zen` file is a legacy board named after that file.
    pub fn add_legacy_dir(&mut self, relative_path: &str, file_names: &Vec<String>, dir_path: &str)
        requires
            old(self).wf(),
        ensures
            final(self).wf(),
            final(self).visited@ == old(self).visited@,
            zen_files(file_names@.map_values(|f: String| f@)).len() != 1 ==> final(self).boards@ == old(self).boards@ && final(self).errors@ == old(self).errors@,
            zen_files(file_names@.map_values(|f: String| f@)).len() == 1 ==> ({
                let f = zen_files(file_names@.map_values(|f: String| f@))[0];
                let name = legacy_name(f);
                if name_taken(old(self).boards@, name) {
                    &&& final(self).boards@ == old(self).boards@
                    &&& final(self).errors@.len() == old(self).errors@.len() + 1
                    &&& forall|k: int| 0 <= k < old(self).errors@.len() ==> final(self).errors@[k] == old(self).errors@[k]
                    &&& final(self).errors@.last()@ == (path_join(dir_path@, f), duplicate_text(name, true))
                } else {
                    &&& final(self).boards@.len() == old(self).boards@.len() + 1
                    &&& final(self).boards@.drop_last() == old(self).boards@
                    &&& final(self).boards@.last()@ == (name, path_join(relative_path@, f), Seq::<char>::empty())
                    &&& final(self).errors@ == old(self).errors@
                }
            }),
    {
        let ghost names = file_names@.map_values(|f: String| f@);
        let mut found: Vec<usize> = Vec::new();
        let mut i: usize = 0;
        proof {
            assert(names.take(0) =~= Seq::<Seq<char>>::empty());
            reveal_strlit(".zen");
        }
        while i < file_names.len()
            invariant
                names == file_names@.map_values(|f: String| f@),
                ".zen"@ == seq!['.', 'z', 'e', 'n'],
                i <= file_names@.len(),
                found@.len() == zen_files(names.take(i as int)).len(),
                forall|k: int| 0 <= k < found@.len() ==> #[trigger] found@[k] < file_names@.len(),
                forall|k: int| 0 <= k < found@.len() ==> file_names@[#[trigger] found@[k] as int]@ == zen_files(names.take(i as int))[k],
            decreases file_names@.len() - i,
        {
            proof {
                assert(names.take(i + 1).drop_last() =~= names.take(i as int));
                assert(names.take(i + 1).last() == file_names@[i as int]@);
            }
            let ghost z = zen_files(names.take(i as int));
            let ghost old_found = found@;
            let f = file_names[i].as_str();
            if ends_with(f, ".zen") && f.unicode_len() > 4 {
                found.push(i);
                proof {
                    assert(zen_files(names.take(i + 1)) == z.push(f@));
                    assert forall|k: int| 0 <= k < found@.len() implies file_names@[#[trigger] found@[k] as int]@ == zen_files(names.take(i + 1))[k] by {
                        if k < old_found.len() {
                            assert(found@[k] == old_found[k]);
                        }
                    }
                }
            } else {
                proof {
                    assert(zen_files(names.take(i + 1)) == z);
                }
            }
            i = i + 1;
        }
        proof {
            assert(names.take(file_names@.len() as int) =~= names);
        }
        if found.len() == 1 {
            let f = file_names[found[0]].as_str();
            let name = if ends_with(f, ".zen") {
                substring(f, 0, f.unicode_len() - 4)
            } else {
                f.to_owned()
            };
            let zen_path = join_path(relative_path, f);
            let culprit = join_path(dir_path, f);
            let board = BoardInfo { name, zen_path, description: String::new() };
            self.insert_board(board, culprit, true);
        }
    }

    /// The boards sorted by name, and the errors in the order met.
    pub fn finish(self) -> (r: DiscoveryResult)
        requires
            self.wf(),
        ensures
            r.boards@.len() == self.boards@.len(),
            forall|i: int, j: int| 0 <= i < j < r.boards@.len() ==> seq_lt(r.boards@[i].name@, r.boards@[j].name@),
            forall|x: BoardInfo| self.boards@.contains(x) <==> r.boards@.contains(x),
            r.errors@ == self.errors@,
    {
        let boards = sort_boards(self.boards);
        DiscoveryResult { boards, errors: self.errors }
    }
}

pub proof fn lemma_eq_ignore_ascii_symmetric(a: Seq<char>, b: Seq<char>)
    requires
        eq_ignore_ascii(a, b),
    ensures
        eq_ignore_ascii(b, a),
{
    assert forall|i: int| 0 <= i < b.len() implies crate::text::ascii_lower(#[trigger] b[i]) == crate::text::ascii_lower(a[i]) by {
        assert(crate::text::ascii_lower(a[i]) == crate::text::ascii_lower(b[i]));
    }
}

proof fn lemma_distinct_names(a: Seq<char>, b: Seq<char>)
    requires
        !eq_ignore_ascii(a, b),
    ensures
        a != b,
{
}

/// Sort boards by name; names distinct ignoring ASCII case are distinct.
fn sort_boards(boards: Vec<BoardInfo>) -> (r: Vec<BoardInfo>)
    requires
        names_distinct(boards@),
    ensures
        r@.len() == boards@.len(),
        forall|i: int, j: int| 0 <= i < j < r@.len() ==> seq_lt(r@[i].name@, r@[j].name@),
        forall|x: BoardInfo| boards@.contains(x) <==> r@.contains(x),
{
    let mut out: Vec<BoardInfo> = Vec::new();
    let mut rest = boards;
    let ghost all = rest@;
    while rest.len() > 0
        invariant
            names_distinct(all),
            out@.len() + rest@.len() == all.len(),
            rest@ == all.subrange(out@.len() as int, all.len() as int),
            forall|i: int, j: int| 0 <= i < j < out@.len() ==> seq_lt(out@[i].name@, out@[j].name@),
            forall|x: BoardInfo| all.subrange(0, out@.len() as int).contains(x) <==> out@.contains(x),
        decreases rest@.len(),
    {
        let ghost done = out@.len();
        let b = rest.remove(0);
        proof {
            assert(b == all[done as int]);
        }
        let mut k: usize = 0;
        while k < out.len() && !str_less(b.name.as_str(), out[k].name.as_str())
            invariant
                k <= out@.len(),
                forall|t: int| 0 <= t < k ==> !seq_lt(b.name@, (#[trigger] out@[t]).name@),
            decreases out@.len() - k,
        {
            k = k + 1;
        }
        let ghost before = out@;
        proof {
            assert(forall|x: BoardInfo| all.subrange(0, done as int).contains(x) <==> before.contains(x));
            assert forall|t: int| 0 <= t < before.len() implies before[t].name@ != b.name@ by {
                assert(before.contains(before[t]));
                assert(all.subrange(0, done as int).contains(before[t]));
                let p = choose|p: int| 0 <= p < done && all.subrange(0, done as int)[p] == before[t];
                assert(all[p] == before[t]);
                assert(!eq_ignore_ascii(all[p].name@, all[done as int].name@));
            }
        }
        out.insert(k, b);
        proof {
            assert forall|i: int, j: int| 0 <= i < j < out@.len() implies seq_lt(out@[i].name@, out@[j].name@) by {
                if j < k {
                    assert(out@[i] == before[i] && out@[j] == before[j]);
                } else if j == k {
                    assert(out@[i] == before[i]);
                    assert(!seq_lt(b.name@, before[i].name@));
                    lemma_seq_lt_total(b.name@, before[i].name@);
                } else if i == k {
                    assert(out@[j] == before[j - 1]);
                    if k < before.len() {
                        assert(seq_lt(b.name@, before[k as int].name@));
                        if j - 1 > k {
                            lemma_seq_lt_transitive(b.name@, before[k as int].name@, before[j - 1].name@);
                        }
                    }
                } else if i < k {
                    assert(out@[i] == before[i] && out@[j] == before[j - 1]);
                    if j - 1 > i {
                    } else {
                        assert(false);
                    }
                } else {
                    assert(out@[i] == before[i - 1] && out@[j] == before[j - 1]);
                }
            }
            assert forall|x: BoardInfo| all.subrange(0, out@.len() as int).contains(x) <==> out@.contains(x) by {
                if all.subrange(0, out@.len() as int).contains(x) {
                    let p = choose|p: int| 0 <= p < out@.len() && all.subrange(0, out@.len() as int)[p] == x;
                    if p < done {
                        assert(all.subrange(0, done as int)[p] == x);
                        assert(all.subrange(0, done as int).contains(x));
                        assert(before.contains(x));
                        let q = choose|q: int| 0 <= q < before.len() && before[q] == x;
                        if q < k {
                            assert(out@[q] == x);
                        } else {
                            assert(out@[q + 1] == x);
                        }
                    } else {
                        assert(out@[k as int] == x);
                    }
                }
                if out@.contains(x) {
                    let q = choose|q: int| 0 <= q < out@.len() && out@[q] == x;
                    if q == k {
                        assert(all.subrange(0, out@.len() as int)[done as int] == x);
                    } else {
                        let q2 = if q < k { q } else { q - 1 };
                        assert(before[q2] == x);
                        assert(before.contains(x));
                        let p = choose|p: int| 0 <= p < done && all.subrange(0, done as int)[p] == x;
                        assert(all.subrange(0, out@.len() as int)[p] == x);
                    }
                }
            }
            assert(rest@ =~= all.subrange(out@.len() as int, all.len() as int));
        }
    }
    proof {
        assert(all.subrange(0, out@.len() as int) =~= all);
    }
    out
}

/// `r` is `config` after discovery found `boards`: unchanged when no board was
/// found; otherwise a missing default board is the last board, and a missing
/// configuration is one with the default members and that default board.
pub open spec fn defaulted(config: Option<WorkspaceConfig>, boards: Seq<BoardInfo>, r: Option<WorkspaceConfig>) -> bool {
    &&& boards.len() == 0 ==> r == config
    &&& boards.len() > 0 ==> match config {
        Some(c) => r matches Some(rc) && rc.name == c.name && rc.members == c.members && match c.default_board {
            Some(d) => rc.default_board == Some(d),
            None => (rc.default_board matches Some(d) && d@ == boards.last().name@),
        },
        None => r matches Some(rc) && rc.name is None && rc.members@.len() == 1 && rc.members@[0]@ == "boards/*"@
            && (rc.default_board matches Some(d) && d@ == boards.last().name@),
    }
}

/// The workspace configuration after discovery: when no default board is set and
/// boards were found, the last board (in name order) becomes the default; without
/// a configuration, one with the default members is made for it.
pub fn with_default_board(config: Option<WorkspaceConfig>, boards: &Vec<BoardInfo>) -> (r: Option<WorkspaceConfig>)
    ensures
        defaulted(config, boards@, r),
{
    if boards.len() == 0 {
        return config;
    }
    let last = boards[boards.len() - 1].name.clone();
    match config {
        Some(c) => {
            if c.default_board.is_none() {
                Some(WorkspaceConfig { name: c.name, members: c.members, default_board: Some(last) })
            } else {
                Some(c)
            }
        },
        None => Some(WorkspaceConfig { name: None, members: default_members(), default_board: Some(last) }),
    }
}

/// Workspace information from the root that was found, the workspace
/// configuration read from its `pcb.toml` (when it holds one) and the result of
/// board discovery there; the configuration gets its default board as
/// `with_default_board` gives it.
pub fn get_workspace_info(root: String, workspace_config: Option<WorkspaceConfig>, discovery: DiscoveryResult) -> (r:
    WorkspaceInfo)
    ensures
        r.root == root,
        defaulted(workspace_config, discovery.boards@, r.config),
        r.boards == discovery.boards,
        r.errors == discovery.errors,
{
    let config = with_default_board(workspace_config, &discovery.boards);
    WorkspaceInfo { root, config, boards: discovery.boards, errors: discovery.errors }
}

impl WorkspaceInfo {
    /// The name of the board whose .zen file is at `zen_path` (an absolute,
    /// canonical path), comparing with each board's path under the root.
    pub fn board_name_for_zen(&self, zen_path: &str) -> (r: Option<String>)
        ensures
            match r {
                Some(n) => exists|i: int|
                    0 <= i < self.boards@.len() && path_join(self.root@, self.boards@[i].zen_path@) == zen_path@
                        && n@ == self.boards@[i].name@ && forall|k: int|
                        0 <= k < i ==> path_join(self.root@, #[trigger] self.boards@[k].zen_path@) != zen_path@,
                None => forall|i: int|
                    0 <= i < self.boards@.len() ==> path_join(self.root@, #[trigger] self.boards@[i].zen_path@)
                        != zen_path@,
            },
    {
        let mut i: usize = 0;
        while i < self.boards.len()
            invariant
                i <= self.boards@.len(),
                forall|k: int|
                    0 <= k < i ==> path_join(self.root@, #[trigger] self.boards@[k].zen_path@) != zen_path@,
            decreases self.boards@.len() - i,
        {
            let p = self.boards[i].absolute_zen_path(self.root.as_str());
            if str_eq(p.as_str(), zen_path) {
                return Some(self.boards[i].name.clone());
            }
            i = i + 1;
        }
        None
    }
}

} // verus!
