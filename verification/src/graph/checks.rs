//! The checks a design runs over a path: counting, `any`, `all` and `none`
//! over the path's components, and `matches`, which walks the components with
//! a sequence of matchers. Each is a machine: it says which matcher call comes
//! next, and is told how each call went.
use vstd::prelude::*;

use crate::text::{concat, decimal_text, digits_of};

verus! {

/// A check over the components of a path.
#[derive(Clone, Copy, Debug, PartialEq, Eq, Structural)]
pub enum PathValidationOp {
    Count,
    Any,
    All,
    NoneMatch,
    Matches,
}

/// What a check does next.
#[derive(Debug, PartialEq, Eq)]
pub enum ValidationStep {
    /// Call the matcher on the component at `index`; `count` matched so far.
    CallMatcher { index: usize, count: usize },
    /// The check counted this many matching components.
    ReturnCount(usize),
    /// The check passed.
    ReturnNone,
    /// The check failed with this message.
    Fail(String),
    /// The check fails with the error the matcher raised.
    RaiseMatcherError,
}

/// The message when no component matched under `any`.
pub open spec fn no_match_msg() -> Seq<char> {
    "No components matched the condition"@
}

/// The message when a component matched under `none`.
pub open spec fn found_match_msg() -> Seq<char> {
    "Found component that matched the condition (expected none)"@
}

/// The message for `matches` run as a plain check.
pub open spec fn wrong_callable_msg() -> Seq<char> {
    "matches() operation should use PathMatchesCallable, not PathValidationCallable"@
}

/// A step as plain values.
pub enum StepView {
    Call(nat, nat),
    Count(nat),
    Passed,
    Failed(Seq<char>),
    Raised,
}

pub open spec fn step_view(s: ValidationStep) -> StepView {
    match s {
        ValidationStep::CallMatcher { index, count } => StepView::Call(index as nat, count as nat),
        ValidationStep::ReturnCount(c) => StepView::Count(c as nat),
        ValidationStep::ReturnNone => StepView::Passed,
        ValidationStep::Fail(m) => StepView::Failed(m@),
        ValidationStep::RaiseMatcherError => StepView::Raised,
    }
}

/// How a check ends once every component was judged, `count` of them matching.
pub open spec fn validation_end(op: PathValidationOp, count: nat) -> StepView {
    match op {
        PathValidationOp::Count => StepView::Count(count),
        PathValidationOp::Any => StepView::Failed(no_match_msg()),
        PathValidationOp::All => StepView::Passed,
        PathValidationOp::NoneMatch => StepView::Passed,
        PathValidationOp::Matches => StepView::Failed(wrong_callable_msg()),
    }
}

/// The first step of a check over `n` components.
pub open spec fn validation_begin_spec(op: PathValidationOp, n: nat) -> StepView {
    if op == PathValidationOp::Matches {
        StepView::Failed(wrong_callable_msg())
    } else if n == 0 {
        validation_end(op, 0)
    } else {
        StepView::Call(0, 0)
    }
}

/// The step after the matcher judged component `index` (of `n`), `count`
/// components having matched before it.
pub open spec fn validation_after_spec(
    op: PathValidationOp,
    n: nat,
    index: nat,
    count: nat,
    matched: bool,
) -> StepView {
    let next = index + 1;
    let c = if matched {
        count + 1
    } else {
        count
    };
    match op {
        PathValidationOp::Count => if next < n {
            StepView::Call(next, c)
        } else {
            StepView::Count(c)
        },
        PathValidationOp::Any => if matched {
            StepView::Passed
        } else if next < n {
            StepView::Call(next, c)
        } else {
            StepView::Failed(no_match_msg())
        },
        PathValidationOp::All => if !matched {
            StepView::Raised
        } else if next < n {
            StepView::Call(next, c)
        } else {
            StepView::Passed
        },
        PathValidationOp::NoneMatch => if matched {
            StepView::Failed(found_match_msg())
        } else if next < n {
            StepView::Call(next, c)
        } else {
            StepView::Passed
        },
        PathValidationOp::Matches => StepView::Failed(wrong_callable_msg()),
    }
}

fn validation_end_step(op: PathValidationOp, count: usize) -> (r: ValidationStep)
    ensures
        step_view(r) == validation_end(op, count as nat),
{
    match op {
        PathValidationOp::Count => ValidationStep::ReturnCount(count),
        PathValidationOp::Any => ValidationStep::Fail("No components matched the condition".to_owned()),
        PathValidationOp::All => ValidationStep::ReturnNone,
        PathValidationOp::NoneMatch => ValidationStep::ReturnNone,
        PathValidationOp::Matches => ValidationStep::Fail(
            "matches() operation should use PathMatchesCallable, not PathValidationCallable".to_owned(),
        ),
    }
}

/// The first step of the check `op` over a path of `n` components.
pub fn validation_begin(op: PathValidationOp, n: usize) -> (r: ValidationStep)
    ensures
        step_view(r) == validation_begin_spec(op, n as nat),
{
    if op == PathValidationOp::Matches {
        validation_end_step(op, 0)
    } else if n == 0 {
        validation_end_step(op, 0)
    } else {
        ValidationStep::CallMatcher { index: 0, count: 0 }
    }
}

/// The step after the matcher judged component `index` of `n` (`matched`: it
/// raised no error), `count` components having matched before it.
pub fn validation_after(op: PathValidationOp, n: usize, index: usize, count: usize, matched: bool) -> (r:
    ValidationStep)
    requires
        index < n,
        count <= index,
    ensures
        step_view(r) == validation_after_spec(op, n as nat, index as nat, count as nat, matched),
{
    let next = index + 1;
    let c = if matched {
        count + 1
    } else {
        count
    };
    match op {
        PathValidationOp::Count => {
            if next < n {
                ValidationStep::CallMatcher { index: next, count: c }
            } else {
                ValidationStep::ReturnCount(c)
            }
        },
        PathValidationOp::Any => {
            if matched {
                ValidationStep::ReturnNone
            } else if next < n {
                ValidationStep::CallMatcher { index: next, count: c }
            } else {
                validation_end_step(op, c)
            }
        },
        PathValidationOp::All => {
            if !matched {
                ValidationStep::RaiseMatcherError
            } else if next < n {
                ValidationStep::CallMatcher { index: next, count: c }
            } else {
                ValidationStep::ReturnNone
            }
        },
        PathValidationOp::NoneMatch => {
            if matched {
                ValidationStep::Fail("Found component that matched the condition (expected none)".to_owned())
            } else if next < n {
                ValidationStep::CallMatcher { index: next, count: c }
            } else {
                ValidationStep::ReturnNone
            }
        },
        PathValidationOp::Matches => validation_end_step(op, c),
    }
}

/// Run a check to its end when the matcher's verdict on each component is
/// known in advance: `outs[i]` says whether component `i` matched.
pub open spec fn validation_run_from(op: PathValidationOp, outs: Seq<bool>, s: StepView) -> StepView
    decreases outs.len() - (match s {
        StepView::Call(i, _) => i as int,
        _ => outs.len() as int,
    }),
{
    match s {
        StepView::Call(i, c) => if i < outs.len() {
            let t = validation_after_spec(op, outs.len(), i, c, outs[i as int]);
            match t {
                StepView::Call(j, _) => if j == i + 1 {
                    validation_run_from(op, outs, t)
                } else {
                    t
                },
                _ => t,
            }
        } else {
            s
        },
        _ => s,
    }
}

/// The whole run of a check over known verdicts.
pub open spec fn validation_run(op: PathValidationOp, outs: Seq<bool>) -> StepView {
    validation_run_from(op, outs, validation_begin_spec(op, outs.len()))
}

/// How many verdicts are `true`.
pub open spec fn matched_count(outs: Seq<bool>) -> nat
    decreases outs.len(),
{
    if outs.len() == 0 {
        0
    } else {
        matched_count(outs.drop_last()) + if outs.last() {
            1nat
        } else {
            0nat
        }
    }
}

proof fn lemma_run_from(op: PathValidationOp, outs: Seq<bool>, i: nat, c: nat)
    requires
        i < outs.len(),
        op != PathValidationOp::Matches,
        c == matched_count(outs.take(i as int)),
    ensures
        validation_run_from(op, outs, StepView::Call(i, c)) == match op {
            PathValidationOp::Count => StepView::Count(matched_count(outs)),
            PathValidationOp::Any => if exists|k: int| i <= k < outs.len() && outs[k] {
                StepView::Passed
            } else {
                StepView::Failed(no_match_msg())
            },
            PathValidationOp::All => if forall|k: int| i <= k < outs.len() ==> outs[k] {
                StepView::Passed
            } else {
                StepView::Raised
            },
            PathValidationOp::NoneMatch => if exists|k: int| i <= k < outs.len() && outs[k] {
                StepView::Failed(found_match_msg())
            } else {
                StepView::Passed
            },
            PathValidationOp::Matches => StepView::Raised,
        },
    decreases outs.len() - i,
{
    assert(outs.take(i + 1int).drop_last() =~= outs.take(i as int));
    let c2 = if outs[i as int] {
        c + 1
    } else {
        c
    };
    assert(c2 == matched_count(outs.take(i + 1int)));
    if i + 1 < outs.len() {
        lemma_run_from(op, outs, i + 1, c2);
        if op == PathValidationOp::Any || op == PathValidationOp::NoneMatch {
            if exists|k: int| i + 1 <= k < outs.len() && outs[k] {
                let k = choose|k: int| i + 1 <= k < outs.len() && outs[k];
                assert(i <= k < outs.len() && outs[k]);
            }
        }
        if op == PathValidationOp::All {
            if !(forall|k: int| i + 1 <= k < outs.len() ==> outs[k]) {
                let k = choose|k: int| !(i + 1 <= k < outs.len() ==> outs[k]);
                assert(!(i <= k < outs.len() ==> outs[k]));
            }
        }
    } else {
        assert(outs.take(i + 1int) =~= outs);
    }
}

/// A check over known verdicts ends as its name says: `count` counts the
/// matching components, `any` passes exactly when one matches, `all` passes
/// exactly when all match (else the matcher's error is raised), and `none`
/// passes exactly when none matches.
pub proof fn lemma_validation_semantics(op: PathValidationOp, outs: Seq<bool>)
    ensures
        validation_run(op, outs) == match op {
            PathValidationOp::Count => StepView::Count(matched_count(outs)),
            PathValidationOp::Any => if exists|k: int| 0 <= k < outs.len() && outs[k] {
                StepView::Passed
            } else {
                StepView::Failed(no_match_msg())
            },
            PathValidationOp::All => if forall|k: int| 0 <= k < outs.len() ==> outs[k] {
                StepView::Passed
            } else {
                StepView::Raised
            },
            PathValidationOp::NoneMatch => if exists|k: int| 0 <= k < outs.len() && outs[k] {
                StepView::Failed(found_match_msg())
            } else {
                StepView::Passed
            },
            PathValidationOp::Matches => StepView::Failed(wrong_callable_msg()),
        },
{
    if op != PathValidationOp::Matches && outs.len() > 0 {
        assert(outs.take(0) =~= Seq::<bool>::empty());
        lemma_run_from(op, outs, 0, 0);
    }
}


/// How a matcher call went: it raised an error, or returned a value (its
/// integer, when it is one).
#[derive(Clone, Copy, Debug, PartialEq, Eq, Structural)]
pub enum MatcherOutcome {
    Raised,
    Returned(Option<i32>),
}

/// What `matches` does next.
#[derive(Debug, PartialEq, Eq)]
pub enum MatchStep {
    /// Call matcher `index` with the path and the cursor.
    CallMatcher { index: usize, cursor: usize },
    /// `matches` returns this.
    Return(bool),
    /// `matches` fails with this message.
    Fail(String),
    /// `matches` fails with the matcher's error, wrapped in the path's context.
    RaiseWrapped,
}

/// A `matches` step as plain values.
pub enum MatchView {
    Call(nat, nat),
    Ret(bool),
    Failed(Seq<char>),
    Wrapped,
}

pub open spec fn match_view(s: MatchStep) -> MatchView {
    match s {
        MatchStep::CallMatcher { index, cursor } => MatchView::Call(index as nat, cursor as nat),
        MatchStep::Return(b) => MatchView::Ret(b),
        MatchStep::Fail(m) => MatchView::Failed(m@),
        MatchStep::RaiseWrapped => MatchView::Wrapped,
    }
}

/// The decimal text of a signed integer.
pub open spec fn signed_text(c: int) -> Seq<char> {
    if c < 0 {
        "-"@ + digits_of((-c) as nat)
    } else {
        digits_of(c as nat)
    }
}

/// The first step of `matches` with `m` matchers.
pub open spec fn matches_begin_spec(m: nat) -> MatchView {
    if m == 0 {
        MatchView::Failed("matches() requires at least one matcher function"@)
    } else {
        MatchView::Call(0, 0)
    }
}

/// The step after matcher `index` (of `m`) ran at `cursor` over a path of `n`
/// components.
pub open spec fn matches_after_spec(
    suppress: bool,
    m: nat,
    n: nat,
    index: nat,
    cursor: nat,
    out: MatcherOutcome,
) -> MatchView {
    let shown = digits_of((index + 1) as nat);
    match out {
        MatcherOutcome::Raised => if suppress {
            MatchView::Ret(false)
        } else {
            MatchView::Wrapped
        },
        MatcherOutcome::Returned(None) => MatchView::Failed("Matcher "@ + shown + " did not return an int"@),
        MatcherOutcome::Returned(Some(c)) => if c < 0 {
            MatchView::Failed("Matcher "@ + shown + " returned negative consumption: "@ + signed_text(c as int))
        } else if cursor + c > usize::MAX {
            MatchView::Failed("Integer overflow in cursor advancement"@)
        } else {
            let nc = (cursor + c) as nat;
            if nc > n {
                if suppress {
                    MatchView::Ret(false)
                } else {
                    MatchView::Failed(
                        "Matcher "@ + shown + " consumed past end of path (cursor "@ + digits_of(nc)
                            + " > path length "@ + digits_of(n) + ")"@,
                    )
                }
            } else if index + 1 < m {
                MatchView::Call(index + 1, nc)
            } else if nc != n {
                if suppress {
                    MatchView::Ret(false)
                } else {
                    MatchView::Failed("Unconsumed components remaining ("@ + digits_of((n - nc) as nat) + " left)"@)
                }
            } else {
                MatchView::Ret(true)
            }
        },
    }
}

/// The first step of `matches` with `m` matchers.
pub fn matches_begin(m: usize) -> (r: MatchStep)
    ensures
        match_view(r) == matches_begin_spec(m as nat),
{
    if m == 0 {
        MatchStep::Fail("matches() requires at least one matcher function".to_owned())
    } else {
        MatchStep::CallMatcher { index: 0, cursor: 0 }
    }
}

/// `"Matcher <k>"` for the matcher at `index`.
fn matcher_label(index: usize) -> (r: String)
    requires
        index < usize::MAX,
    ensures
        r@ == "Matcher "@ + digits_of((index + 1) as nat),
{
    concat("Matcher ", decimal_text((index + 1) as u128).as_str())
}

/// The step after matcher `index` (of `m`) ran at `cursor` over a path of `n`
/// components; `suppress` turns a failed match into `false`.
pub fn matches_after(suppress: bool, m: usize, n: usize, index: usize, cursor: usize, out: MatcherOutcome) -> (r:
    MatchStep)
    requires
        index < m,
        cursor <= n,
    ensures
        match_view(r) == matches_after_spec(suppress, m as nat, n as nat, index as nat, cursor as nat, out),
{
    match out {
        MatcherOutcome::Raised => {
            if suppress {
                MatchStep::Return(false)
            } else {
                MatchStep::RaiseWrapped
            }
        },
        MatcherOutcome::Returned(None) => {
            let mut msg = matcher_label(index);
            msg.append(" did not return an int");
            MatchStep::Fail(msg)
        },
        MatcherOutcome::Returned(Some(c)) => {
            if c < 0 {
                let mut msg = matcher_label(index);
                msg.append(" returned negative consumption: -");
                let mag = (0i64 - c as i64) as u128;
                msg.append(decimal_text(mag).as_str());
                proof {
                    reveal_strlit(" returned negative consumption: -");
                    reveal_strlit(" returned negative consumption: ");
                    reveal_strlit("-");
                    assert(" returned negative consumption: -"@ =~= " returned negative consumption: "@
                        + "-"@);
                    assert(msg@ =~= "Matcher "@ + digits_of((index + 1) as nat) + " returned negative consumption: "@
                        + signed_text(c as int));
                }
                return MatchStep::Fail(msg);
            }
            let nc = match cursor.checked_add(c as usize) {
                Some(x) => x,
                None => {
                    return MatchStep::Fail("Integer overflow in cursor advancement".to_owned());
                },
            };
            if nc > n {
                if suppress {
                    MatchStep::Return(false)
                } else {
                    let mut msg = matcher_label(index);
                    msg.append(" consumed past end of path (cursor ");
                    msg.append(decimal_text(nc as u128).as_str());
                    msg.append(" > path length ");
                    msg.append(decimal_text(n as u128).as_str());
                    msg.append(")");
                    MatchStep::Fail(msg)
                }
            } else if index + 1 < m {
                MatchStep::CallMatcher { index: index + 1, cursor: nc }
            } else if nc != n {
                if suppress {
                    MatchStep::Return(false)
                } else {
                    let mut msg = concat("Unconsumed components remaining (", decimal_text((n - nc) as u128).as_str());
                    msg.append(" left)");
                    MatchStep::Fail(msg)
                }
            } else {
                MatchStep::Return(true)
            }
        },
    }
}

/// The body of the error raised when a matcher fails: the path's
/// description, then that it failed to match.
pub open spec fn match_failure_text(description: Seq<char>) -> Seq<char> {
    description + " failed to match sequence"@
}

/// Run `matches` to its end when every matcher's outcome is known in advance.
pub open spec fn matches_run_from(suppress: bool, outs: Seq<MatcherOutcome>, n: nat, s: MatchView) -> MatchView
    decreases outs.len() - (match s {
        MatchView::Call(i, _) => i as int,
        _ => outs.len() as int,
    }),
{
    match s {
        MatchView::Call(i, cur) => if i < outs.len() && cur <= n {
            let t = matches_after_spec(suppress, outs.len(), n, i, cur, outs[i as int]);
            match t {
                MatchView::Call(j, _) => if j == i + 1 {
                    matches_run_from(suppress, outs, n, t)
                } else {
                    t
                },
                _ => t,
            }
        } else {
            s
        },
        _ => s,
    }
}

/// The whole run of `matches` over known outcomes.
pub open spec fn matches_run(suppress: bool, outs: Seq<MatcherOutcome>, n: nat) -> MatchView {
    matches_run_from(suppress, outs, n, matches_begin_spec(outs.len()))
}

/// What the matchers consume, when each returns a non-negative integer.
pub open spec fn consumed_total(outs: Seq<MatcherOutcome>) -> int
    decreases outs.len(),
{
    if outs.len() == 0 {
        0
    } else {
        consumed_total(outs.drop_last()) + match outs.last() {
            MatcherOutcome::Returned(Some(c)) => c as int,
            _ => 0,
        }
    }
}

/// Every matcher returns a non-negative integer.
pub open spec fn all_consume(outs: Seq<MatcherOutcome>) -> bool {
    forall|k: int| 0 <= k < outs.len() ==> ((#[trigger] outs[k]) matches MatcherOutcome::Returned(Some(c)) && c >= 0)
}

proof fn lemma_consumed_mono(outs: Seq<MatcherOutcome>, a: int, b: int)
    requires
        all_consume(outs),
        0 <= a <= b <= outs.len(),
    ensures
        consumed_total(outs.take(a)) <= consumed_total(outs.take(b)),
    decreases b - a,
{
    if a < b {
        lemma_consumed_mono(outs, a, b - 1);
        assert(outs.take(b).drop_last() =~= outs.take(b - 1));
        assert(outs[b - 1] matches MatcherOutcome::Returned(Some(c)) && c >= 0);
    }
}

proof fn lemma_matches_run_from(suppress: bool, outs: Seq<MatcherOutcome>, n: nat, i: nat)
    requires
        all_consume(outs),
        i < outs.len(),
        n + 0x7fff_ffff <= usize::MAX,
        consumed_total(outs.take(i as int)) <= n,
    ensures
        consumed_total(outs) == n ==> matches_run_from(
            suppress,
            outs,
            n,
            MatchView::Call(i, consumed_total(outs.take(i as int)) as nat),
        ) == MatchView::Ret(true),
        consumed_total(outs) != n && suppress ==> matches_run_from(
            suppress,
            outs,
            n,
            MatchView::Call(i, consumed_total(outs.take(i as int)) as nat),
        ) == MatchView::Ret(false),
    decreases outs.len() - i,
{
    let cur = consumed_total(outs.take(i as int));
    lemma_consumed_mono(outs, 0, i as int);
    assert(outs.take(0) =~= Seq::<MatcherOutcome>::empty());
    assert(cur >= 0);
    assert(outs.take(i + 1int).drop_last() =~= outs.take(i as int));
    assert(outs.take(i + 1int).last() == outs[i as int]);
    assert(outs[i as int] matches MatcherOutcome::Returned(Some(c)) && c >= 0);
    let c = outs[i as int]->Returned_0->0;
    let nc = consumed_total(outs.take(i + 1int));
    assert(nc == cur + c);
    assert(cur + c <= usize::MAX);
    lemma_consumed_mono(outs, i + 1int, outs.len() as int);
    assert(outs.take(outs.len() as int) =~= outs);
    let t = matches_after_spec(suppress, outs.len(), n, i, cur as nat, outs[i as int]);
    if nc > n {
        assert(t == (if suppress { MatchView::Ret(false) } else { t }));
    } else if i + 1 < outs.len() {
        assert(t == MatchView::Call(i + 1, nc as nat));
        lemma_matches_run_from(suppress, outs, n, i + 1);
    } else {
        assert(outs.take(i + 1int) =~= outs);
    }
}

/// `matches` with matchers that each return how many components they
/// consumed succeeds exactly when they consume the whole path; with
/// `suppress_errors` it otherwise returns `false`.
pub proof fn lemma_matches_semantics(suppress: bool, outs: Seq<MatcherOutcome>, n: nat)
    requires
        all_consume(outs),
        outs.len() > 0,
        n + 0x7fff_ffff <= usize::MAX,
    ensures
        consumed_total(outs) == n ==> matches_run(suppress, outs, n) == MatchView::Ret(true),
        consumed_total(outs) != n && suppress ==> matches_run(suppress, outs, n) == MatchView::Ret(false),
{
    assert(outs.take(0) =~= Seq::<MatcherOutcome>::empty());
    lemma_matches_run_from(suppress, outs, n, 0);
}

} // verus!
