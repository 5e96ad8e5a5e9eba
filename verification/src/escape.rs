//! The bookkeeping of the escape-time iteration.
//!
//! A point `c` is followed along its orbit `z <- z*z + c`, starting at zero,
//! for at most `limit` steps. Before each step the caller looks whether `z`
//! has left the disc of radius two; `next_step` decides from that what
//! happens next. The orbit itself is computed by the caller.

use vstd::prelude::*;

verus! {

/// The budget of steps that the renderer allows every pixel. An escape time
/// within it fits a grey value of eight bits.
pub const LIMIT: usize = 255;

/// What to do after looking at the orbit once.
#[derive(Clone, Copy, Debug, PartialEq, Eq)]
pub enum Step {
    /// The orbit has left the disc after this many steps: the point is no member.
    Escaped(usize),
    /// Still inside: take the next step of the orbit and look again.
    Iterate,
    /// The budget is used up: the point is presumed to be a member.
    GiveUp,
}

/// The decision after `taken` steps of a budget of `limit`, where `out` says
/// whether the orbit is outside the disc now.
pub open spec fn step_of(taken: int, limit: int, out: bool) -> Step {
    if taken >= limit {
        Step::GiveUp
    } else if out {
        Step::Escaped(taken as usize)
    } else {
        Step::Iterate
    }
}

/// The outcome of the whole iteration from step `taken` on, where `out(i)`
/// says whether the orbit is outside the disc after `i` steps: what following
/// `step_of` leads to.
pub open spec fn escape_from(out: spec_fn(int) -> bool, taken: int, limit: int) -> Option<int>
    decreases limit - taken,
{
    if taken >= limit {
        None
    } else if out(taken) {
        Some(taken)
    } else {
        escape_from(out, taken + 1, limit)
    }
}

/// The escape time of an orbit within a budget of `limit` steps.
pub open spec fn escape_of(out: spec_fn(int) -> bool, limit: int) -> Option<int> {
    escape_from(out, 0, limit)
}

/// Decides what follows after `taken` steps: give up where the budget of
/// `limit` is used up, report the escape where `out` is set, else go on.
pub fn next_step(taken: usize, limit: usize, out: bool) -> (step: Step)
    ensures
        step == step_of(taken as int, limit as int, out),
        step is Iterate ==> taken < limit,
{
    if taken >= limit {
        Step::GiveUp
    } else if out {
        Step::Escaped(taken)
    } else {
        Step::Iterate
    }
}

/// The looks at a recorded orbit: `looks[i]` says whether the orbit was outside
/// the disc after `i` steps; past the end of the record it counts as inside.
pub open spec fn recorded(looks: Seq<bool>) -> spec_fn(int) -> bool {
    |i: int| 0 <= i < looks.len() && looks[i]
}

/// The escape time of a recorded orbit within a budget of `limit` steps: the
/// loop that a caller runs around `next_step`, with the looks taken from
/// `looks` in place of the orbit.
pub fn escape_time(looks: &[bool], limit: usize) -> (escape: Option<usize>)
    ensures
        match escape {
            Some(i) => escape_of(recorded(looks@), limit as int) == Some(i as int),
            None => escape_of(recorded(looks@), limit as int) is None,
        },
{
    let mut taken: usize = 0;
    loop
        invariant
            taken <= limit,
            escape_of(recorded(looks@), limit as int) == escape_from(
                recorded(looks@),
                taken as int,
                limit as int,
            ),
        decreases limit - taken,
    {
        let out = taken < looks.len() && looks[taken];
        match next_step(taken, limit, out) {
            Step::Escaped(i) => {
                return Some(i);
            },
            Step::GiveUp => {
                return None;
            },
            Step::Iterate => {
                taken += 1;
            },
        }
    }
}

/// The iteration from `taken` on reports the first step at or after `taken`,
/// and below `limit`, at which the orbit is outside; nothing where there is
/// none.
pub proof fn lemma_escape_is_first(out: spec_fn(int) -> bool, taken: int, limit: int)
    ensures
        match escape_from(out, taken, limit) {
            Some(i) => taken <= i < limit && out(i) && forall|j: int| taken <= j < i ==> !#[trigger] out(j),
            None => forall|j: int| taken <= j < limit ==> !#[trigger] out(j),
        },
    decreases limit - taken,
{
    if taken < limit && !out(taken) {
        lemma_escape_is_first(out, taken + 1, limit);
    }
}

/// An escape found within one budget is found, at the same step, within every
/// budget that reaches past that step.
pub proof fn lemma_escape_stays(out: spec_fn(int) -> bool, limit: int, longer: int)
    requires
        escape_of(out, limit) is Some,
        longer >= escape_of(out, limit)->0 + 1,
    ensures
        escape_of(out, longer) == escape_of(out, limit),
{
    lemma_escape_is_first(out, 0, limit);
    lemma_escape_is_first(out, 0, longer);
}

/// Where a budget found no escape, a longer one finds none either, or finds
/// one at a step that the shorter budget did not reach.
pub proof fn lemma_no_early_escape(out: spec_fn(int) -> bool, limit: int, longer: int)
    requires
        escape_of(out, limit) is None,
        longer >= limit,
    ensures
        match escape_of(out, longer) {
            Some(j) => j >= limit,
            None => true,
        },
{
    lemma_escape_is_first(out, 0, limit);
    lemma_escape_is_first(out, 0, longer);
}

} // verus!
