//! Escape-time counting for the Mandelbrot recurrence `z <- z*z + c`.
//!
//! The floating-point step itself is done by the caller; this module owns the
//! decisions of the loop: when to stop and which count to report. An orbit is
//! described by its escape flags: `escaped[i]` is whether the squared magnitude
//! of `z` reached the escape bound right after step `i` (steps count from 0).
use vstd::prelude::*;

verus! {

/// Count reported for an orbit, scanning from step `i` on: the first step
/// `j` in `[i, max)` whose flag is set, or `max` when none is.
pub open spec fn escape_from(escaped: Seq<bool>, i: nat, max: nat) -> nat
    decreases max - i,
{
    if i >= max {
        max
    } else if escaped[i as int] {
        i
    } else {
        escape_from(escaped, i + 1, max)
    }
}

/// Escape time of an orbit under an iteration cap of `max`: the index of the
/// first escaping step, or `max` when no step below the cap escapes.
pub open spec fn escape_time(escaped: Seq<bool>, max: nat) -> nat {
    escape_from(escaped, 0, max)
}

/// What the iteration loop does next.
#[derive(Clone, Copy, Debug, PartialEq, Eq, Structural)]
pub enum EscapeStep {
    /// Run one more step; the payload is the number of steps completed so far.
    Iterate(u32),
    /// Stop and report this count.
    Finished(u32),
}

/// The loop's first decision, before any step has been taken.
pub fn escape_start(max_iterations: u32) -> (r: EscapeStep)
    ensures
        max_iterations == 0 ==> r == EscapeStep::Finished(0),
        max_iterations > 0 ==> r == EscapeStep::Iterate(0),
{
    if max_iterations == 0 {
        EscapeStep::Finished(0)
    } else {
        EscapeStep::Iterate(0)
    }
}

/// The loop's decision after step `completed` (counting from 0) has run and
/// its escape test gave `escaped`.
pub fn escape_advance(completed: u32, max_iterations: u32, escaped: bool) -> (r: EscapeStep)
    requires
        completed < max_iterations,
    ensures
        escaped ==> r == EscapeStep::Finished(completed),
        !escaped && completed + 1 == max_iterations ==> r == EscapeStep::Finished(max_iterations),
        !escaped && completed + 1 < max_iterations ==> r == EscapeStep::Iterate(
            (completed + 1) as u32,
        ),
{
    if escaped {
        EscapeStep::Finished(completed)
    } else if completed + 1 == max_iterations {
        EscapeStep::Finished(max_iterations)
    } else {
        EscapeStep::Iterate(completed + 1)
    }
}

/// Runs the loop's decisions over the recorded escape flags of an orbit and
/// returns the count that the loop reports.
pub fn escape_time_of(escaped: &Vec<bool>, max_iterations: u32) -> (r: u32)
    requires
        escaped@.len() >= max_iterations,
    ensures
        r == escape_time(escaped@, max_iterations as nat),
        r <= max_iterations,
{
    proof {
        lemma_escape_from_bounded(escaped@, 0, max_iterations as nat);
    }
    let mut step = escape_start(max_iterations);
    loop
        invariant
            escaped@.len() >= max_iterations,
            escape_time(escaped@, max_iterations as nat) <= max_iterations,
            match step {
                EscapeStep::Iterate(i) => i < max_iterations && escape_time(
                    escaped@,
                    max_iterations as nat,
                ) == escape_from(escaped@, i as nat, max_iterations as nat),
                EscapeStep::Finished(n) => n == escape_time(escaped@, max_iterations as nat),
            },
        decreases
            match step {
                EscapeStep::Iterate(i) => max_iterations - i + 1,
                EscapeStep::Finished(_) => 0,
            },
    {
        match step {
            EscapeStep::Iterate(i) => {
                step = escape_advance(i, max_iterations, escaped[i as usize]);
                proof {
                    if !escaped@[i as int] && i + 1 == max_iterations {
                        assert(escape_from(escaped@, (i + 1) as nat, max_iterations as nat)
                            == max_iterations);
                    }
                }
            },
            EscapeStep::Finished(n) => {
                return n;
            },
        }
    }
}

/// Scanning from any step never reports more than the cap, nor less than the
/// step where the scan starts (when that step is below the cap).
pub proof fn lemma_escape_from_bounded(escaped: Seq<bool>, i: nat, max: nat)
    ensures
        escape_from(escaped, i, max) <= max,
        i <= max ==> i <= escape_from(escaped, i, max),
    decreases max - i,
{
    if i < max && !escaped[i as int] {
        lemma_escape_from_bounded(escaped, i + 1, max);
    }
}

/// The escape time always lies in `[0, max]`.
pub proof fn lemma_escape_time_in_range(escaped: Seq<bool>, max: nat)
    ensures
        escape_time(escaped, max) <= max,
{
    lemma_escape_from_bounded(escaped, 0, max);
}

/// A point that lies outside the escape disc escapes at the very first step:
/// when step 0 escapes, the escape time is 0 under any cap of at least 1.
pub proof fn lemma_immediate_escape(escaped: Seq<bool>, max: nat)
    requires
        max >= 1,
        escaped.len() >= 1,
        escaped[0],
    ensures
        escape_time(escaped, max) == 0,
{
}

/// An orbit that never escapes (the origin's orbit stays at 0) is reported
/// with the full cap: the escape time is `max`.
pub proof fn lemma_never_escapes(escaped: Seq<bool>, max: nat)
    requires
        forall|j: int| 0 <= j < max ==> !#[trigger] escaped[j],
    ensures
        escape_time(escaped, max) == max,
{
    lemma_never_escapes_from(escaped, 0, max);
}

proof fn lemma_never_escapes_from(escaped: Seq<bool>, i: nat, max: nat)
    requires
        forall|j: int| i <= j < max ==> !#[trigger] escaped[j],
    ensures
        escape_from(escaped, i, max) == max,
    decreases max - i,
{
    if i < max {
        lemma_never_escapes_from(escaped, i + 1, max);
    }
}

/// Raising the iteration cap never lowers the escape time of an orbit.
pub proof fn lemma_escape_time_monotone(escaped: Seq<bool>, max1: nat, max2: nat)
    requires
        max1 <= max2,
    ensures
        escape_time(escaped, max1) <= escape_time(escaped, max2),
{
    lemma_escape_from_monotone(escaped, 0, max1, max2);
}

proof fn lemma_escape_from_monotone(escaped: Seq<bool>, i: nat, max1: nat, max2: nat)
    requires
        max1 <= max2,
    ensures
        escape_from(escaped, i, max1) <= escape_from(escaped, i, max2),
    decreases max2 - i,
{
    if i < max1 {
        if !escaped[i as int] {
            lemma_escape_from_monotone(escaped, i + 1, max1, max2);
        }
    } else if i < max2 {
        lemma_escape_from_bounded(escaped, i, max2);
    }
}

} // verus!
