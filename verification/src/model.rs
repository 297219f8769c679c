//! The data model: statuses, subtest results, and per-test scoring.

use vstd::prelude::*;

verus! {

/// Outcome of a test or subtest. Any status label other than the exact
/// strings `"PASS"` and `"OK"` maps to `Other`; this lenient fallback is
/// deliberate, so unknown labels count as failing rather than erroring.
#[derive(Clone, Copy, Debug, PartialEq, Eq, Structural)]
pub enum Status {
    Okay,
    Pass,
    Other,
}

/// What a status label denotes: exactly `"PASS"` is `Pass`, exactly
/// `"OK"` is `Okay`, and everything else is `Other`.
pub open spec fn status_of_label(label: Seq<char>) -> Status {
    if label == "PASS"@ {
        Status::Pass
    } else if label == "OK"@ {
        Status::Okay
    } else {
        Status::Other
    }
}

impl Status {
    /// Parse a status label leniently: unrecognized labels become `Other`.
    pub fn from_label(label: &str) -> (s: Status)
        ensures
            s == status_of_label(label@),
    {
        let owned = String::from_str(label);
        let pass = String::from_str("PASS");
        if owned == pass {
            Status::Pass
        } else {
            let ok = String::from_str("OK");
            if owned == ok {
                Status::Okay
            } else {
                Status::Other
            }
        }
    }
}

impl From<&str> for Status {
    fn from(value: &str) -> (s: Status) {
        Status::from_label(value)
    }
}

impl vstd::std_specs::convert::FromSpecImpl<&str> for Status {
    open spec fn obeys_from_spec() -> bool {
        true
    }

    open spec fn from_spec(value: &str) -> Status {
        status_of_label(value@)
    }
}

/// One named assertion inside a test.
#[derive(Debug)]
pub struct SubtestResult {
    pub id: String,
    pub status: Status,
}

/// The result of one test: its overall status and its subtests, in order.
#[derive(Debug)]
pub struct Results {
    pub status: Status,
    pub subtests: Vec<SubtestResult>,
}

/// How many of the subtests have status `Pass`.
pub open spec fn count_passes(subtests: Seq<SubtestResult>) -> int
    decreases subtests.len(),
{
    if subtests.len() == 0 {
        0
    } else {
        count_passes(subtests.drop_last()) + if subtests.last().status == Status::Pass {
            1int
        } else {
            0int
        }
    }
}

/// The pass count never exceeds the number of subtests.
pub proof fn lemma_count_passes_bounds(subtests: Seq<SubtestResult>)
    ensures
        0 <= count_passes(subtests) <= subtests.len(),
    decreases subtests.len(),
{
    if subtests.len() > 0 {
        lemma_count_passes_bounds(subtests.drop_last());
    }
}

/// The numerator of a test's pass ratio: with subtests, the number of
/// passing subtests; without, 1 exactly when the overall status is `Pass`.
pub open spec fn test_passes(r: Results) -> int {
    if r.subtests@.len() > 0 {
        count_passes(r.subtests@)
    } else if r.status == Status::Pass {
        1
    } else {
        0
    }
}

/// The denominator of a test's pass ratio: the number of subtests, or 1
/// for a test without subtests.
pub open spec fn test_total(r: Results) -> int {
    if r.subtests@.len() > 0 {
        r.subtests@.len() as int
    } else {
        1
    }
}

/// A scored test contributes `floor(1000 * passes / total)` to its run.
pub open spec fn test_score(r: Results) -> int {
    (1000 * test_passes(r)) / test_total(r)
}

/// Each test's contribution lies in `[0, 1000]`.
pub proof fn lemma_test_score_bounds(r: Results)
    ensures
        0 <= test_score(r) <= 1000,
{
    lemma_count_passes_bounds(r.subtests@);
    let p = test_passes(r);
    let t = test_total(r);
    assert(0 <= p <= t && 1 <= t);
    assert(0 <= (1000 * p) / t <= 1000) by (nonlinear_arith)
        requires
            0 <= p <= t && 1 <= t,
    ;
}

} // verus!
