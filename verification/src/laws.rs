//! Laws of the scoring engine: what the score and the
//! unexpected-failure set are guaranteed to be in the distinguished
//! situations, proved once and for all from the engine's contracts.

use vstd::prelude::*;

use crate::model::Status;
use crate::score::{RunEntry, distinct_entry_ids, distinct_ids, entry_id_in, entry_points,
    entry_unexpected, id_in, lemma_matched_ids_facts, matched_ids, run_points, run_score,
    run_unexpected, runs_unexpected};

verus! {

proof fn lemma_run_points_exact(entries: Seq<RunEntry>, interop: Seq<String>)
    requires
        distinct_entry_ids(entries),
        forall|j: int|
            0 <= j < entries.len() && id_in(interop, #[trigger] entries[j].test_id@)
                ==> crate::model::test_score(entries[j].results) == 1000,
    ensures
        run_points(entries, interop) == 1000 * matched_ids(entries, interop).len(),
    decreases entries.len(),
{
    lemma_matched_ids_facts(entries, interop);
    if entries.len() > 0 {
        let d = entries.drop_last();
        let e = entries.last();
        assert(distinct_entry_ids(d));
        assert(forall|j: int|
            0 <= j < d.len() && id_in(interop, #[trigger] d[j].test_id@)
                ==> crate::model::test_score(d[j].results) == 1000);
        lemma_run_points_exact(d, interop);
        lemma_matched_ids_facts(d, interop);
        if id_in(interop, e.test_id@) {
            assert(e == entries[entries.len() - 1]);
            assert(crate::model::test_score(e.results) == 1000);
            assert(!matched_ids(d, interop).contains(e.test_id@)) by {
                if matched_ids(d, interop).contains(e.test_id@) {
                    let j = choose|j: int| 0 <= j < d.len() && d[j].test_id@ == e.test_id@;
                    assert(entries[j].test_id@ == entries[entries.len() - 1].test_id@);
                }
            }
            assert(matched_ids(entries, interop).len() == matched_ids(d, interop).len() + 1);
        }
    }
}

proof fn lemma_matched_ids_complete(entries: Seq<RunEntry>, interop: Seq<String>, j: int)
    requires
        0 <= j < entries.len(),
        id_in(interop, entries[j].test_id@),
    ensures
        matched_ids(entries, interop).contains(entries[j].test_id@),
    decreases entries.len(),
{
    if j < entries.len() - 1 {
        let d = entries.drop_last();
        assert(d[j] == entries[j]);
        lemma_matched_ids_complete(d, interop, j);
    } else {
        assert(entries[j] == entries.last());
    }
}

/// If every interop test is present in a run with overall status `Pass`
/// and no subtests, the run's score is the full 1000.
pub proof fn lemma_all_interop_pass_full_score(entries: Seq<RunEntry>, interop: Seq<String>)
    requires
        distinct_entry_ids(entries),
        distinct_ids(interop),
        interop.len() > 0,
        forall|k: int|
            0 <= k < interop.len() ==> exists|j: int|
                0 <= j < entries.len() && (#[trigger] entries[j].test_id)@ == (#[trigger] interop[k])@
                    && entries[j].results.status == Status::Pass
                    && entries[j].results.subtests@.len() == 0,
    ensures
        run_score(entries, interop) == 1000,
{
    let n = interop.len() as int;
    // Every entry whose identifier is an interop test is that test's only
    // entry, so it is the passing, subtest-free one and scores 1000.
    assert forall|j: int|
        0 <= j < entries.len() && id_in(interop, #[trigger] entries[j].test_id@)
            implies crate::model::test_score(entries[j].results) == 1000 by {
        let k = choose|k: int| 0 <= k < interop.len() && interop[k]@ == entries[j].test_id@;
        let j2 = choose|j2: int|
            0 <= j2 < entries.len() && entries[j2].test_id@ == interop[k]@
                && entries[j2].results.status == Status::Pass
                && entries[j2].results.subtests@.len() == 0;
        assert(j2 == j);
    }
    lemma_run_points_exact(entries, interop);
    // Every interop identifier is scored, and no other is, so exactly
    // `interop.len()` identifiers are scored.
    let views = interop.map_values(|s: String| s@);
    lemma_matched_ids_facts(entries, interop);
    assert(matched_ids(entries, interop) =~= views.to_set()) by {
        assert forall|id: Seq<char>| #[trigger] views.to_set().contains(id) implies matched_ids(
            entries,
            interop,
        ).contains(id) by {
            let k = choose|k: int| 0 <= k < views.len() && views[k] == id;
            assert(interop[k]@ == id);
            let j = choose|j: int|
                0 <= j < entries.len() && entries[j].test_id@ == interop[k]@
                    && entries[j].results.status == Status::Pass
                    && entries[j].results.subtests@.len() == 0;
            assert(id_in(interop, entries[j].test_id@));
            lemma_matched_ids_complete(entries, interop, j);
        }
        assert forall|id: Seq<char>| #[trigger]
            matched_ids(entries, interop).contains(id) implies views.to_set().contains(id) by {
            let k = choose|k: int| 0 <= k < interop.len() && interop[k]@ == id;
            assert(views[k] == id);
        }
    }
    assert(views.no_duplicates()) by {
        assert forall|i: int, j: int| 0 <= i < j < views.len() implies views[i] != views[j] by {
            assert(interop[i]@ != interop[j]@);
        }
    }
    views.unique_seq_to_set();
    assert(run_points(entries, interop) == 1000 * n);
    vstd::arithmetic::div_mod::lemma_div_multiples_vanish(1000, n);
    assert(run_score(entries, interop) == (n * 1000) / n);
}

proof fn lemma_run_points_zero(entries: Seq<RunEntry>, interop: Seq<String>)
    requires
        forall|j: int| 0 <= j < entries.len() ==> !id_in(interop, #[trigger] entries[j].test_id@),
    ensures
        run_points(entries, interop) == 0,
    decreases entries.len(),
{
    if entries.len() > 0 {
        let d = entries.drop_last();
        assert(forall|j: int| 0 <= j < d.len() ==> !id_in(interop, #[trigger] d[j].test_id@));
        lemma_run_points_zero(d, interop);
        assert(entry_points(entries.last(), interop) == 0);
    }
}

/// If every interop test is absent from a run's mapping, the run's score
/// is 0.
pub proof fn lemma_all_interop_absent_zero_score(entries: Seq<RunEntry>, interop: Seq<String>)
    requires
        interop.len() > 0,
        forall|id: Seq<char>| #[trigger] id_in(interop, id) ==> !entry_id_in(entries, id),
    ensures
        run_score(entries, interop) == 0,
{
    assert forall|j: int|
        0 <= j < entries.len() implies !id_in(interop, #[trigger] entries[j].test_id@) by {
        if id_in(interop, entries[j].test_id@) {
            assert(entry_id_in(entries, entries[j].test_id@));
        }
    }
    lemma_run_points_zero(entries, interop);
    vstd::arithmetic::div_mod::lemma_div_of0(interop.len() as int);
}

/// A test pre-declared as allowed to fail is never reported as an
/// unexpected failure, in any run.
pub proof fn lemma_expected_not_ok_never_flagged(
    runs: Seq<Vec<RunEntry>>,
    interop: Seq<String>,
    expected: Seq<String>,
    id: Seq<char>,
)
    requires
        id_in(expected, id),
    ensures
        !runs_unexpected(runs, interop, expected, id),
{
    if runs_unexpected(runs, interop, expected, id) {
        let i = choose|i: int| 0 <= i < runs.len() && run_unexpected(runs[i]@, interop, expected, id);
        let j = choose|j: int|
            0 <= j < runs[i]@.len() && runs[i]@[j].test_id@ == id && entry_unexpected(
                runs[i]@[j],
                interop,
                expected,
            );
        assert(!id_in(expected, id));
    }
}

/// A scored, subtest-bearing test whose overall status is not `Okay` and
/// which is not pre-declared as allowed to fail is always reported as an
/// unexpected failure.
pub proof fn lemma_unexpected_failure_flagged(
    runs: Seq<Vec<RunEntry>>,
    interop: Seq<String>,
    expected: Seq<String>,
    i: int,
    j: int,
)
    requires
        0 <= i < runs.len(),
        0 <= j < runs[i]@.len(),
        id_in(interop, runs[i]@[j].test_id@),
        runs[i]@[j].results.subtests@.len() > 0,
        runs[i]@[j].results.status != Status::Okay,
        !id_in(expected, runs[i]@[j].test_id@),
    ensures
        runs_unexpected(runs, interop, expected, runs[i]@[j].test_id@),
{
    assert(entry_unexpected(runs[i]@[j], interop, expected));
    assert(run_unexpected(runs[i]@, interop, expected, runs[i]@[j].test_id@));
}

/// Each run is scored from its own entries and the two input sets alone,
/// so scoring a batch of runs in one call and scoring the same runs split
/// into two calls yield the same scores and, merged, the same
/// unexpected-failure set.
pub proof fn lemma_runs_scored_independently(
    runs1: Seq<Vec<RunEntry>>,
    runs2: Seq<Vec<RunEntry>>,
    interop: Seq<String>,
    expected: Seq<String>,
)
    ensures
        forall|i: int|
            0 <= i < runs1.len() ==> #[trigger] run_score((runs1 + runs2)[i]@, interop)
                == run_score(runs1[i]@, interop),
        forall|i: int|
            0 <= i < runs2.len() ==> #[trigger] run_score((runs1 + runs2)[runs1.len() + i]@, interop)
                == run_score(runs2[i]@, interop),
        forall|id: Seq<char>|
            runs_unexpected(runs1 + runs2, interop, expected, id) <==> (runs_unexpected(
                runs1,
                interop,
                expected,
                id,
            ) || runs_unexpected(runs2, interop, expected, id)),
{
    assert forall|i: int|
        0 <= i < runs1.len() implies #[trigger] run_score((runs1 + runs2)[i]@, interop)
        == run_score(runs1[i]@, interop) by {
        assert((runs1 + runs2)[i] == runs1[i]);
    }
    assert forall|i: int|
        0 <= i < runs2.len() implies #[trigger] run_score((runs1 + runs2)[runs1.len() + i]@, interop)
        == run_score(runs2[i]@, interop) by {
        assert((runs1 + runs2)[runs1.len() + i] == runs2[i]);
    }
    assert forall|id: Seq<char>|
        runs_unexpected(runs1 + runs2, interop, expected, id) == (runs_unexpected(
            runs1,
            interop,
            expected,
            id,
        ) || runs_unexpected(runs2, interop, expected, id)) by {
        if runs_unexpected(runs1 + runs2, interop, expected, id) {
            let i = choose|i: int|
                0 <= i < (runs1 + runs2).len() && run_unexpected(
                    (runs1 + runs2)[i]@,
                    interop,
                    expected,
                    id,
                );
            if i < runs1.len() {
                assert((runs1 + runs2)[i] == runs1[i]);
            } else {
                assert((runs1 + runs2)[i] == runs2[i - runs1.len()]);
            }
        }
        if runs_unexpected(runs1, interop, expected, id) {
            let i = choose|i: int| 0 <= i < runs1.len() && run_unexpected(runs1[i]@, interop, expected, id);
            assert((runs1 + runs2)[i] == runs1[i]);
            assert(run_unexpected((runs1 + runs2)[i]@, interop, expected, id));
        }
        if runs_unexpected(runs2, interop, expected, id) {
            let i = choose|i: int| 0 <= i < runs2.len() && run_unexpected(runs2[i]@, interop, expected, id);
            assert((runs1 + runs2)[runs1.len() + i] == runs2[i]);
            assert(run_unexpected((runs1 + runs2)[runs1.len() + i]@, interop, expected, id));
        }
    }
}

} // verus!
