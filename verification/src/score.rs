//! The scoring engine: per-run scoring, error handling, and the
//! cross-run unexpected-failure set.

use vstd::prelude::*;

use crate::model::{Results, Status, SubtestResult, count_passes, test_passes, test_score,
    test_total};

verus! {

/// One entry of a run's mapping: a test identifier and its result.
#[derive(Debug)]
pub struct RunEntry {
    pub test_id: String,
    pub results: Results,
}

/// Whether some identifier in `ids` reads as `id`.
pub open spec fn id_in(ids: Seq<String>, id: Seq<char>) -> bool {
    exists|k: int| 0 <= k < ids.len() && ids[k]@ == id
}

/// All identifiers in `ids` are pairwise distinct (as character sequences).
pub open spec fn distinct_ids(ids: Seq<String>) -> bool {
    forall|i: int, j: int| 0 <= i < j < ids.len() ==> ids[i]@ != ids[j]@
}

/// All test identifiers of a run's entries are pairwise distinct.
pub open spec fn distinct_entry_ids(entries: Seq<RunEntry>) -> bool {
    forall|i: int, j: int| 0 <= i < j < entries.len() ==> entries[i].test_id@ != entries[j].test_id@
}

/// Whether some entry of the run carries the test identifier `id`.
pub open spec fn entry_id_in(entries: Seq<RunEntry>, id: Seq<char>) -> bool {
    exists|j: int| 0 <= j < entries.len() && entries[j].test_id@ == id
}

/// What one entry adds to its run's point total: the test's score if its
/// identifier is an interop test, and nothing otherwise.
pub open spec fn entry_points(e: RunEntry, interop: Seq<String>) -> int {
    if id_in(interop, e.test_id@) {
        test_score(e.results)
    } else {
        0
    }
}

/// The point total of a run: the sum of its entries' contributions.
pub open spec fn run_points(entries: Seq<RunEntry>, interop: Seq<String>) -> int
    decreases entries.len(),
{
    if entries.len() == 0 {
        0
    } else {
        run_points(entries.drop_last(), interop) + entry_points(entries.last(), interop)
    }
}

/// The score of a run: its point total divided (truncating) by the size
/// of the interop-tests set. A declared interop test absent from the run
/// adds nothing to the points yet still counts in the denominator.
pub open spec fn run_score(entries: Seq<RunEntry>, interop: Seq<String>) -> int {
    run_points(entries, interop) / interop.len() as int
}

/// Whether an entry is an unexpected failure: a scored, subtest-bearing
/// test whose overall status is not `Okay` and whose identifier was not
/// pre-declared as allowed to fail. A test without subtests never takes
/// part, whatever its status.
pub open spec fn entry_unexpected(e: RunEntry, interop: Seq<String>, expected: Seq<String>) -> bool {
    &&& id_in(interop, e.test_id@)
    &&& e.results.subtests@.len() > 0
    &&& e.results.status != Status::Okay
    &&& !id_in(expected, e.test_id@)
}

/// Whether `id` names an unexpected failure somewhere in one run.
pub open spec fn run_unexpected(
    entries: Seq<RunEntry>,
    interop: Seq<String>,
    expected: Seq<String>,
    id: Seq<char>,
) -> bool {
    exists|j: int|
        0 <= j < entries.len() && entries[j].test_id@ == id && entry_unexpected(
            entries[j],
            interop,
            expected,
        )
}

/// Whether `id` names an unexpected failure somewhere in a sequence of runs.
pub open spec fn runs_unexpected(
    runs: Seq<Vec<RunEntry>>,
    interop: Seq<String>,
    expected: Seq<String>,
    id: Seq<char>,
) -> bool {
    exists|i: int| 0 <= i < runs.len() && run_unexpected(runs[i]@, interop, expected, id)
}

/// The trace of a run: for each scored entry, in run order, its
/// identifier, pass count and subtest total.
pub open spec fn scored_records(entries: Seq<RunEntry>, interop: Seq<String>) -> Seq<
    (Seq<char>, int, int),
>
    decreases entries.len(),
{
    if entries.len() == 0 {
        Seq::empty()
    } else {
        let rest = scored_records(entries.drop_last(), interop);
        let e = entries.last();
        if id_in(interop, e.test_id@) {
            rest.push((e.test_id@, test_passes(e.results), test_total(e.results)))
        } else {
            rest
        }
    }
}

/// The set of identifiers of a run's scored entries.
pub open spec fn matched_ids(entries: Seq<RunEntry>, interop: Seq<String>) -> Set<Seq<char>>
    decreases entries.len(),
{
    if entries.len() == 0 {
        Set::empty()
    } else {
        let rest = matched_ids(entries.drop_last(), interop);
        if id_in(interop, entries.last().test_id@) {
            rest.insert(entries.last().test_id@)
        } else {
            rest
        }
    }
}

pub(crate) proof fn lemma_matched_ids_facts(entries: Seq<RunEntry>, interop: Seq<String>)
    ensures
        matched_ids(entries, interop).finite(),
        forall|id: Seq<char>| #[trigger]
            matched_ids(entries, interop).contains(id) ==> id_in(interop, id) && entry_id_in(
                entries,
                id,
            ),
    decreases entries.len(),
{
    if entries.len() > 0 {
        let d = entries.drop_last();
        lemma_matched_ids_facts(d, interop);
        assert forall|id: Seq<char>| #[trigger]
            matched_ids(entries, interop).contains(id) implies id_in(interop, id) && entry_id_in(
            entries,
            id,
        ) by {
            if matched_ids(d, interop).contains(id) {
                let j = choose|j: int| 0 <= j < d.len() && d[j].test_id@ == id;
                assert(entries[j].test_id@ == id);
            } else {
                assert(id == entries.last().test_id@);
                assert(entries[entries.len() - 1].test_id@ == id);
            }
        }
    }
}

/// With distinct test identifiers, a run's point total is bounded by
/// 1000 points per scored identifier.
proof fn lemma_run_points_bounds(entries: Seq<RunEntry>, interop: Seq<String>)
    requires
        distinct_entry_ids(entries),
    ensures
        0 <= run_points(entries, interop) <= 1000 * matched_ids(entries, interop).len(),
    decreases entries.len(),
{
    lemma_matched_ids_facts(entries, interop);
    if entries.len() > 0 {
        let d = entries.drop_last();
        let e = entries.last();
        assert(distinct_entry_ids(d));
        lemma_run_points_bounds(d, interop);
        lemma_matched_ids_facts(d, interop);
        if id_in(interop, e.test_id@) {
            crate::model::lemma_test_score_bounds(e.results);
            assert(!matched_ids(d, interop).contains(e.test_id@)) by {
                if matched_ids(d, interop).contains(e.test_id@) {
                    let j = choose|j: int| 0 <= j < d.len() && d[j].test_id@ == e.test_id@;
                    assert(entries[j].test_id@ == entries[entries.len() - 1].test_id@);
                }
            }
            assert(matched_ids(entries, interop).len() == matched_ids(d, interop).len() + 1);
        }
    }
}

/// The identifiers scored in a run all come from the interop set, so at
/// most `interop.len()` identifiers are scored.
proof fn lemma_matched_ids_card(entries: Seq<RunEntry>, interop: Seq<String>)
    ensures
        matched_ids(entries, interop).len() <= interop.len(),
{
    let views = interop.map_values(|s: String| s@);
    lemma_matched_ids_facts(entries, interop);
    assert(matched_ids(entries, interop) <= views.to_set()) by {
        assert forall|id: Seq<char>| #[trigger]
            matched_ids(entries, interop).contains(id) implies views.to_set().contains(id) by {
            let k = choose|k: int| 0 <= k < interop.len() && interop[k]@ == id;
            assert(views[k] == id);
        }
    }
    views.lemma_cardinality_of_set();
    vstd::set_lib::lemma_len_subset(matched_ids(entries, interop), views.to_set());
}

/// With distinct test identifiers and a nonempty interop set, a run's
/// score lies in `[0, 1000]`.
pub proof fn lemma_run_score_bounds(entries: Seq<RunEntry>, interop: Seq<String>)
    requires
        distinct_entry_ids(entries),
        interop.len() > 0,
    ensures
        0 <= run_score(entries, interop) <= 1000,
{
    let p = run_points(entries, interop);
    let n = interop.len() as int;
    lemma_run_points_bounds(entries, interop);
    lemma_matched_ids_card(entries, interop);
    assert(p <= 1000 * n) by (nonlinear_arith)
        requires
            p <= 1000 * matched_ids(entries, interop).len(),
            matched_ids(entries, interop).len() <= n,
    ;
    vstd::arithmetic::div_mod::lemma_div_pos_is_pos(p, n);
    vstd::arithmetic::div_mod::lemma_div_is_ordered(p, 1000 * n, n);
    vstd::arithmetic::div_mod::lemma_div_multiples_vanish(1000, n);
}

/// A per-test trace and accumulator record: the identifier of a scored
/// test together with its pass count and subtest total for one run.
#[derive(Debug)]
pub struct TestCount {
    pub test_id: String,
    pub passes: usize,
    pub total: usize,
}

/// The view of a sequence of per-test records, for contracts.
pub open spec fn counts_view(s: Seq<TestCount>) -> Seq<(Seq<char>, int, int)> {
    s.map_values(|c: TestCount| (c.test_id@, c.passes as int, c.total as int))
}

/// What scoring one run produces: the run's score and the run's own
/// additions to the cross-run accumulators, for the caller to merge.
#[derive(Debug)]
pub struct RunDelta {
    pub score: u64,
    pub unexpected_not_ok: Vec<String>,
    pub pass_counts: Vec<TestCount>,
}

/// An injectable sink for the engine's diagnostic trace. The engine
/// reports every scored test to it; where the trace goes is the host's
/// business, and nothing in the scoring contract depends on it.
pub trait ScoreObserver {
    fn on_test_scored(
        &mut self,
        test_id: &String,
        status: Status,
        run_passes: usize,
        run_total: usize,
    );
}

/// An observer that discards the trace.
pub struct SilentObserver;

impl ScoreObserver for SilentObserver {
    fn on_test_scored(
        &mut self,
        _test_id: &String,
        _status: Status,
        _run_passes: usize,
        _run_total: usize,
    ) {
    }
}

proof fn lemma_id_in_push(ids: Seq<String>, x: String)
    ensures
        forall|id: Seq<char>| id_in(ids.push(x), id) <==> (id_in(ids, id) || x@ == id),
{
    assert forall|id: Seq<char>| id_in(ids.push(x), id) implies (id_in(ids, id) || x@ == id) by {
        let k = choose|k: int| 0 <= k < ids.push(x).len() && ids.push(x)[k]@ == id;
        if k < ids.len() {
            assert(ids[k]@ == id);
        }
    }
    assert forall|id: Seq<char>| (id_in(ids, id) || x@ == id) implies id_in(ids.push(x), id) by {
        if id_in(ids, id) {
            let k = choose|k: int| 0 <= k < ids.len() && ids[k]@ == id;
            assert(ids.push(x)[k]@ == id);
        } else {
            assert(ids.push(x)[ids.len() as int]@ == id);
        }
    }
}

proof fn lemma_run_unexpected_step(
    entries: Seq<RunEntry>,
    interop: Seq<String>,
    expected: Seq<String>,
    k: int,
)
    requires
        0 <= k < entries.len(),
    ensures
        forall|id: Seq<char>|
            run_unexpected(entries.take(k + 1), interop, expected, id) <==> (run_unexpected(
                entries.take(k),
                interop,
                expected,
                id,
            ) || (entries[k].test_id@ == id && entry_unexpected(entries[k], interop, expected))),
{
    let pre = entries.take(k);
    let post = entries.take(k + 1);
    assert forall|id: Seq<char>| run_unexpected(post, interop, expected, id) implies (
    run_unexpected(pre, interop, expected, id) || (entries[k].test_id@ == id && entry_unexpected(
        entries[k],
        interop,
        expected,
    ))) by {
        let j = choose|j: int|
            0 <= j < post.len() && post[j].test_id@ == id && entry_unexpected(
                post[j],
                interop,
                expected,
            );
        if j < k {
            assert(pre[j] == post[j]);
        } else {
            assert(post[j] == entries[k]);
        }
    }
    assert forall|id: Seq<char>| (run_unexpected(pre, interop, expected, id) || (
    entries[k].test_id@ == id && entry_unexpected(entries[k], interop, expected))) implies
        run_unexpected(post, interop, expected, id) by {
        if run_unexpected(pre, interop, expected, id) {
            let j = choose|j: int|
                0 <= j < pre.len() && pre[j].test_id@ == id && entry_unexpected(
                    pre[j],
                    interop,
                    expected,
                );
            assert(post[j] == pre[j]);
        } else {
            assert(post[k] == entries[k]);
        }
    }
}

/// Count the subtests whose status is `Pass`.
fn count_pass_subtests(subtests: &Vec<SubtestResult>) -> (n: usize)
    ensures
        n as int == count_passes(subtests@),
        n <= subtests@.len(),
{
    let mut n: usize = 0;
    let mut k: usize = 0;
    while k < subtests.len()
        invariant
            k <= subtests@.len(),
            n as int == count_passes(subtests@.take(k as int)),
            n <= k,
        decreases subtests@.len() - k,
    {
        proof {
            assert(subtests@.take(k as int + 1).drop_last() =~= subtests@.take(k as int));
            assert(subtests@.take(k as int + 1).last() == subtests@[k as int]);
        }
        if subtests[k].status == Status::Pass {
            n += 1;
        }
        k += 1;
    }
    proof {
        assert(subtests@.take(subtests@.len() as int) =~= subtests@);
    }
    n
}

/// Score one run against the interop-tests set, reporting each scored
/// test to the observer and returning the run's score together with the
/// run's unexpected failures and per-test pass counts.
pub fn score_run<Obs: ScoreObserver>(
    run: &Vec<RunEntry>,
    interop_tests: &Vec<String>,
    expected_not_ok: &Vec<String>,
    observer: &mut Obs,
) -> (delta: RunDelta)
    requires
        interop_tests@.len() > 0,
        distinct_ids(interop_tests@),
        distinct_ids(expected_not_ok@),
        distinct_entry_ids(run@),
    ensures
        delta.score as int == run_score(run@, interop_tests@),
        delta.score <= 1000,
        distinct_ids(delta.unexpected_not_ok@),
        forall|id: Seq<char>|
            id_in(delta.unexpected_not_ok@, id) <==> run_unexpected(
                run@,
                interop_tests@,
                expected_not_ok@,
                id,
            ),
        counts_view(delta.pass_counts@) == scored_records(run@, interop_tests@),
{
    let mut sum: u128 = 0;
    let mut unexpected: Vec<String> = Vec::new();
    let mut pass_counts: Vec<TestCount> = Vec::new();
    let mut idx: usize = 0;
    while idx < run.len()
        invariant
            idx <= run@.len(),
            interop_tests@.len() > 0,
            distinct_entry_ids(run@),
            sum as int == run_points(run@.take(idx as int), interop_tests@),
            sum <= 1000 * (idx as int),
            distinct_ids(unexpected@),
            forall|id: Seq<char>|
                id_in(unexpected@, id) <==> run_unexpected(
                    run@.take(idx as int),
                    interop_tests@,
                    expected_not_ok@,
                    id,
                ),
            counts_view(pass_counts@) == scored_records(run@.take(idx as int), interop_tests@),
        decreases run@.len() - idx,
    {
        let ghost pre = run@.take(idx as int);
        let ghost post = run@.take(idx as int + 1);
        let e = &run[idx];
        let ghost u0 = unexpected@;
        proof {
            assert(post.drop_last() =~= pre);
            assert(post.last() == run@[idx as int]);
            lemma_run_unexpected_step(run@, interop_tests@, expected_not_ok@, idx as int);
            lemma_id_in_push(u0, e.test_id);
        }
        if contains_id(interop_tests, &e.test_id) {
            let total: usize;
            let passes: usize;
            if e.results.subtests.len() > 0 {
                total = e.results.subtests.len();
                passes = count_pass_subtests(&e.results.subtests);
                let not_ok = !(e.results.status == Status::Okay);
                if not_ok && !contains_id(expected_not_ok, &e.test_id) && !contains_id(
                    &unexpected,
                    &e.test_id,
                ) {
                    unexpected.push(e.test_id.clone());
                    proof {
                        assert(unexpected@ == u0.push(e.test_id));
                    }
                }
            } else {
                total = 1;
                passes = if e.results.status == Status::Pass {
                    1
                } else {
                    0
                };
            }
            proof {
                assert(passes as int == test_passes(e.results));
                assert(total as int == test_total(e.results));
            }
            observer.on_test_scored(&e.test_id, e.results.status, passes, total);
            pass_counts.push(
                TestCount { test_id: e.test_id.clone(), passes: passes, total: total },
            );
            proof {
                assert(counts_view(pass_counts@) =~= scored_records(post, interop_tests@));
            }
            let contribution: u128 = (1000 as u128 * passes as u128) / (total as u128);
            proof {
                crate::model::lemma_test_score_bounds(e.results);
                assert(contribution as int == test_score(e.results));
            }
            sum = sum + contribution;
        } else {
            proof {
                assert(counts_view(pass_counts@) =~= scored_records(post, interop_tests@));
            }
        }
        proof {
            assert forall|id: Seq<char>|
                id_in(unexpected@, id) == run_unexpected(
                    post,
                    interop_tests@,
                    expected_not_ok@,
                    id,
                ) by {
                assert(id_in(u0, id) == run_unexpected(pre, interop_tests@, expected_not_ok@, id));
                assert(id_in(u0.push(e.test_id), id) <==> (id_in(u0, id) || e.test_id@ == id));
                assert(run_unexpected(post, interop_tests@, expected_not_ok@, id) <==> (
                run_unexpected(pre, interop_tests@, expected_not_ok@, id) || (
                run@[idx as int].test_id@ == id && entry_unexpected(
                    run@[idx as int],
                    interop_tests@,
                    expected_not_ok@,
                ))));
            }
        }
        idx += 1;
    }
    proof {
        assert(run@.take(run@.len() as int) =~= run@);
        lemma_run_score_bounds(run@, interop_tests@);
    }
    let n: u128 = interop_tests.len() as u128;
    let score128: u128 = sum / n;
    let score: u64 = score128 as u64;
    RunDelta { score: score, unexpected_not_ok: unexpected, pass_counts: pass_counts }
}

/// The cross-run history of one test: its pass count and subtest total
/// from each run that scored it, in run order. The engine keeps this
/// internally while scoring; it is not part of the public result.
#[derive(Debug)]
pub struct PassCount {
    pub passes: Vec<usize>,
    pub total: Vec<usize>,
}

impl PassCount {
    /// An empty history.
    pub fn new() -> (c: PassCount)
        ensures
            c.passes@.len() == 0,
            c.total@.len() == 0,
    {
        PassCount { passes: Vec::new(), total: Vec::new() }
    }

    /// Append one run's pass count and total.
    pub fn record(&mut self, passes: usize, total: usize)
        ensures
            final(self).passes@ == old(self).passes@.push(passes),
            final(self).total@ == old(self).total@.push(total),
    {
        self.passes.push(passes);
        self.total.push(total);
    }
}

struct PassRecord {
    test_id: String,
    counts: PassCount,
}

/// Why a scoring call failed.
#[derive(Clone, Copy, Debug, PartialEq, Eq, Structural)]
pub enum ScoreError {
    /// The interop-tests set was empty, so the per-run average is
    /// undefined.
    EmptyInteropSet,
}

/// What a scoring call returns: one score per run, in run order, and the
/// identifiers of the tests that failed unexpectedly in any run.
#[derive(Debug)]
pub struct ScoreOutcome {
    pub scores: Vec<u64>,
    pub unexpected_not_ok: Vec<String>,
}

proof fn lemma_id_in_take_step(ids: Seq<String>, k: int)
    requires
        0 <= k < ids.len(),
    ensures
        forall|id: Seq<char>|
            id_in(ids.take(k + 1), id) <==> (id_in(ids.take(k), id) || ids[k]@ == id),
{
    let pre = ids.take(k);
    let post = ids.take(k + 1);
    assert forall|id: Seq<char>| id_in(post, id) implies (id_in(pre, id) || ids[k]@ == id) by {
        let j = choose|j: int| 0 <= j < post.len() && post[j]@ == id;
        if j < k {
            assert(pre[j]@ == id);
        }
    }
    assert forall|id: Seq<char>| (id_in(pre, id) || ids[k]@ == id) implies id_in(post, id) by {
        if id_in(pre, id) {
            let j = choose|j: int| 0 <= j < pre.len() && pre[j]@ == id;
            assert(post[j]@ == id);
        } else {
            assert(post[k]@ == id);
        }
    }
}

/// Add every identifier of `delta` that `acc` does not yet hold.
fn merge_ids(acc: &mut Vec<String>, delta: &Vec<String>)
    requires
        distinct_ids(old(acc)@),
    ensures
        distinct_ids(final(acc)@),
        forall|id: Seq<char>|
            id_in(final(acc)@, id) <==> (id_in(old(acc)@, id) || id_in(delta@, id)),
{
    let mut k: usize = 0;
    while k < delta.len()
        invariant
            k <= delta@.len(),
            distinct_ids(acc@),
            forall|id: Seq<char>|
                id_in(acc@, id) <==> (id_in(old(acc)@, id) || id_in(
                    delta@.take(k as int),
                    id,
                )),
        decreases delta@.len() - k,
    {
        let ghost a0 = acc@;
        let x = &delta[k];
        proof {
            lemma_id_in_push(a0, delta@[k as int]);
            lemma_id_in_take_step(delta@, k as int);
        }
        if !contains_id(acc, x) {
            acc.push(x.clone());
            proof {
                assert(acc@ == a0.push(delta@[k as int]));
            }
        }
        proof {
            assert forall|id: Seq<char>|
                id_in(acc@, id) == (id_in(old(acc)@, id) || id_in(
                    delta@.take(k as int + 1),
                    id,
                )) by {
                assert(id_in(a0, id) == (id_in(old(acc)@, id) || id_in(delta@.take(k as int), id)));
                assert(id_in(a0.push(delta@[k as int]), id) <==> (id_in(a0, id) || delta@[k as
                    int]@ == id));
                assert(id_in(delta@.take(k as int + 1), id) <==> (id_in(delta@.take(k as int), id)
                    || delta@[k as int]@ == id));
            }
        }
        k += 1;
    }
    proof {
        assert(delta@.take(delta@.len() as int) =~= delta@);
    }
}

/// Find the history record of a test identifier, if one exists.
fn find_record(acc: &Vec<PassRecord>, id: &String) -> (r: Option<usize>)
    ensures
        r is Some ==> r->0 < acc@.len(),
{
    let mut k: usize = 0;
    while k < acc.len()
        invariant
            k <= acc@.len(),
        decreases acc@.len() - k,
    {
        if acc[k].test_id == *id {
            return Some(k);
        }
        k += 1;
    }
    None
}

/// Fold one run's per-test records into the cross-run history.
fn record_counts(acc: &mut Vec<PassRecord>, delta: &Vec<TestCount>) {
    let mut k: usize = 0;
    while k < delta.len()
        decreases delta@.len() - k,
    {
        let c = &delta[k];
        match find_record(acc, &c.test_id) {
            Some(i) => {
                let mut rec = acc.remove(i);
                rec.counts.record(c.passes, c.total);
                acc.push(rec);
            },
            None => {
                let mut counts = PassCount::new();
                counts.record(c.passes, c.total);
                acc.push(PassRecord { test_id: c.test_id.clone(), counts: counts });
            },
        }
        k += 1;
    }
}

proof fn lemma_runs_unexpected_step(
    runs: Seq<Vec<RunEntry>>,
    interop: Seq<String>,
    expected: Seq<String>,
    k: int,
)
    requires
        0 <= k < runs.len(),
    ensures
        forall|id: Seq<char>|
            runs_unexpected(runs.take(k + 1), interop, expected, id) <==> (runs_unexpected(
                runs.take(k),
                interop,
                expected,
                id,
            ) || run_unexpected(runs[k]@, interop, expected, id)),
{
    let pre = runs.take(k);
    let post = runs.take(k + 1);
    assert forall|id: Seq<char>| runs_unexpected(post, interop, expected, id) implies (
    runs_unexpected(pre, interop, expected, id) || run_unexpected(runs[k]@, interop, expected, id)) by {
        let j = choose|j: int| 0 <= j < post.len() && run_unexpected(post[j]@, interop, expected, id);
        if j < k {
            assert(run_unexpected(pre[j]@, interop, expected, id));
        } else {
            assert(post[j] == runs[k]);
        }
    }
    assert forall|id: Seq<char>| (runs_unexpected(pre, interop, expected, id) || run_unexpected(
        runs[k]@,
        interop,
        expected,
        id,
    )) implies runs_unexpected(post, interop, expected, id) by {
        if runs_unexpected(pre, interop, expected, id) {
            let j = choose|j: int| 0 <= j < pre.len() && run_unexpected(pre[j]@, interop, expected, id);
            assert(post[j] == pre[j]);
        } else {
            assert(post[k] == runs[k]);
        }
    }
}

/// Score every run against the interop-tests set, reporting each scored
/// test to the observer. Returns one score per run, in run order, and
/// the identifiers of all tests that failed unexpectedly in any run;
/// fails exactly when the interop-tests set is empty.
pub fn score_runs_observed<Obs: ScoreObserver>(
    runs: &Vec<Vec<RunEntry>>,
    interop_tests: &Vec<String>,
    expected_not_ok: &Vec<String>,
    observer: &mut Obs,
) -> (result: Result<ScoreOutcome, ScoreError>)
    requires
        distinct_ids(interop_tests@),
        distinct_ids(expected_not_ok@),
        forall|i: int| 0 <= i < runs@.len() ==> distinct_entry_ids(runs@[i]@),
    ensures
        result is Err <==> interop_tests@.len() == 0,
        result is Err ==> result->Err_0 == ScoreError::EmptyInteropSet,
        result is Ok ==> ({
            let out = result->Ok_0;
            &&& out.scores@.len() == runs@.len()
            &&& forall|i: int|
                0 <= i < runs@.len() ==> out.scores@[i] as int == run_score(
                    runs@[i]@,
                    interop_tests@,
                )
            &&& forall|i: int| 0 <= i < runs@.len() ==> out.scores@[i] <= 1000
            &&& distinct_ids(out.unexpected_not_ok@)
            &&& forall|id: Seq<char>|
                id_in(out.unexpected_not_ok@, id) <==> runs_unexpected(
                    runs@,
                    interop_tests@,
                    expected_not_ok@,
                    id,
                )
        }),
{
    if interop_tests.len() == 0 {
        return Err(ScoreError::EmptyInteropSet);
    }
    let mut scores: Vec<u64> = Vec::new();
    let mut unexpected: Vec<String> = Vec::new();
    let mut history: Vec<PassRecord> = Vec::new();
    let mut i: usize = 0;
    while i < runs.len()
        invariant
            i <= runs@.len(),
            interop_tests@.len() > 0,
            distinct_ids(interop_tests@),
            distinct_ids(expected_not_ok@),
            forall|j: int| 0 <= j < runs@.len() ==> distinct_entry_ids(runs@[j]@),
            scores@.len() == i as int,
            forall|j: int|
                0 <= j < i ==> scores@[j] as int == run_score(runs@[j]@, interop_tests@),
            forall|j: int| 0 <= j < i ==> scores@[j] <= 1000,
            distinct_ids(unexpected@),
            forall|id: Seq<char>|
                id_in(unexpected@, id) <==> runs_unexpected(
                    runs@.take(i as int),
                    interop_tests@,
                    expected_not_ok@,
                    id,
                ),
        decreases runs@.len() - i,
    {
        let ghost u0 = unexpected@;
        proof {
            lemma_runs_unexpected_step(runs@, interop_tests@, expected_not_ok@, i as int);
        }
        let delta = score_run(&runs[i], interop_tests, expected_not_ok, observer);
        scores.push(delta.score);
        merge_ids(&mut unexpected, &delta.unexpected_not_ok);
        record_counts(&mut history, &delta.pass_counts);
        proof {
            assert forall|id: Seq<char>|
                id_in(unexpected@, id) == runs_unexpected(
                    runs@.take(i as int + 1),
                    interop_tests@,
                    expected_not_ok@,
                    id,
                ) by {
                assert(id_in(u0, id) == runs_unexpected(
                    runs@.take(i as int),
                    interop_tests@,
                    expected_not_ok@,
                    id,
                ));
                assert(id_in(delta.unexpected_not_ok@, id) == run_unexpected(
                    runs@[i as int]@,
                    interop_tests@,
                    expected_not_ok@,
                    id,
                ));
                assert(id_in(unexpected@, id) <==> (id_in(u0, id) || id_in(
                    delta.unexpected_not_ok@,
                    id,
                )));
            }
        }
        i += 1;
    }
    proof {
        assert(runs@.take(runs@.len() as int) =~= runs@);
    }
    Ok(ScoreOutcome { scores: scores, unexpected_not_ok: unexpected })
}

/// Score every run with the diagnostic trace discarded.
pub fn score_runs(
    runs: &Vec<Vec<RunEntry>>,
    interop_tests: &Vec<String>,
    expected_not_ok: &Vec<String>,
) -> (result: Result<ScoreOutcome, ScoreError>)
    requires
        distinct_ids(interop_tests@),
        distinct_ids(expected_not_ok@),
        forall|i: int| 0 <= i < runs@.len() ==> distinct_entry_ids(runs@[i]@),
    ensures
        result is Err <==> interop_tests@.len() == 0,
        result is Err ==> result->Err_0 == ScoreError::EmptyInteropSet,
        result is Ok ==> ({
            let out = result->Ok_0;
            &&& out.scores@.len() == runs@.len()
            &&& forall|i: int|
                0 <= i < runs@.len() ==> out.scores@[i] as int == run_score(
                    runs@[i]@,
                    interop_tests@,
                )
            &&& forall|i: int| 0 <= i < runs@.len() ==> out.scores@[i] <= 1000
            &&& distinct_ids(out.unexpected_not_ok@)
            &&& forall|id: Seq<char>|
                id_in(out.unexpected_not_ok@, id) <==> runs_unexpected(
                    runs@,
                    interop_tests@,
                    expected_not_ok@,
                    id,
                )
        }),
{
    let mut observer = SilentObserver;
    score_runs_observed(runs, interop_tests, expected_not_ok, &mut observer)
}

/// Membership test on a vector of identifiers.
fn contains_id(ids: &Vec<String>, id: &String) -> (r: bool)
    ensures
        r == id_in(ids@, id@),
{
    let mut k: usize = 0;
    while k < ids.len()
        invariant
            k <= ids@.len(),
            forall|j: int| 0 <= j < k ==> ids@[j]@ != id@,
        decreases ids@.len() - k,
    {
        if ids[k] == *id {
            return true;
        }
        k += 1;
    }
    false
}

} // verus!
