//! The result of a campaign, put together from what its workers hand over.

use vstd::prelude::*;

use crate::failure::{error_models, ErrorView, InvariantFuzzError};
use crate::fixed::Word;
use crate::metrics::{metrics_at, metrics_of, InvariantMetrics, MetricsMap};
use crate::ordered::{map_of, map_of_next, sorted_entry_is_mapped, sorted_prefix, OrderedKey, OrderedMap};
use crate::run::{case_models, improves, is_better, trace_models, FuzzCase, FuzzedCases, TestDataView};
use crate::shared::InvariantWorkerState;
use crate::tx::{tx_models, BasicTxDetails, BasicTxDetailsView};

verus! {

/// The outcome of a campaign. `T` is the trace of a call.
pub struct InvariantFuzzTestResult<T> {
    /// What failed under each key.
    pub errors: OrderedMap<String, InvariantFuzzError>,
    /// What the calls of each run cost.
    pub cases: Vec<FuzzedCases>,
    /// The number of reverts.
    pub reverts: usize,
    /// The call sequence of the last run, to be replayed.
    pub last_run_inputs: Vec<BasicTxDetails>,
    /// Traces for the gas report.
    pub gas_report_traces: Vec<Vec<T>>,
    /// Counts per selector.
    pub metrics: MetricsMap,
    /// The number of saved sequences that did not replay.
    pub failed_corpus_replays: usize,
    /// The largest value seen, where the campaign maximizes one.
    pub optimization_best_value: Option<Word>,
    /// The call sequence that gave the largest value.
    pub optimization_best_sequence: Vec<BasicTxDetails>,
}

/// The model of [`InvariantFuzzTestResult`].
pub struct ResultView<T> {
    pub errors: Map<Seq<char>, ErrorView>,
    pub cases: Seq<Seq<FuzzCase>>,
    pub reverts: nat,
    pub last_run_inputs: Seq<BasicTxDetailsView>,
    pub gas_report_traces: Seq<Seq<T>>,
    pub metrics: Map<Seq<char>, InvariantMetrics>,
    pub failed_corpus_replays: nat,
    pub optimization_best_value: Option<Word>,
    pub optimization_best_sequence: Seq<BasicTxDetailsView>,
}

impl<T> View for InvariantFuzzTestResult<T> {
    type V = ResultView<T>;

    open spec fn view(&self) -> ResultView<T> {
        ResultView {
            errors: error_models(self.errors@),
            cases: case_models(self.cases@),
            reverts: self.reverts as nat,
            last_run_inputs: tx_models(self.last_run_inputs@),
            gas_report_traces: trace_models(self.gas_report_traces@),
            metrics: self.metrics@,
            failed_corpus_replays: self.failed_corpus_replays as nat,
            optimization_best_value: self.optimization_best_value,
            optimization_best_sequence: tx_models(self.optimization_best_sequence@),
        }
    }
}

impl<T> InvariantFuzzTestResult<T> {
    /// The errors and the counts are in the order of their keys.
    pub open spec fn wf(self) -> bool {
        &&& self.errors.wf()
        &&& self.metrics.wf()
    }
}

/// What a worker hands over.
pub struct WorkerReport<T> {
    pub id: nat,
    pub data: TestDataView<T>,
    pub runs: nat,
    pub failed_corpus_replays: nat,
}

impl<T> View for InvariantWorkerState<T> {
    type V = WorkerReport<T>;

    open spec fn view(&self) -> WorkerReport<T> {
        WorkerReport {
            id: self.id as nat,
            data: self.data@,
            runs: self.runs as nat,
            failed_corpus_replays: self.failed_corpus_replays as nat,
        }
    }
}

/// What the workers hand over.
pub open spec fn worker_reports<T>(workers: Seq<InvariantWorkerState<T>>) -> Seq<WorkerReport<T>> {
    Seq::new(workers.len(), |i: int| workers[i]@)
}

/// The counts of `a` and `b` together.
pub open spec fn merged_metrics(
    a: Map<Seq<char>, InvariantMetrics>,
    b: Map<Seq<char>, InvariantMetrics>,
) -> Map<Seq<char>, InvariantMetrics> {
    Map::new(
        |key: Seq<char>| a.dom().contains(key) || b.dom().contains(key),
        |key: Seq<char>|
            if b.dom().contains(key) {
                metrics_at(a, key).plus(b[key])
            } else {
                a[key]
            },
    )
}

impl<T> ResultView<T> {
    /// The result of no workers.
    pub open spec fn empty() -> ResultView<T> {
        ResultView {
            errors: Map::empty(),
            cases: Seq::empty(),
            reverts: 0,
            last_run_inputs: Seq::empty(),
            gas_report_traces: Seq::empty(),
            metrics: Map::empty(),
            failed_corpus_replays: 0,
            optimization_best_value: None,
            optimization_best_sequence: Seq::empty(),
        }
    }

    /// The result with what one worker more hands over. An error that is there already stays; the
    /// inputs of the last run come from the first worker with an error, or from the worker with
    /// number zero where there is none.
    pub open spec fn merged(self, worker: WorkerReport<T>) -> ResultView<T> {
        let data = worker.data;
        let better = data.optimization_best_value matches Some(value) && is_better(
            self.optimization_best_value,
            value,
        );
        ResultView {
            errors: data.failures.errors.union_prefer_right(self.errors),
            cases: self.cases + data.fuzz_cases,
            reverts: self.reverts + data.failures.reverts,
            last_run_inputs: if self.errors.dom().is_empty() && (worker.id == 0
                || !data.failures.errors.dom().is_empty()) {
                data.last_run_inputs
            } else {
                self.last_run_inputs
            },
            gas_report_traces: self.gas_report_traces + data.gas_report_traces,
            metrics: merged_metrics(self.metrics, data.metrics),
            failed_corpus_replays: if worker.id == 0 {
                worker.failed_corpus_replays
            } else {
                self.failed_corpus_replays
            },
            optimization_best_value: if better {
                data.optimization_best_value
            } else {
                self.optimization_best_value
            },
            optimization_best_sequence: if better {
                data.optimization_best_sequence
            } else {
                self.optimization_best_sequence
            },
        }
    }
}

/// The result of a campaign with these workers.
pub open spec fn aggregated<T>(workers: Seq<WorkerReport<T>>) -> ResultView<T>
    decreases workers.len(),
{
    if workers.len() == 0 {
        ResultView::empty()
    } else {
        aggregated(workers.drop_last()).merged(workers.last())
    }
}

/// The sum of `count` over `workers`.
pub open spec fn sum_over<T>(workers: Seq<WorkerReport<T>>, count: spec_fn(WorkerReport<T>) -> nat) -> nat
    decreases workers.len(),
{
    if workers.len() == 0 {
        0
    } else {
        sum_over(workers.drop_last(), count) + count(workers.last())
    }
}

/// The sum over the first workers is at most the sum over all.
proof fn sums_grow<T>(workers: Seq<WorkerReport<T>>, count: spec_fn(WorkerReport<T>) -> nat, n: int)
    requires
        0 <= n <= workers.len(),
    ensures
        sum_over(workers.take(n), count) <= sum_over(workers, count),
    decreases workers.len(),
{
    if n == workers.len() {
        assert(workers.take(n) =~= workers);
    } else {
        sums_grow(workers.drop_last(), count, n);
        assert(workers.drop_last().take(n) =~= workers.take(n));
    }
}

/// The number of reverts that a worker counted.
pub open spec fn reverts_of<T>() -> spec_fn(WorkerReport<T>) -> nat {
    |worker: WorkerReport<T>| worker.data.failures.reverts
}

/// The calls that a worker counted under `key`.
pub open spec fn calls_at<T>(key: Seq<char>) -> spec_fn(WorkerReport<T>) -> nat {
    |worker: WorkerReport<T>| metrics_at(worker.data.metrics, key).calls as nat
}

/// The reverts that a worker counted under `key`.
pub open spec fn reverts_at<T>(key: Seq<char>) -> spec_fn(WorkerReport<T>) -> nat {
    |worker: WorkerReport<T>| metrics_at(worker.data.metrics, key).reverts as nat
}

/// The discarded calls that a worker counted under `key`.
pub open spec fn discards_at<T>(key: Seq<char>) -> spec_fn(WorkerReport<T>) -> nat {
    |worker: WorkerReport<T>| metrics_at(worker.data.metrics, key).discards as nat
}

/// The sums of all counts are representable.
pub open spec fn sums_fit<T>(workers: Seq<WorkerReport<T>>) -> bool {
    &&& sum_over(workers, reverts_of()) <= usize::MAX
    &&& forall|key: Seq<char>| #[trigger] sum_over(workers, calls_at(key)) <= usize::MAX
    &&& forall|key: Seq<char>| #[trigger] sum_over(workers, reverts_at(key)) <= usize::MAX
    &&& forall|key: Seq<char>| #[trigger] sum_over(workers, discards_at(key)) <= usize::MAX
}

/// Sums over the first workers are representable where the sums over all are.
proof fn sums_fit_before<T>(workers: Seq<WorkerReport<T>>, n: int)
    requires
        0 <= n <= workers.len(),
        sums_fit(workers),
    ensures
        sums_fit(workers.take(n)),
{
    sums_grow(workers, reverts_of(), n);
    assert forall|key: Seq<char>| #[trigger] sum_over(workers.take(n), calls_at(key)) <= usize::MAX by {
        sums_grow(workers, calls_at(key), n);
    }
    assert forall|key: Seq<char>| #[trigger] sum_over(workers.take(n), reverts_at(key)) <= usize::MAX by {
        sums_grow(workers, reverts_at(key), n);
    }
    assert forall|key: Seq<char>| #[trigger] sum_over(workers.take(n), discards_at(key)) <= usize::MAX by {
        sums_grow(workers, discards_at(key), n);
    }
}

/// The result counts what the workers counted together: its reverts, and the calls, reverts and
/// discarded calls under each key, are the sums over all workers.
pub proof fn counts_are_sums<T>(workers: Seq<WorkerReport<T>>)
    requires
        sums_fit(workers),
    ensures
        aggregated(workers).reverts == sum_over(workers, reverts_of()),
        forall|key: Seq<char>|
            {
                let metrics = #[trigger] metrics_at(aggregated(workers).metrics, key);
                &&& metrics.calls == sum_over(workers, calls_at(key))
                &&& metrics.reverts == sum_over(workers, reverts_at(key))
                &&& metrics.discards == sum_over(workers, discards_at(key))
            },
    decreases workers.len(),
{
    if workers.len() > 0 {
        let front = workers.drop_last();
        assert(front =~= workers.take(workers.len() - 1));
        sums_fit_before(workers, workers.len() - 1);
        counts_are_sums(front);
        assert forall|key: Seq<char>|
            {
                let metrics = #[trigger] metrics_at(aggregated(workers).metrics, key);
                &&& metrics.calls == sum_over(workers, calls_at(key))
                &&& metrics.reverts == sum_over(workers, reverts_at(key))
                &&& metrics.discards == sum_over(workers, discards_at(key))
            } by {
            let before = metrics_at(aggregated(front).metrics, key);
            assert(before.calls == sum_over(front, calls_at(key)));
            assert(sum_over(workers, calls_at(key)) <= usize::MAX);
            assert(sum_over(workers, reverts_at(key)) <= usize::MAX);
            assert(sum_over(workers, discards_at(key)) <= usize::MAX);
        }
    }
}

/// Under each key the first error wins: the result has an error under a key exactly where some
/// worker has one, and it is the error of the first such worker.
pub proof fn first_error_wins<T>(workers: Seq<WorkerReport<T>>, key: Seq<char>, first: int)
    requires
        0 <= first < workers.len(),
        workers[first].data.failures.errors.dom().contains(key),
        forall|i: int| 0 <= i < first ==> !(#[trigger] workers[i]).data.failures.errors.dom().contains(key),
    ensures
        aggregated(workers).errors.dom().contains(key),
        aggregated(workers).errors[key] == workers[first].data.failures.errors[key],
    decreases workers.len(),
{
    let front = workers.drop_last();
    if first < front.len() {
        assert(front[first] == workers[first]);
        first_error_wins(front, key, first);
    } else {
        no_error_without_a_worker(front, key);
    }
}

/// The result has no error under a key that no worker has one under.
pub proof fn no_error_without_a_worker<T>(workers: Seq<WorkerReport<T>>, key: Seq<char>)
    requires
        forall|i: int| 0 <= i < workers.len() ==> !(#[trigger] workers[i]).data.failures.errors.dom().contains(key),
    ensures
        !aggregated(workers).errors.dom().contains(key),
    decreases workers.len(),
{
    if workers.len() > 0 {
        let front = workers.drop_last();
        assert forall|i: int| 0 <= i < front.len() implies !(#[trigger] front[i]).data.failures.errors.dom().contains(
            key,
        ) by {
            assert(front[i] == workers[i]);
        }
        no_error_without_a_worker(front, key);
        assert(!workers[workers.len() - 1].data.failures.errors.dom().contains(key));
    }
}

/// The best value of the result is one that a worker saw, and no worker saw a larger one.
pub proof fn best_value_is_the_largest<T>(workers: Seq<WorkerReport<T>>)
    ensures
        forall|i: int|
            0 <= i < workers.len() ==> ((#[trigger] workers[i]).data.optimization_best_value matches Some(value)
                ==> aggregated(workers).optimization_best_value matches Some(best) && best.signed_value()
                >= value.signed_value()),
        aggregated(workers).optimization_best_value is Some ==> exists|i: int|
            0 <= i < workers.len() && (#[trigger] workers[i]).data.optimization_best_value == aggregated(
                workers,
            ).optimization_best_value && workers[i].data.optimization_best_sequence == aggregated(
                workers,
            ).optimization_best_sequence,
    decreases workers.len(),
{
    if workers.len() > 0 {
        let front = workers.drop_last();
        best_value_is_the_largest(front);
        let last = workers[workers.len() - 1];
        assert forall|i: int|
            0 <= i < workers.len() implies ((#[trigger] workers[i]).data.optimization_best_value matches Some(value)
            ==> aggregated(workers).optimization_best_value matches Some(best) && best.signed_value()
            >= value.signed_value()) by {
            if i < front.len() {
                assert(front[i] == workers[i]);
            }
        }
        let before = aggregated(front);
        if aggregated(workers).optimization_best_value is Some {
            if last.data.optimization_best_value matches Some(value) && is_better(
                before.optimization_best_value,
                value,
            ) {
                assert(workers[workers.len() - 1].data.optimization_best_value == aggregated(
                    workers,
                ).optimization_best_value);
            } else {
                let i = choose|i: int|
                    0 <= i < front.len() && (#[trigger] front[i]).data.optimization_best_value
                        == before.optimization_best_value && front[i].data.optimization_best_sequence
                        == before.optimization_best_sequence;
                assert(workers[i] == front[i]);
            }
        }
    }
}

/// The number of runs that a worker finished.
pub open spec fn runs_of<T>() -> spec_fn(WorkerReport<T>) -> nat {
    |worker: WorkerReport<T>| worker.data.fuzz_cases.len()
}

/// The result holds what the calls of every run of every worker cost.
pub proof fn every_run_is_kept<T>(workers: Seq<WorkerReport<T>>, worker: int, run: int)
    ensures
        aggregated(workers).cases.len() == sum_over(workers, runs_of()),
        0 <= worker < workers.len() && 0 <= run < workers[worker].data.fuzz_cases.len() ==> aggregated(
            workers,
        ).cases.contains(workers[worker].data.fuzz_cases[run]),
    decreases workers.len(),
{
    if workers.len() > 0 {
        let front = workers.drop_last();
        every_run_is_kept(front, worker, run);
        let all = aggregated(workers).cases;
        let before = aggregated(front).cases;
        if 0 <= worker < workers.len() && 0 <= run < workers[worker].data.fuzz_cases.len() {
            let cases = workers[worker].data.fuzz_cases[run];
            if worker < front.len() {
                assert(front[worker] == workers[worker]);
                let k = before.index_of(cases);
                assert(all[k] == cases);
            } else {
                assert(all[before.len() + run] == cases);
            }
        }
    }
}

/// The inputs to replay are those of the first worker with an error.
pub proof fn replayed_inputs_come_from_the_first_failure<T>(workers: Seq<WorkerReport<T>>, first: int)
    requires
        0 <= first < workers.len(),
        !workers[first].data.failures.errors.dom().is_empty(),
        forall|i: int| 0 <= i < first ==> (#[trigger] workers[i]).data.failures.errors.dom().is_empty(),
    ensures
        aggregated(workers).last_run_inputs == workers[first].data.last_run_inputs,
        !aggregated(workers).errors.dom().is_empty(),
    decreases workers.len(),
{
    let front = workers.drop_last();
    if first < front.len() {
        assert(front[first] == workers[first]);
        replayed_inputs_come_from_the_first_failure(front, first);
        let key = choose|key: Seq<char>| aggregated(front).errors.dom().contains(key);
        assert(aggregated(workers).errors.dom().contains(key));
    } else {
        no_errors_without_failures(front);
        let key = choose|key: Seq<char>| workers[first].data.failures.errors.dom().contains(key);
        assert(aggregated(workers).errors.dom().contains(key));
    }
}

/// Where no worker failed the result has no error.
pub proof fn no_errors_without_failures<T>(workers: Seq<WorkerReport<T>>)
    requires
        forall|i: int| 0 <= i < workers.len() ==> (#[trigger] workers[i]).data.failures.errors.dom().is_empty(),
    ensures
        aggregated(workers).errors.dom().is_empty(),
    decreases workers.len(),
{
    if workers.len() > 0 {
        let front = workers.drop_last();
        no_errors_without_failures(front);
        assert(workers[workers.len() - 1].data.failures.errors.dom().is_empty());
    }
}

/// Adds the errors under keys that `errors` does not have yet.
fn merge_errors(errors: &mut OrderedMap<String, InvariantFuzzError>, other: &OrderedMap<String, InvariantFuzzError>)
    requires
        old(errors).wf(),
        other.wf(),
    ensures
        final(errors).wf(),
        error_models(final(errors)@) == error_models(other@).union_prefer_right(error_models(old(errors)@)),
{
    let ghost entries = other.entries@;
    let mut i: usize = 0;
    assert(error_models(errors@) =~= error_models(map_of(entries.take(0))).union_prefer_right(error_models(errors@)));
    while i < other.entries.len()
        invariant
            i <= entries.len(),
            entries == other.entries@,
            other.wf(),
            errors.wf(),
            error_models(errors@) == error_models(map_of(entries.take(i as int))).union_prefer_right(
                error_models(old(errors)@),
            ),
        decreases entries.len() - i,
    {
        let entry = &other.entries[i];
        let ghost before = errors@;
        let ghost key = entry.0@;
        proof {
            sorted_prefix(entries, i as int);
            map_of_next(entries, i as int);
            assert(error_models(before).dom() =~= before.dom());
            assert(error_models(old(errors)@).dom() =~= old(errors)@.dom());
            assert(error_models(before).dom().contains(key) == old(errors)@.dom().contains(key));
        }
        if !errors.contains_key(&entry.0) {
            let error = entry.1.clone();
            errors.insert(entry.0.clone(), error);
            assert(error_models(errors@) =~= error_models(before).insert(key, error@));
        }
        assert(error_models(errors@) =~= error_models(map_of(entries.take(i + 1))).union_prefer_right(
            error_models(old(errors)@),
        ));
        i += 1;
    }
    assert(entries.take(i as int) =~= entries);
}

/// Adds the counts of `other`.
fn merge_metrics(metrics: &mut MetricsMap, other: &MetricsMap)
    requires
        old(metrics).wf(),
        other.wf(),
        forall|key: Seq<char>| #[trigger]
            metrics_at(old(metrics)@, key).fits_with(metrics_at(other@, key)),
    ensures
        final(metrics).wf(),
        final(metrics)@ == merged_metrics(old(metrics)@, other@),
{
    let ghost entries = other.entries@;
    let mut i: usize = 0;
    assert(metrics@ =~= merged_metrics(metrics@, map_of(entries.take(0))));
    while i < other.entries.len()
        invariant
            i <= entries.len(),
            entries == other.entries@,
            other.wf(),
            metrics.wf(),
            forall|key: Seq<char>| #[trigger]
                metrics_at(old(metrics)@, key).fits_with(metrics_at(other@, key)),
            metrics@ == merged_metrics(old(metrics)@, map_of(entries.take(i as int))),
        decreases entries.len() - i,
    {
        let entry = &other.entries[i];
        let ghost key = entry.0@;
        proof {
            sorted_prefix(entries, i as int);
            sorted_entry_is_mapped(entries, i as int);
            map_of_next(entries, i as int);
            assert(metrics_at(metrics@, key) == metrics_at(old(metrics)@, key));
            assert(metrics_at(old(metrics)@, key).fits_with(metrics_at(other@, key)));
        }
        let mut sums = metrics_of(metrics, &entry.0);
        sums.calls += entry.1.calls;
        sums.reverts += entry.1.reverts;
        sums.discards += entry.1.discards;
        metrics.insert(entry.0.clone(), sums);
        assert(metrics@ =~= merged_metrics(old(metrics)@, map_of(entries.take(i + 1))));
        i += 1;
    }
    assert(entries.take(i as int) =~= entries);
}

impl<T> InvariantFuzzTestResult<T> {
    /// The result of no workers.
    pub fn new() -> (r: InvariantFuzzTestResult<T>)
        ensures
            r.wf(),
            r@ == ResultView::<T>::empty(),
    {
        let r: InvariantFuzzTestResult<T> = InvariantFuzzTestResult {
            errors: OrderedMap::new(),
            cases: Vec::new(),
            reverts: 0,
            last_run_inputs: Vec::new(),
            gas_report_traces: Vec::new(),
            metrics: OrderedMap::new(),
            failed_corpus_replays: 0,
            optimization_best_value: None,
            optimization_best_sequence: Vec::new(),
        };
        proof {
            assert(error_models(r.errors@) =~= Map::empty());
            assert(case_models(r.cases@) =~= Seq::empty());
            assert(tx_models(r.last_run_inputs@) =~= Seq::empty());
            assert(tx_models(r.optimization_best_sequence@) =~= Seq::empty());
            assert(trace_models(r.gas_report_traces@) =~= Seq::empty());
        }
        r
    }

    /// Adds what one worker more hands over.
    pub fn merge(&mut self, worker: InvariantWorkerState<T>)
        requires
            old(self).wf(),
            worker.wf(),
            old(self)@.reverts + worker@.data.failures.reverts <= usize::MAX,
            forall|key: Seq<char>| #[trigger]
                metrics_at(old(self)@.metrics, key).fits_with(metrics_at(worker@.data.metrics, key)),
        ensures
            final(self).wf(),
            final(self)@ == old(self)@.merged(worker@),
    {
        let data = worker.data;
        let ghost report = worker@;
        proof {
            assert(self@.errors.dom() =~= self.errors@.dom());
            assert(report.data.failures.errors.dom() =~= data.failures.errors@.dom());
            crate::ordered::sorted_entries_count(self.errors.entries@);
            crate::ordered::sorted_entries_count(data.failures.errors.entries@);
            assert(self@.errors.dom().is_empty() == (self@.errors.dom().len() == 0)) by {
                if self@.errors.dom().len() == 0 {
                    assert(self@.errors.dom() =~= Set::empty());
                }
            }
            assert(report.data.failures.errors.dom().is_empty() == (report.data.failures.errors.dom().len() == 0)) by {
                if report.data.failures.errors.dom().len() == 0 {
                    assert(report.data.failures.errors.dom() =~= Set::empty());
                }
            }
        }
        if self.errors.is_empty() && (worker.id == 0 || !data.failures.errors.is_empty()) {
            self.last_run_inputs = data.last_run_inputs;
        }
        merge_errors(&mut self.errors, &data.failures.errors);
        self.reverts += data.failures.reverts;

        let ghost cases_before = self.cases@;
        let mut fuzz_cases = data.fuzz_cases;
        let ghost cases = fuzz_cases@;
        self.cases.append(&mut fuzz_cases);
        assert(case_models(self.cases@) =~= case_models(cases_before) + case_models(cases));

        let ghost traces_before = self.gas_report_traces@;
        let mut gas_report_traces = data.gas_report_traces;
        let ghost traces = gas_report_traces@;
        self.gas_report_traces.append(&mut gas_report_traces);
        assert(trace_models(self.gas_report_traces@) =~= trace_models(traces_before) + trace_models(traces));

        merge_metrics(&mut self.metrics, &data.metrics);
        if let Some(value) = data.optimization_best_value {
            if improves(&self.optimization_best_value, value) {
                self.optimization_best_value = Some(value);
                self.optimization_best_sequence = data.optimization_best_sequence;
            }
        }
        if worker.id == 0 {
            self.failed_corpus_replays = worker.failed_corpus_replays;
        }
    }
}

/// Puts the result of a campaign together.
pub fn aggregate_invariant_results<T>(workers: Vec<InvariantWorkerState<T>>) -> (r: InvariantFuzzTestResult<T>)
    requires
        forall|i: int| 0 <= i < workers@.len() ==> (#[trigger] workers@[i]).wf(),
        sums_fit(worker_reports(workers@)),
    ensures
        r.wf(),
        r@ == aggregated(worker_reports(workers@)),
{
    let ghost given = workers@;
    let ghost reports = worker_reports(given);
    let mut rest = workers;
    let mut result = InvariantFuzzTestResult::new();
    let n = rest.len();
    let mut i: usize = 0;
    assert(reports.take(0) =~= Seq::empty());
    assert(rest@ =~= given.skip(0));
    while i < n
        invariant
            i <= n,
            n == given.len(),
            rest@ == given.skip(i as int),
            reports == worker_reports(given),
            forall|j: int| 0 <= j < given.len() ==> (#[trigger] given[j]).wf(),
            sums_fit(reports),
            result.wf(),
            result@ == aggregated(reports.take(i as int)),
        decreases n - i,
    {
        let worker = rest.remove(0);
        proof {
            assert(worker == given[i as int]);
            assert(rest@ =~= given.skip(i + 1));
            let front = reports.take(i as int);
            let next = reports.take(i + 1);
            assert(next.drop_last() =~= front);
            assert(next.last() == worker@);
            sums_fit_before(reports, i as int);
            sums_fit_before(reports, i + 1);
            counts_are_sums(front);
            assert forall|key: Seq<char>| #[trigger]
                metrics_at(result@.metrics, key).fits_with(metrics_at(worker@.data.metrics, key)) by {
                assert(sum_over(next, calls_at(key)) <= usize::MAX);
                assert(sum_over(next, reverts_at(key)) <= usize::MAX);
                assert(sum_over(next, discards_at(key)) <= usize::MAX);
                let before = metrics_at(aggregated(front).metrics, key);
                assert(before.calls == sum_over(front, calls_at(key)));
            }
        }
        result.merge(worker);
        i += 1;
    }
    assert(reports.take(n as int) =~= reports);
    result
}

/// One worker more adds what it hands over: its costs and traces behind those before, its counts to the counts,
/// its errors where there is none under their keys yet; its best value where it is larger, as a signed number,
/// than the one before. Only the worker with number zero tells how many saved sequences did not replay.
pub proof fn one_worker_more_adds_what_it_hands_over<T>(
    before: ResultView<T>,
    worker: WorkerReport<T>,
    key: Seq<char>,
)
    requires
        forall|k: Seq<char>| #[trigger] before.metrics.dom().contains(k) && worker.data.metrics.dom().contains(k) ==> {
            &&& before.metrics[k].calls + worker.data.metrics[k].calls <= usize::MAX
            &&& before.metrics[k].reverts + worker.data.metrics[k].reverts <= usize::MAX
            &&& before.metrics[k].discards + worker.data.metrics[k].discards <= usize::MAX
        },
    ensures
        ({
            let after = before.merged(worker);
            let data = worker.data;
            &&& after.cases == before.cases + data.fuzz_cases
            &&& after.gas_report_traces == before.gas_report_traces + data.gas_report_traces
            &&& after.reverts == before.reverts + data.failures.reverts
            &&& after.errors.dom().contains(key) == (before.errors.dom().contains(key)
                || data.failures.errors.dom().contains(key))
            &&& before.errors.dom().contains(key) ==> after.errors[key] == before.errors[key]
            &&& !before.errors.dom().contains(key) && data.failures.errors.dom().contains(key) ==> after.errors[key]
                == data.failures.errors[key]
            &&& after.metrics.dom().contains(key) == (before.metrics.dom().contains(key) || data.metrics.dom().contains(
                key,
            ))
            &&& before.metrics.dom().contains(key) && !data.metrics.dom().contains(key) ==> after.metrics[key]
                == before.metrics[key]
            &&& !before.metrics.dom().contains(key) && data.metrics.dom().contains(key) ==> after.metrics[key]
                == data.metrics[key]
            &&& before.metrics.dom().contains(key) && data.metrics.dom().contains(key) ==> {
                &&& after.metrics[key].calls == before.metrics[key].calls + data.metrics[key].calls
                &&& after.metrics[key].reverts == before.metrics[key].reverts + data.metrics[key].reverts
                &&& after.metrics[key].discards == before.metrics[key].discards + data.metrics[key].discards
            }
            &&& worker.id == 0 ==> after.failed_corpus_replays == worker.failed_corpus_replays
            &&& worker.id != 0 ==> after.failed_corpus_replays == before.failed_corpus_replays
        }),
        ({
            let after = before.merged(worker);
            let data = worker.data;
            let larger = data.optimization_best_value matches Some(value) && (before.optimization_best_value is None
                || value.signed_value() > before.optimization_best_value->0.signed_value());
            &&& larger ==> after.optimization_best_value == data.optimization_best_value
                && after.optimization_best_sequence == data.optimization_best_sequence
            &&& !larger ==> after.optimization_best_value == before.optimization_best_value
                && after.optimization_best_sequence == before.optimization_best_sequence
        }),
{
    if before.metrics.dom().contains(key) {
        assert(before.metrics.dom().contains(key));
    }
}

/// The result is put together worker by worker, in their order, from nothing.
pub proof fn results_are_put_together_worker_by_worker<T>(workers: Seq<WorkerReport<T>>, worker: WorkerReport<T>)
    ensures
        aggregated(workers.push(worker)) == aggregated(workers).merged(worker),
        ({
            let none = aggregated(Seq::<WorkerReport<T>>::empty());
            &&& none.cases.len() == 0
            &&& none.reverts == 0
            &&& none.last_run_inputs.len() == 0
            &&& none.gas_report_traces.len() == 0
            &&& none.failed_corpus_replays == 0
            &&& none.optimization_best_value is None
            &&& none.optimization_best_sequence.len() == 0
            &&& forall|key: Seq<char>| !(#[trigger] none.errors.dom().contains(key))
            &&& forall|key: Seq<char>| !(#[trigger] none.metrics.dom().contains(key))
        }),
{
    assert(workers.push(worker).drop_last() =~= workers);
}

/// The result holds the traces that every worker kept, and no other.
pub proof fn every_trace_is_kept<T>(workers: Seq<WorkerReport<T>>, worker: int, run: int)
    ensures
        0 <= worker < workers.len() && 0 <= run < workers[worker].data.gas_report_traces.len() ==> aggregated(
            workers,
        ).gas_report_traces.contains(workers[worker].data.gas_report_traces[run]),
        forall|t: int|
            0 <= t < aggregated(workers).gas_report_traces.len() ==> exists|w: int|
                0 <= w < workers.len() && (#[trigger] workers[w]).data.gas_report_traces.contains(
                    #[trigger] aggregated(workers).gas_report_traces[t],
                ),
    decreases workers.len(),
{
    if workers.len() > 0 {
        let rest = workers.drop_last();
        let front = aggregated(rest).gas_report_traces;
        let all = aggregated(workers).gas_report_traces;
        let last = workers[workers.len() - 1];
        every_trace_is_kept(rest, worker, run);
        if 0 <= worker < workers.len() && 0 <= run < workers[worker].data.gas_report_traces.len() {
            let trace = workers[worker].data.gas_report_traces[run];
            if worker < rest.len() {
                assert(rest[worker] == workers[worker]);
                assert(front.contains(trace));
                assert(all[front.index_of(trace)] == trace);
            } else {
                assert(all[front.len() + run] == trace);
            }
        }
        assert forall|t: int| 0 <= t < all.len() implies exists|w: int|
            0 <= w < workers.len() && (#[trigger] workers[w]).data.gas_report_traces.contains(#[trigger] all[t]) by {
            if t < front.len() {
                assert(all[t] == front[t]);
                let w = choose|w: int|
                    0 <= w < rest.len() && (#[trigger] rest[w]).data.gas_report_traces.contains(front[t]);
                assert(workers[w] == rest[w]);
            } else {
                assert(last.data.gas_report_traces[t - front.len()] == all[t]);
                assert(workers[workers.len() - 1].data.gas_report_traces.contains(all[t]));
            }
        }
    }
}

/// The number of saved sequences that did not replay is what the worker with number zero tells; and where no
/// worker failed, its inputs are those to replay.
pub proof fn worker_zero_speaks_for_the_campaign<T>(workers: Seq<WorkerReport<T>>, zero: int)
    requires
        0 <= zero < workers.len(),
        forall|i: int| 0 <= i < workers.len() ==> ((#[trigger] workers[i]).id == 0 <==> i == zero),
    ensures
        aggregated(workers).failed_corpus_replays == workers[zero].failed_corpus_replays,
        (forall|i: int|
            0 <= i < workers.len() ==> (#[trigger] workers[i]).data.failures.errors.dom() =~= Set::<Seq<char>>::empty())
            ==> aggregated(workers).last_run_inputs == workers[zero].data.last_run_inputs,
    decreases workers.len(),
{
    let rest = workers.drop_last();
    assert forall|i: int| 0 <= i < rest.len() implies ((#[trigger] rest[i]).id == 0 <==> i == zero) by {
        assert(rest[i] == workers[i]);
    }
    assert(workers[workers.len() - 1] == workers.last());
    let harmless = forall|i: int|
        0 <= i < workers.len() ==> (#[trigger] workers[i]).data.failures.errors.dom() =~= Set::<Seq<char>>::empty();
    if harmless {
        assert forall|i: int| 0 <= i < rest.len() implies (#[trigger] rest[i]).data.failures.errors.dom()
            =~= Set::<Seq<char>>::empty() by {
            assert(rest[i] == workers[i]);
        }
        no_errors_without_failures(rest);
        assert(workers[workers.len() - 1].data.failures.errors.dom() =~= Set::<Seq<char>>::empty());
    }
    if zero < rest.len() {
        assert(rest[zero] == workers[zero]);
        worker_zero_speaks_for_the_campaign(rest, zero);
    }
}

/// The sums over workers are sums: those of two groups together are the sums of those of each.
pub proof fn sums_add_up<T>(
    a: Seq<WorkerReport<T>>,
    b: Seq<WorkerReport<T>>,
    worker: WorkerReport<T>,
    key: Seq<char>,
)
    ensures
        sum_over(a + b, reverts_of()) == sum_over(a, reverts_of()) + sum_over(b, reverts_of()),
        sum_over(a + b, calls_at(key)) == sum_over(a, calls_at(key)) + sum_over(b, calls_at(key)),
        sum_over(a + b, reverts_at(key)) == sum_over(a, reverts_at(key)) + sum_over(b, reverts_at(key)),
        sum_over(a + b, discards_at(key)) == sum_over(a, discards_at(key)) + sum_over(b, discards_at(key)),
        sum_over(seq![worker], reverts_of()) == worker.data.failures.reverts,
        worker.data.metrics.dom().contains(key) ==> {
            &&& sum_over(seq![worker], calls_at(key)) == worker.data.metrics[key].calls
            &&& sum_over(seq![worker], reverts_at(key)) == worker.data.metrics[key].reverts
            &&& sum_over(seq![worker], discards_at(key)) == worker.data.metrics[key].discards
        },
    decreases b.len(),
{
    let none = Seq::<WorkerReport<T>>::empty();
    assert(seq![worker].drop_last() =~= none);
    assert(sum_over(none, reverts_of()) == 0);
    assert(sum_over(none, calls_at(key)) == 0);
    assert(sum_over(none, reverts_at(key)) == 0);
    assert(sum_over(none, discards_at(key)) == 0);
    if b.len() == 0 {
        assert(a + b =~= a);
    } else {
        assert((a + b).drop_last() =~= a + b.drop_last());
        sums_add_up(a, b.drop_last(), worker, key);
    }
}

/// What a worker hands over, and a result, are known by all of their parts.
pub proof fn results_are_known_by_their_parts<T>(
    workers: Seq<InvariantWorkerState<T>>,
    result: InvariantFuzzTestResult<T>,
    i: int,
    key: Seq<char>,
)
    ensures
        worker_reports(workers).len() == workers.len(),
        0 <= i < workers.len() ==> {
            &&& worker_reports(workers)[i].id == workers[i].id
            &&& worker_reports(workers)[i].data == workers[i].data@
            &&& worker_reports(workers)[i].runs == workers[i].runs
            &&& worker_reports(workers)[i].failed_corpus_replays == workers[i].failed_corpus_replays
        },
        result@.errors.dom().contains(key) == result.errors@.dom().contains(key),
        result.errors@.dom().contains(key) ==> result@.errors[key] == result.errors@[key]@,
        result@.cases.len() == result.cases@.len(),
        0 <= i < result.cases@.len() ==> result@.cases[i] == result.cases@[i].cases@,
        result@.reverts == result.reverts,
        result@.last_run_inputs == tx_models(result.last_run_inputs@),
        result@.gas_report_traces.len() == result.gas_report_traces@.len(),
        0 <= i < result.gas_report_traces@.len() ==> result@.gas_report_traces[i] == result.gas_report_traces@[i]@,
        result@.metrics == result.metrics@,
        result@.failed_corpus_replays == result.failed_corpus_replays,
        result@.optimization_best_value == result.optimization_best_value,
        result@.optimization_best_sequence == tx_models(result.optimization_best_sequence@),
{
}

} // verus!
