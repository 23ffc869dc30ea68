//! The data that a worker collects: over the whole campaign and over one run.

use vstd::prelude::*;

use crate::failure::{optional_text, ErrorView, FailureKey, FailuresView, InvariantFailures, InvariantFuzzError};
use crate::filters::SenderFilters;
use crate::fixed::{word_signed_gt, Address, Word};
use crate::metrics::{count_call, metrics_at, record_call, InvariantMetrics, MetricsMap};
use crate::ordered::OrderedMap;
use crate::targets::{without_targets, FuzzRunIdentifiedContracts};
use crate::tx::{clone_txs, tx_models, BasicTxDetails, BasicTxDetailsView};

verus! {

/// What one call cost.
#[derive(Clone, Copy, Debug, PartialEq, Eq, Structural)]
pub struct FuzzCase {
    pub gas: u64,
    pub stipend: u64,
}

/// What the calls of one run cost, in the order of the calls.
#[derive(Debug)]
pub struct FuzzedCases {
    pub cases: Vec<FuzzCase>,
}

/// The calls of each of `runs`.
pub open spec fn case_models(runs: Seq<FuzzedCases>) -> Seq<Seq<FuzzCase>> {
    Seq::new(runs.len(), |i: int| runs[i].cases@)
}

/// The traces of each of `runs`.
pub open spec fn trace_models<T>(runs: Seq<Vec<T>>) -> Seq<Seq<T>> {
    Seq::new(runs.len(), |i: int| runs[i]@)
}

/// What a worker collects over its runs. `T` is the trace of a call.
pub struct InvariantTestData<T> {
    /// What the calls of each finished run cost.
    pub fuzz_cases: Vec<FuzzedCases>,
    /// Reverts and failures.
    pub failures: InvariantFailures,
    /// The call sequence of the last run.
    pub last_run_inputs: Vec<BasicTxDetails>,
    /// Traces for the gas report.
    pub gas_report_traces: Vec<Vec<T>>,
    /// Counts per selector.
    pub metrics: MetricsMap,
    /// The largest value seen, where the campaign maximizes one.
    pub optimization_best_value: Option<Word>,
    /// The call sequence that gave the largest value.
    pub optimization_best_sequence: Vec<BasicTxDetails>,
}

/// The model of [`InvariantTestData`].
pub struct TestDataView<T> {
    pub fuzz_cases: Seq<Seq<FuzzCase>>,
    pub failures: FailuresView,
    pub last_run_inputs: Seq<BasicTxDetailsView>,
    pub gas_report_traces: Seq<Seq<T>>,
    pub metrics: Map<Seq<char>, InvariantMetrics>,
    pub optimization_best_value: Option<Word>,
    pub optimization_best_sequence: Seq<BasicTxDetailsView>,
}

impl<T> View for InvariantTestData<T> {
    type V = TestDataView<T>;

    open spec fn view(&self) -> TestDataView<T> {
        TestDataView {
            fuzz_cases: case_models(self.fuzz_cases@),
            failures: self.failures@,
            last_run_inputs: tx_models(self.last_run_inputs@),
            gas_report_traces: trace_models(self.gas_report_traces@),
            metrics: self.metrics@,
            optimization_best_value: self.optimization_best_value,
            optimization_best_sequence: tx_models(self.optimization_best_sequence@),
        }
    }
}

impl<T> InvariantTestData<T> {
    /// The failures and the counts are in the order of their keys.
    pub open spec fn wf(self) -> bool {
        &&& self.failures.wf()
        &&& self.metrics.wf()
    }

    /// Nothing collected but `failures`.
    pub fn new(failures: InvariantFailures) -> (r: InvariantTestData<T>)
        requires
            failures.wf(),
        ensures
            r.wf(),
            r@ == TestDataView::<T>::start(failures@),
    {
        let r = InvariantTestData {
            fuzz_cases: Vec::new(),
            failures,
            last_run_inputs: Vec::new(),
            gas_report_traces: Vec::new(),
            metrics: OrderedMap::new(),
            optimization_best_value: None,
            optimization_best_sequence: Vec::new(),
        };
        proof {
            assert(case_models(r.fuzz_cases@) =~= Seq::empty());
            assert(tx_models(r.last_run_inputs@) =~= Seq::empty());
            assert(trace_models(r.gas_report_traces@) =~= Seq::empty());
        }
        r
    }
}

impl<T> TestDataView<T> {
    /// Nothing collected but `failures`.
    pub open spec fn start(failures: FailuresView) -> TestDataView<T> {
        TestDataView {
            fuzz_cases: Seq::empty(),
            failures,
            last_run_inputs: Seq::empty(),
            gas_report_traces: Seq::empty(),
            metrics: Map::empty(),
            optimization_best_value: None,
            optimization_best_sequence: Seq::empty(),
        }
    }

    /// The data after `value` was seen on `sequence`: a value larger than all before it is kept,
    /// with its sequence.
    pub open spec fn with_value(self, value: Word, sequence: Seq<BasicTxDetailsView>) -> TestDataView<T> {
        if is_better(self.optimization_best_value, value) {
            TestDataView {
                optimization_best_value: Some(value),
                optimization_best_sequence: sequence,
                ..self
            }
        } else {
            self
        }
    }

    /// The data after a failure under `key`.
    pub open spec fn with_failure(self, key: Seq<char>, error: ErrorView) -> TestDataView<T> {
        TestDataView { failures: self.failures.record(key, error), ..self }
    }

    /// The data after `run` ended: its costs are kept, and its traces for the first
    /// `gas_samples` runs.
    pub open spec fn with_run(self, run: RunView<T>, gas_samples: nat) -> TestDataView<T> {
        TestDataView {
            fuzz_cases: self.fuzz_cases.push(run.fuzz_runs),
            gas_report_traces: if self.gas_report_traces.len() < gas_samples {
                self.gas_report_traces.push(run.run_traces)
            } else {
                self.gas_report_traces
            },
            ..self
        }
    }
}

/// Whether `value` is larger than the best one so far, if there is one.
pub open spec fn is_better(best: Option<Word>, value: Word) -> bool {
    match best {
        Some(best) => value.signed_value() > best.signed_value(),
        None => true,
    }
}

/// Whether `value` is larger than the best one so far, if there is one.
pub fn improves(best: &Option<Word>, value: Word) -> (r: bool)
    ensures
        r == is_better(*best, value),
{
    match best {
        Some(best) => word_signed_gt(value, *best),
        None => true,
    }
}

/// The best value never falls: after `value` was seen it is at least `value` and at least what it
/// was, and it is one of the two.
pub proof fn best_value_never_falls<T>(data: TestDataView<T>, value: Word, sequence: Seq<BasicTxDetailsView>)
    ensures
        data.with_value(value, sequence).optimization_best_value matches Some(best) && {
            &&& best.signed_value() >= value.signed_value()
            &&& data.optimization_best_value matches Some(before) ==> best.signed_value() >= before.signed_value()
            &&& best == value || data.optimization_best_value == Some(best)
        },
        data.with_value(value, sequence).optimization_best_value != data.optimization_best_value ==> data.with_value(
            value,
            sequence,
        ).optimization_best_sequence == sequence,
{
}

/// What a worker works with. `T` is the trace of a call.
pub struct InvariantTest<T> {
    /// The contracts to call.
    pub targeted_contracts: FuzzRunIdentifiedContracts,
    /// Which senders to use.
    pub sender_filters: SenderFilters,
    /// What was collected.
    pub test_data: InvariantTestData<T>,
}

impl<T> InvariantTest<T> {
    /// All maps are in the order of their keys.
    pub open spec fn wf(self) -> bool {
        &&& self.targeted_contracts.targets.wf()
        &&& self.test_data.wf()
    }

    /// A test that starts with `failures`.
    pub fn new(
        targeted_contracts: FuzzRunIdentifiedContracts,
        sender_filters: SenderFilters,
        failures: InvariantFailures,
    ) -> (r: InvariantTest<T>)
        requires
            targeted_contracts.targets.wf(),
            failures.wf(),
        ensures
            r.wf(),
            r.targeted_contracts == targeted_contracts,
            r.sender_filters == sender_filters,
            r.test_data@ == TestDataView::<T>::start(failures@),
    {
        InvariantTest { targeted_contracts, sender_filters, test_data: InvariantTestData::new(failures) }
    }

    /// The number of reverts.
    pub fn reverts(&self) -> (r: usize)
        ensures
            r == self.test_data@.failures.reverts,
    {
        self.test_data.failures.reverts
    }

    /// Records a failure.
    pub fn set_error(&mut self, key: FailureKey, error: InvariantFuzzError)
        requires
            old(self).wf(),
            old(self).test_data.failures.total_failures < usize::MAX,
        ensures
            final(self).wf(),
            final(self).targeted_contracts == old(self).targeted_contracts,
            final(self).sender_filters == old(self).sender_filters,
            final(self).test_data@ == old(self).test_data@.with_failure(key@, error@),
    {
        self.test_data.failures.record_failure(key, error);
    }

    /// Keeps `inputs` as the call sequence of the last run.
    pub fn set_last_run_inputs(&mut self, inputs: &Vec<BasicTxDetails>)
        requires
            old(self).wf(),
        ensures
            final(self).wf(),
            final(self).targeted_contracts == old(self).targeted_contracts,
            final(self).sender_filters == old(self).sender_filters,
            final(self).test_data@ == (TestDataView {
                last_run_inputs: tx_models(inputs@),
                ..old(self).test_data@
            }),
    {
        self.test_data.last_run_inputs = clone_txs(inputs);
    }

    /// Counts a call under `metric_key`, the name of the selector that was called, if it is
    /// known. A discarded call does not count as a revert.
    pub fn record_metrics(&mut self, metric_key: Option<String>, reverted: bool, discarded: bool)
        requires
            old(self).wf(),
            metric_key matches Some(key) ==> metrics_at(old(self).test_data@.metrics, key@).fits_record(
                reverted,
                discarded,
            ),
        ensures
            final(self).wf(),
            final(self).targeted_contracts == old(self).targeted_contracts,
            final(self).sender_filters == old(self).sender_filters,
            final(self).test_data@ == (TestDataView {
                metrics: record_call(
                    old(self).test_data@.metrics,
                    optional_text(metric_key),
                    reverted,
                    discarded,
                ),
                ..old(self).test_data@
            }),
    {
        if let Some(metric_key) = metric_key {
            count_call(&mut self.test_data.metrics, metric_key, reverted, discarded);
        }
    }

    /// Ends a run: takes out the contracts it created, keeps its traces for the first
    /// `gas_samples` runs, and keeps what its calls cost.
    pub fn end_run(&mut self, run: InvariantTestRun<T>, gas_samples: usize)
        requires
            old(self).wf(),
        ensures
            final(self).wf(),
            final(self).targeted_contracts.is_updatable == old(self).targeted_contracts.is_updatable,
            final(self).targeted_contracts.targets@ == without_targets(
                old(self).targeted_contracts.targets@,
                run@.created_contracts,
            ),
            final(self).sender_filters == old(self).sender_filters,
            final(self).test_data@ == old(self).test_data@.with_run(run@, gas_samples as nat),
    {
        self.targeted_contracts.clear_created_contracts(&run.created_contracts);
        let ghost data = self.test_data;
        let ghost traces = run.run_traces@;
        let ghost cases = run.fuzz_runs@;
        if self.test_data.gas_report_traces.len() < gas_samples {
            self.test_data.gas_report_traces.push(run.run_traces);
            assert(trace_models(self.test_data.gas_report_traces@) =~= trace_models(data.gas_report_traces@).push(
                traces,
            ));
        }
        self.test_data.fuzz_cases.push(FuzzedCases { cases: run.fuzz_runs });
        assert(case_models(self.test_data.fuzz_cases@) =~= case_models(data.fuzz_cases@).push(cases));
    }

    /// Keeps `value` and the sequence that gave it, if it is larger than the best one so far.
    pub fn update_optimization_value(&mut self, value: Word, sequence: &Vec<BasicTxDetails>)
        requires
            old(self).wf(),
        ensures
            final(self).wf(),
            final(self).targeted_contracts == old(self).targeted_contracts,
            final(self).sender_filters == old(self).sender_filters,
            final(self).test_data@ == old(self).test_data@.with_value(value, tx_models(sequence@)),
    {
        if improves(&self.test_data.optimization_best_value, value) {
            self.test_data.optimization_best_value = Some(value);
            self.test_data.optimization_best_sequence = clone_txs(sequence);
        }
    }
}

/// The data of one run. `T` is the trace of a call.
pub struct InvariantTestRun<T> {
    /// The call sequence.
    pub inputs: Vec<BasicTxDetails>,
    /// What the calls cost.
    pub fuzz_runs: Vec<FuzzCase>,
    /// The contracts that the run created.
    pub created_contracts: Vec<Address>,
    /// The traces of the calls.
    pub run_traces: Vec<T>,
    /// The number of calls made.
    pub depth: u32,
    /// The number of calls that an assumption discarded.
    pub rejects: u32,
    /// Whether a call covered something new.
    pub new_coverage: bool,
}

/// The model of [`InvariantTestRun`].
pub struct RunView<T> {
    pub inputs: Seq<BasicTxDetailsView>,
    pub fuzz_runs: Seq<FuzzCase>,
    pub created_contracts: Seq<Address>,
    pub run_traces: Seq<T>,
    pub depth: nat,
    pub rejects: nat,
    pub new_coverage: bool,
}

impl<T> View for InvariantTestRun<T> {
    type V = RunView<T>;

    open spec fn view(&self) -> RunView<T> {
        RunView {
            inputs: tx_models(self.inputs@),
            fuzz_runs: self.fuzz_runs@,
            created_contracts: self.created_contracts@,
            run_traces: self.run_traces@,
            depth: self.depth as nat,
            rejects: self.rejects as nat,
            new_coverage: self.new_coverage,
        }
    }
}

impl<T> RunView<T> {
    /// A run that is about to make its first call.
    pub open spec fn start(first_input: BasicTxDetailsView) -> RunView<T> {
        RunView {
            inputs: seq![first_input],
            fuzz_runs: Seq::empty(),
            created_contracts: Seq::empty(),
            run_traces: Seq::empty(),
            depth: 0,
            rejects: 0,
            new_coverage: false,
        }
    }

    /// The run without its last input.
    pub open spec fn without_last_input(self) -> RunView<T> {
        RunView {
            inputs: if self.inputs.len() == 0 {
                self.inputs
            } else {
                self.inputs.drop_last()
            },
            ..self
        }
    }
}

impl<T> InvariantTestRun<T> {
    /// A run that is about to make its first call.
    pub fn new(first_input: BasicTxDetails) -> (r: InvariantTestRun<T>)
        ensures
            r@ == RunView::<T>::start(first_input@),
    {
        let mut inputs: Vec<BasicTxDetails> = Vec::new();
        inputs.push(first_input);
        assert(tx_models(inputs@) =~= seq![first_input@]);
        InvariantTestRun {
            inputs,
            fuzz_runs: Vec::new(),
            created_contracts: Vec::new(),
            run_traces: Vec::new(),
            depth: 0,
            rejects: 0,
            new_coverage: false,
        }
    }

    /// Drops the last input, if there is one.
    pub fn pop_input(&mut self)
        ensures
            final(self)@ == old(self)@.without_last_input(),
    {
        let ghost before = self.inputs@;
        let popped = self.inputs.pop();
        if popped.is_some() {
            assert(tx_models(self.inputs@) =~= tx_models(before).drop_last());
        }
    }
}

/// A finished run adds what its calls cost behind the costs of the runs before it, and its traces where fewer
/// runs than asked for have theirs kept. Nothing else changes.
pub proof fn finished_runs_are_kept<T>(data: TestDataView<T>, run: RunView<T>, gas_samples: nat, i: int)
    ensures
        ({
            let after = data.with_run(run, gas_samples);
            &&& after.fuzz_cases.len() == data.fuzz_cases.len() + 1
            &&& after.fuzz_cases.last() == run.fuzz_runs
            &&& 0 <= i < data.fuzz_cases.len() ==> after.fuzz_cases[i] == data.fuzz_cases[i]
            &&& data.gas_report_traces.len() < gas_samples ==> after.gas_report_traces.len()
                == data.gas_report_traces.len() + 1 && after.gas_report_traces.last() == run.run_traces
            &&& data.gas_report_traces.len() >= gas_samples ==> after.gas_report_traces == data.gas_report_traces
            &&& 0 <= i < data.gas_report_traces.len() ==> after.gas_report_traces[i] == data.gas_report_traces[i]
            &&& after.failures == data.failures
            &&& after.last_run_inputs == data.last_run_inputs
            &&& after.metrics == data.metrics
            &&& after.optimization_best_value == data.optimization_best_value
            &&& after.optimization_best_sequence == data.optimization_best_sequence
        }),
{
}

/// A value that is not larger than the best one so far changes nothing, so of equal values the first is kept,
/// with its sequence. One that is larger, as a signed number, is kept with the sequence that gave it. Nothing
/// else changes.
pub proof fn only_larger_values_are_kept<T>(data: TestDataView<T>, value: Word, sequence: Seq<BasicTxDetailsView>)
    ensures
        ({
            let after = data.with_value(value, sequence);
            let kept = data.optimization_best_value matches Some(best) && best.signed_value() >= value.signed_value();
            &&& kept ==> after == data
            &&& !kept ==> after.optimization_best_value == Some(value) && after.optimization_best_sequence == sequence
            &&& after.fuzz_cases == data.fuzz_cases
            &&& after.failures == data.failures
            &&& after.last_run_inputs == data.last_run_inputs
            &&& after.gas_report_traces == data.gas_report_traces
            &&& after.metrics == data.metrics
        }),
{
}

/// A recorded failure changes what failed, and nothing else that was collected.
pub proof fn failures_change_nothing_else<T>(data: TestDataView<T>, key: Seq<char>, error: ErrorView)
    ensures
        ({
            let after = data.with_failure(key, error);
            &&& after.failures.errors == data.failures.errors.insert(key, error)
            &&& after.failures.total_failures == data.failures.total_failures + 1
            &&& after.failures.reverts == data.failures.reverts
            &&& after.fuzz_cases == data.fuzz_cases
            &&& after.last_run_inputs == data.last_run_inputs
            &&& after.gas_report_traces == data.gas_report_traces
            &&& after.metrics == data.metrics
            &&& after.optimization_best_value == data.optimization_best_value
            &&& after.optimization_best_sequence == data.optimization_best_sequence
        }),
{
}

/// A worker starts with nothing but its failures, and a run with nothing but its first input.
pub proof fn nothing_is_collected_at_the_start<T>(failures: FailuresView, first_input: BasicTxDetailsView)
    ensures
        ({
            let data = TestDataView::<T>::start(failures);
            &&& data.failures == failures
            &&& data.fuzz_cases.len() == 0
            &&& data.last_run_inputs.len() == 0
            &&& data.gas_report_traces.len() == 0
            &&& forall|key: Seq<char>| !(#[trigger] data.metrics.dom().contains(key))
            &&& data.optimization_best_value is None
            &&& data.optimization_best_sequence.len() == 0
        }),
        ({
            let run = RunView::<T>::start(first_input);
            &&& run.inputs.len() == 1
            &&& run.inputs[0] == first_input
            &&& run.fuzz_runs.len() == 0
            &&& run.created_contracts.len() == 0
            &&& run.run_traces.len() == 0
            &&& run.depth == 0
            &&& run.rejects == 0
            &&& !run.new_coverage
        }),
{
}

/// Dropping the last input leaves all inputs before it, and all else that the run collected.
pub proof fn dropping_an_input_keeps_the_others<T>(run: RunView<T>, i: int)
    ensures
        ({
            let after = run.without_last_input();
            &&& run.inputs.len() > 0 ==> after.inputs.len() == run.inputs.len() - 1
            &&& run.inputs.len() == 0 ==> after.inputs.len() == 0
            &&& 0 <= i < run.inputs.len() - 1 ==> after.inputs[i] == run.inputs[i]
            &&& after.fuzz_runs == run.fuzz_runs
            &&& after.created_contracts == run.created_contracts
            &&& after.run_traces == run.run_traces
            &&& after.depth == run.depth
            &&& after.rejects == run.rejects
            &&& after.new_coverage == run.new_coverage
        }),
{
}

/// What was collected is known by all of its parts: the costs and the traces run by run, in order.
pub proof fn collected_data_are_known_by_their_parts<T>(
    data: InvariantTestData<T>,
    run: InvariantTestRun<T>,
    i: int,
)
    ensures
        data@.fuzz_cases.len() == data.fuzz_cases@.len(),
        0 <= i < data.fuzz_cases@.len() ==> data@.fuzz_cases[i] == data.fuzz_cases@[i].cases@,
        data@.failures == data.failures@,
        data@.last_run_inputs == tx_models(data.last_run_inputs@),
        data@.gas_report_traces.len() == data.gas_report_traces@.len(),
        0 <= i < data.gas_report_traces@.len() ==> data@.gas_report_traces[i] == data.gas_report_traces@[i]@,
        data@.metrics == data.metrics@,
        data@.optimization_best_value == data.optimization_best_value,
        data@.optimization_best_sequence == tx_models(data.optimization_best_sequence@),
        run@.inputs == tx_models(run.inputs@),
        run@.fuzz_runs == run.fuzz_runs@,
        run@.created_contracts == run.created_contracts@,
        run@.run_traces == run.run_traces@,
        run@.depth == run.depth,
        run@.rejects == run.rejects,
        run@.new_coverage == run.new_coverage,
{
}

} // verus!
