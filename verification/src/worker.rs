//! A worker of a campaign, as a state machine: the host performs the action that a step asks for
//! and hands back what came of it.

use vstd::prelude::*;
use vstd::string::*;

use crate::config::{InvariantConfig, InvariantContract, InvariantContractView};
use crate::failure::{
    failure_key, keys_do_not_outnumber_failures, optional_text, ErrorView, FailureKey, InvariantFailures, InvariantFuzzError,
};
use crate::filters::{fallback_address_is_the_fallback_sender, resolved_sender, SenderFilters};
use crate::fixed::{Address, Word};
use crate::metrics::{all_consistent, metrics_at, metrics_of, record_call, recorded_calls_stay_consistent};
use crate::result::{
    are_all_set, assert_after_invariant, assertion_broken, broken_invariants_keep_the_sequence_that_broke_them, checked_call,
    checked_call_bounds, failed_assertions_keep_the_sequence_that_failed, failed_assertions_name_the_handler, invariant_calls,
    process_call_result, process_unchecked_call, reaches_handlers, reaches_invariants, reverts_keep_the_sequence_that_reverted,
    the_largest_returned_value_is_kept, unchecked_call, unchecked_call_bounds, unchecked_failures_keep_the_sequence_that_failed,
    with_failed_check, CallOutcome, CallView, CheckOutcomes, ChecksView, InvariantOutcome, OutcomeView,
};
use crate::run::{FuzzCase, InvariantTest, InvariantTestRun, RunView, TestDataView};
use crate::shared::{failures_add_up, InvariantWorkerState, WorkerCounters, SYNC_INTERVAL_SECS};
use crate::targets::{
    without_targets, FuzzRunIdentifiedContracts, TargetView, TargetedContract,
};
use crate::tx::{clone_txs, tx_models, BasicTxDetails, BasicTxDetailsView};

verus! {

/// What came of an action. `T` is the trace of a call.
pub enum Event<T> {
    /// A run may start. Tells whether the workers go on, and how long ago the last sync was.
    Tick { should_continue: bool, since_sync_secs: u64 },
    /// The corpus was synced.
    Synced,
    /// The call sequence to start a run with. Tells whether the time is up or the whole test suite
    /// is to stop.
    Inputs { inputs: Vec<BasicTxDetails>, stop: bool },
    /// A call was executed.
    Executed { call: CallOutcome<T>, new_coverage: bool, edges: Vec<usize>, metric_key: Option<String> },
    /// The state after a call was committed. Tells which contracts the call created.
    Committed { created: Vec<(Address, TargetedContract)> },
    /// The chain was asked what a check needs.
    Checked { checks: CheckOutcomes, metric_key: Option<String> },
    /// The next input of a run. Tells whether the time is up or the whole test suite is to stop.
    Next { input: BasicTxDetails, stop: bool },
    /// `afterInvariant` was called.
    After { outcome: InvariantOutcome },
}

impl<T> Event<T> {
    /// The created contracts are well formed.
    pub open spec fn wf(self) -> bool {
        self matches Event::Committed { created } ==> forall|i: int|
            0 <= i < created@.len() ==> (#[trigger] created@[i]).1.wf()
    }
}

/// The model of an [`Event`].
pub enum EventView<T> {
    Tick { should_continue: bool, since_sync_secs: u64 },
    Synced,
    Inputs { inputs: Seq<BasicTxDetailsView>, stop: bool },
    Executed { call: CallView<T>, new_coverage: bool, edges: Seq<usize>, metric_key: Option<Seq<char>> },
    Committed { created: Seq<(Address, TargetView)> },
    Checked { checks: ChecksView, metric_key: Option<Seq<char>> },
    Next { input: BasicTxDetailsView, stop: bool },
    After { outcome: OutcomeView },
}

/// The models of created contracts.
pub open spec fn created_models(created: Seq<(Address, TargetedContract)>) -> Seq<(Address, TargetView)> {
    Seq::new(created.len(), |i: int| (created[i].0, created[i].1@))
}

impl<T> View for Event<T> {
    type V = EventView<T>;

    open spec fn view(&self) -> EventView<T> {
        match *self {
            Event::Tick { should_continue, since_sync_secs } => EventView::Tick { should_continue, since_sync_secs },
            Event::Synced => EventView::Synced,
            Event::Inputs { inputs, stop } => EventView::Inputs { inputs: tx_models(inputs@), stop },
            Event::Executed { call, new_coverage, edges, metric_key } => EventView::Executed {
                call: call@,
                new_coverage,
                edges: edges@,
                metric_key: optional_text(metric_key),
            },
            Event::Committed { created } => EventView::Committed { created: created_models(created@) },
            Event::Checked { checks, metric_key } => EventView::Checked {
                checks: checks@,
                metric_key: optional_text(metric_key),
            },
            Event::Next { input, stop } => EventView::Next { input: input@, stop },
            Event::After { outcome } => EventView::After { outcome: outcome@ },
        }
    }
}

/// What the host is to do.
#[derive(Clone, Copy, Debug, PartialEq, Eq, Structural)]
pub enum Action {
    /// Sync the corpus.
    Sync,
    /// Make a call sequence to start a run with.
    NewInputs,
    /// Execute the current input without committing its state.
    Execute,
    /// Commit the state after the call, and collect values from it where `collect` is set.
    Commit { collect: bool },
    /// Ask the chain for failed assertions, and for handlers and invariants where `full` is set.
    Check { full: bool },
    /// Make the next input.
    NextInput { discarded: bool, depth: u32 },
    /// Call `afterInvariant`.
    AfterInvariant,
    /// Note that a run ended, and report progress.
    RunEnded,
    /// Stop. Where `failed` is set, the other workers are to stop too.
    Finish { failed: bool },
}

/// A call sequence to keep in the corpus, with the edges that it covered.
pub struct SavedInputs {
    pub inputs: Vec<BasicTxDetails>,
    pub edges: Vec<usize>,
}

/// The outcome of a step: a sequence to keep, if there is one, and what is to be done next.
pub struct Step {
    pub save: Option<SavedInputs>,
    pub action: Action,
}

/// The model of an optional sequence to keep.
pub open spec fn save_model(save: Option<SavedInputs>) -> Option<(Seq<BasicTxDetailsView>, Seq<usize>)> {
    match save {
        Some(save) => Some((tx_models(save.inputs@), save.edges@)),
        None => None,
    }
}

/// Why an event was not taken.
#[derive(Clone, Copy, Debug, PartialEq, Eq, Structural)]
pub enum StepError {
    /// The event is not what the last action asked for.
    UnexpectedEvent,
    /// There is no input to start a run with.
    NoInput,
    /// There is not one answer for each target, or not one outcome for each invariant that is called.
    MissingOutcomes,
    /// A count would overflow.
    Overflow,
}

/// Where a worker stands.
pub enum Phase<T> {
    Idle,
    Syncing,
    Seeding,
    Executing { run: InvariantTestRun<T> },
    Committing { run: InvariantTestRun<T>, call: CallOutcome<T> },
    Checking { run: InvariantTestRun<T>, call: CallOutcome<T>, full: bool },
    Drawing { run: InvariantTestRun<T> },
    Closing { run: InvariantTestRun<T> },
    Done,
}

/// The model of a [`Phase`].
pub enum PhaseView<T> {
    Idle,
    Syncing,
    Seeding,
    Executing { run: RunView<T> },
    Committing { run: RunView<T>, call: CallView<T> },
    Checking { run: RunView<T>, call: CallView<T>, full: bool },
    Drawing { run: RunView<T> },
    Closing { run: RunView<T> },
    Done,
}

impl<T> View for Phase<T> {
    type V = PhaseView<T>;

    open spec fn view(&self) -> PhaseView<T> {
        match *self {
            Phase::Idle => PhaseView::Idle,
            Phase::Syncing => PhaseView::Syncing,
            Phase::Seeding => PhaseView::Seeding,
            Phase::Executing { run } => PhaseView::Executing { run: run@ },
            Phase::Committing { run, call } => PhaseView::Committing { run: run@, call: call@ },
            Phase::Checking { run, call, full } => PhaseView::Checking { run: run@, call: call@, full },
            Phase::Drawing { run } => PhaseView::Drawing { run: run@ },
            Phase::Closing { run } => PhaseView::Closing { run: run@ },
            Phase::Done => PhaseView::Done,
        }
    }
}

/// A worker. `T` is the trace of a call.
pub struct InvariantWorker<T> {
    /// The number of the worker.
    pub id: usize,
    /// The configuration of the campaign.
    pub config: InvariantConfig,
    /// The contract whose invariants are checked.
    pub contract: InvariantContract,
    /// The name under which failures are recorded.
    pub target_name: String,
    /// What a call returns that an assumption discards.
    pub magic_assume: Vec<u8>,
    /// The number of runs to make.
    pub worker_runs: u32,
    /// The number of runs that ended.
    pub runs: u32,
    /// What the worker works with and collects.
    pub test: InvariantTest<T>,
    /// The edges that calls of the current run covered since inputs were last kept.
    pub edges: Vec<usize>,
    /// The counts of the worker.
    pub counters: WorkerCounters,
    /// Where the worker stands.
    pub phase: Phase<T>,
}

/// The model of an [`InvariantWorker`].
pub struct WorkerView<T> {
    pub id: nat,
    pub config: InvariantConfig,
    pub contract: InvariantContractView,
    pub target_name: Seq<char>,
    pub magic_assume: Seq<u8>,
    pub targeted_senders: Seq<Address>,
    pub excluded_senders: Seq<Address>,
    pub worker_runs: nat,
    pub runs: nat,
    pub data: TestDataView<T>,
    pub targets: Map<Address, TargetView>,
    pub is_updatable: bool,
    pub edges: Seq<usize>,
    pub counters: WorkerCounters,
    pub phase: PhaseView<T>,
}

impl<T> View for InvariantWorker<T> {
    type V = WorkerView<T>;

    open spec fn view(&self) -> WorkerView<T> {
        WorkerView {
            id: self.id as nat,
            config: self.config,
            contract: self.contract@,
            target_name: self.target_name@,
            magic_assume: self.magic_assume@,
            targeted_senders: self.test.sender_filters.targeted@,
            excluded_senders: self.test.sender_filters.excluded@,
            worker_runs: self.worker_runs as nat,
            runs: self.runs as nat,
            data: self.test.test_data@,
            targets: self.test.targeted_contracts.targets@,
            is_updatable: self.test.targeted_contracts.is_updatable,
            edges: self.edges@,
            counters: self.counters,
            phase: self.phase@,
        }
    }
}

/// The input with the sender that is used for its own.
pub open spec fn resolved_input(excluded: Seq<Address>, input: BasicTxDetailsView) -> BasicTxDetailsView {
    BasicTxDetailsView { sender: resolved_sender(excluded, input.sender), ..input }
}

/// Whether the invariants are checked after the call at `depth`: after every so many calls, and
/// always after the last one.
pub open spec fn should_check(config: InvariantConfig, depth: nat) -> bool {
    ||| depth == config.depth - 1
    ||| config.check_interval != 0 && (depth + 1) % (config.check_interval as nat) == 0
}

/// The invariants are always checked after the last call of a run, only then with an interval of
/// zero, and after every call with an interval of one.
pub proof fn the_last_call_is_always_checked(config: InvariantConfig, depth: nat)
    requires
        depth < config.depth,
    ensures
        depth + 1 == config.depth ==> should_check(config, depth),
        config.check_interval == 0 ==> should_check(config, depth) == (depth + 1 == config.depth),
        config.check_interval == 1 ==> should_check(config, depth),
{
}

/// Between two checks of a run, or before the first, there are fewer unchecked calls than the
/// interval.
pub proof fn checks_are_no_further_apart_than_the_interval(config: InvariantConfig, depth: nat)
    requires
        config.check_interval > 0,
        depth + config.check_interval <= config.depth,
    ensures
        exists|d: nat| depth <= d < depth + config.check_interval && #[trigger] should_check(config, d),
{
    let k = config.check_interval as int;
    let q = (depth + k) / k;
    let d = (q * k - 1) as nat;
    assert(depth + 1 <= q * k <= depth + k) by {
        vstd::arithmetic::div_mod::lemma_fundamental_div_mod(depth + k, k);
        vstd::arithmetic::div_mod::lemma_mod_bound(depth + k, k);
        assert(k * q == q * k) by (nonlinear_arith);
    }
    vstd::arithmetic::div_mod::lemma_mod_multiples_basic(q, k);
    assert(should_check(config, d));
}

/// `targets` with the created contracts, which take the place of those at the same addresses.
pub open spec fn with_created(
    targets: Map<Address, TargetView>,
    created: Seq<(Address, TargetView)>,
) -> Map<Address, TargetView>
    decreases created.len(),
{
    if created.len() == 0 {
        targets
    } else {
        with_created(targets, created.drop_last()).insert(created.last().0, created.last().1)
    }
}

/// The addresses of created contracts.
pub open spec fn created_addresses(created: Seq<(Address, TargetView)>) -> Seq<Address> {
    Seq::new(created.len(), |i: int| created[i].0)
}

/// A run ends with the targets it started with: taking out the contracts it created undoes adding
/// them, where none of them was a target before.
pub proof fn created_contracts_are_taken_out_again(
    targets: Map<Address, TargetView>,
    created: Seq<(Address, TargetView)>,
)
    requires
        forall|i: int| 0 <= i < created.len() ==> !targets.dom().contains((#[trigger] created[i]).0),
    ensures
        without_targets(with_created(targets, created), created_addresses(created)) == targets,
{
    let addresses = created_addresses(created);
    with_created_elsewhere(targets, created);
    assert(without_targets(with_created(targets, created), addresses) =~= targets) by {
        assert forall|a: Address| targets.dom().contains(a) implies !addresses.to_set().contains(a) by {
            if addresses.to_set().contains(a) {
                let i = addresses.index_of(a);
                assert(created[i].0 == a);
            }
        }
        assert forall|a: Address| !addresses.to_set().contains(a) implies with_created(targets, created).dom().contains(a)
            == targets.dom().contains(a) by {
            assert forall|i: int| 0 <= i < created.len() implies (#[trigger] created[i]).0 != a by {
                assert(addresses[i] == created[i].0);
            }
        }
    }
}

/// To add the contracts that two calls created, one after the other, is to add them all; so what holds
/// of the contracts of one call holds of those of a run.
pub proof fn created_contracts_accumulate(
    targets: Map<Address, TargetView>,
    first: Seq<(Address, TargetView)>,
    second: Seq<(Address, TargetView)>,
)
    ensures
        with_created(with_created(targets, first), second) == with_created(targets, first + second),
        created_addresses(first) + created_addresses(second) == created_addresses(first + second),
    decreases second.len(),
{
    assert(created_addresses(first) + created_addresses(second) =~= created_addresses(first + second));
    if second.len() == 0 {
        assert(first + second =~= first);
    } else {
        assert((first + second).drop_last() =~= first + second.drop_last());
        created_contracts_accumulate(targets, first, second.drop_last());
    }
}

/// Created contracts change nothing at other addresses.
proof fn with_created_elsewhere(targets: Map<Address, TargetView>, created: Seq<(Address, TargetView)>)
    ensures
        forall|a: Address|
            (forall|i: int| 0 <= i < created.len() ==> (#[trigger] created[i]).0 != a) ==> {
                &&& (#[trigger] with_created(targets, created).dom().contains(a)) == targets.dom().contains(a)
                &&& targets.dom().contains(a) ==> with_created(targets, created)[a] == targets[a]
            },
    decreases created.len(),
{
    if created.len() > 0 {
        let front = created.drop_last();
        with_created_elsewhere(targets, front);
        assert forall|a: Address|
            (forall|i: int| 0 <= i < created.len() ==> (#[trigger] created[i]).0 != a) implies {
                &&& (#[trigger] with_created(targets, created).dom().contains(a)) == targets.dom().contains(a)
                &&& targets.dom().contains(a) ==> with_created(targets, created)[a] == targets[a]
            } by {
            assert forall|i: int| 0 <= i < front.len() implies (#[trigger] front[i]).0 != a by {
                assert(created[i].0 != a);
            }
            assert(created[created.len() - 1].0 != a);
            assert(with_created(targets, front).dom().contains(a) == targets.dom().contains(a));
        }
    }
}

impl<T> WorkerView<T> {
    /// A call whose result is the mark of an assumption is discarded.
    pub open spec fn discards(self, call: CallView<T>) -> bool {
        call.result == self.magic_assume
    }

    /// Why `event` is not taken, if it is not.
    pub open spec fn refusal(self, event: EventView<T>) -> Option<StepError> {
        match (self.phase, event) {
            (PhaseView::Idle, EventView::Tick { .. }) => None,
            (PhaseView::Syncing, EventView::Synced) => None,
            (PhaseView::Seeding, EventView::Inputs { inputs, stop }) => if inputs.len() == 0 {
                Some(StepError::NoInput)
            } else {
                None
            },
            (PhaseView::Executing { run }, EventView::Executed { call, metric_key, .. }) => if self.fits_executed(
                run,
                call,
                metric_key,
            ) {
                None
            } else {
                Some(StepError::Overflow)
            },
            (PhaseView::Committing { .. }, EventView::Committed { .. }) => None,
            (PhaseView::Checking { call, full, .. }, EventView::Checked { checks, .. }) => if full
                && !self.has_outcomes(call, checks) {
                Some(StepError::MissingOutcomes)
            } else if !self.fits_checked() {
                Some(StepError::Overflow)
            } else {
                None
            },
            (PhaseView::Drawing { .. }, EventView::Next { .. }) => None,
            (PhaseView::Closing { .. }, EventView::After { .. }) => if self.data.failures.total_failures < usize::MAX {
                None
            } else {
                Some(StepError::Overflow)
            },
            _ => Some(StepError::UnexpectedEvent),
        }
    }

    /// There is an answer of each target where handlers are asked, and an outcome of each invariant that
    /// is called.
    pub open spec fn has_outcomes(self, call: CallView<T>, checks: ChecksView) -> bool {
        &&& reaches_handlers(self.config, call, checks) ==> checks.handlers.len() == self.targets.dom().len()
        &&& reaches_invariants(self.config, call, checks) ==> checks.invariants.len() == invariant_calls(self.contract)
    }

    /// The counts that an executed call changes do not overflow.
    pub open spec fn fits_executed(self, run: RunView<T>, call: CallView<T>, metric_key: Option<Seq<char>>) -> bool {
        &&& self.config.show_metrics ==> (metric_key matches Some(key) ==> metrics_at(
            self.data.metrics,
            key,
        ).fits_record(call.reverted, self.discards(call)))
        &&& self.discards(call) ==> run.rejects < u32::MAX && self.data.failures.total_failures < usize::MAX
    }

    /// The counts that a check changes do not overflow.
    pub open spec fn fits_checked(self) -> bool {
        &&& self.data.failures.reverts < usize::MAX
        &&& self.data.failures.total_failures + self.contract.invariant_fns.len() < usize::MAX
    }

    /// A run may start: the worker syncs first where the last sync is long enough ago, and stops
    /// where it is told to or made all of its runs.
    pub open spec fn ticked(self, should_continue: bool, since_sync_secs: u64) -> (WorkerView<T>, Action) {
        if !should_continue || self.runs >= self.worker_runs {
            (WorkerView { phase: PhaseView::Done, ..self }, Action::Finish { failed: false })
        } else if since_sync_secs >= SYNC_INTERVAL_SECS {
            (WorkerView { phase: PhaseView::Syncing, ..self }, Action::Sync)
        } else {
            (WorkerView { phase: PhaseView::Seeding, ..self }, Action::NewInputs)
        }
    }

    /// A run starts with its first input, unless a revert failed the campaign.
    pub open spec fn seeded(self, first: BasicTxDetailsView, stop: bool) -> (WorkerView<T>, Action) {
        if self.config.fail_on_revert && self.data.failures.reverts > 0 {
            (WorkerView { phase: PhaseView::Done, ..self }, Action::Finish { failed: true })
        } else {
            WorkerView { edges: Seq::empty(), ..self }.going_on(
                RunView::start(resolved_input(self.excluded_senders, first)),
                stop,
            )
        }
    }

    /// A run goes on: with its next call, unless the worker is told to stop, or to its end after
    /// its last call.
    pub open spec fn going_on(self, run: RunView<T>, stop: bool) -> (WorkerView<T>, Action) {
        if run.depth < self.config.depth {
            if stop {
                (WorkerView { phase: PhaseView::Done, ..self }, Action::Finish { failed: false })
            } else {
                (WorkerView { phase: PhaseView::Executing { run }, ..self }, Action::Execute)
            }
        } else if self.contract.call_after_invariant {
            (WorkerView { phase: PhaseView::Closing { run }, ..self }, Action::AfterInvariant)
        } else {
            self.ended(run)
        }
    }

    /// A run ended.
    pub open spec fn ended(self, run: RunView<T>) -> (WorkerView<T>, Action) {
        let after = WorkerView {
            runs: self.runs + 1,
            data: self.data.with_run(run, self.config.gas_report_samples as nat),
            targets: without_targets(self.targets, run.created_contracts),
            phase: PhaseView::Idle,
            ..self
        };
        (after, Action::RunEnded)
    }

    /// The worker after the counts of an executed call were taken, with the sequence to keep: the
    /// inputs up to the call, where it covered something new.
    pub open spec fn counted(
        self,
        run: RunView<T>,
        call: CallView<T>,
        new_coverage: bool,
        edges: Seq<usize>,
        metric_key: Option<Seq<char>>,
    ) -> (WorkerView<T>, Option<(Seq<BasicTxDetailsView>, Seq<usize>)>) {
        let metrics = if self.config.show_metrics {
            record_call(self.data.metrics, metric_key, call.reverted, self.discards(call))
        } else {
            self.data.metrics
        };
        let all = self.edges + edges;
        let after = WorkerView {
            data: TestDataView { metrics, ..self.data },
            edges: if new_coverage {
                Seq::empty()
            } else {
                all
            },
            counters: self.counters.with_call(call.gas_used),
            ..self
        };
        let save = if new_coverage {
            Some((run.inputs, all))
        } else {
            None
        };
        (after, save)
    }

    /// A call was executed: a discarded one is dropped, and too many of them end the campaign; any
    /// other is committed.
    pub open spec fn executed(
        self,
        run: RunView<T>,
        call: CallView<T>,
        new_coverage: bool,
        edges: Seq<usize>,
        metric_key: Option<Seq<char>>,
    ) -> (WorkerView<T>, Option<(Seq<BasicTxDetailsView>, Seq<usize>)>, Action) {
        let (after, save) = self.counted(run, call, new_coverage, edges, metric_key);
        let covered = RunView { new_coverage: run.new_coverage || new_coverage, ..run };
        if !self.discards(call) {
            (
                WorkerView { phase: PhaseView::Committing { run: covered, call }, ..after },
                save,
                Action::Commit { collect: !call.reverted },
            )
        } else {
            let rejected = RunView { rejects: run.rejects + 1, ..covered.without_last_input() };
            if rejected.rejects > self.config.max_assume_rejects {
                let data = after.data.with_failure(
                    failure_key(self.target_name, self.contract.invariant_fn.name),
                    ErrorView::MaxAssumeRejects(self.config.max_assume_rejects),
                );
                (WorkerView { data, phase: PhaseView::Done, ..after }, save, Action::Finish { failed: true })
            } else {
                (
                    WorkerView { phase: PhaseView::Drawing { run: rejected }, ..after },
                    save,
                    Action::NextInput { discarded: true, depth: run.depth as u32 },
                )
            }
        }
    }

    /// A call was committed: the contracts it created become targets where targets are updatable,
    /// and what it cost is noted.
    pub open spec fn committed(
        self,
        run: RunView<T>,
        call: CallView<T>,
        created: Seq<(Address, TargetView)>,
    ) -> (WorkerView<T>, Action) {
        let full = should_check(self.config, run.depth);
        let grown = RunView {
            created_contracts: if self.is_updatable {
                run.created_contracts + created_addresses(created)
            } else {
                run.created_contracts
            },
            fuzz_runs: run.fuzz_runs.push(FuzzCase { gas: call.gas_used, stipend: call.stipend }),
            ..run
        };
        let after = WorkerView {
            targets: if self.is_updatable {
                with_created(self.targets, created)
            } else {
                self.targets
            },
            phase: PhaseView::Checking { run: grown, call, full },
            ..self
        };
        (after, Action::Check { full })
    }

    /// A call was checked: new failures are counted, and the inputs of a run are kept after its
    /// last call.
    pub open spec fn checked(
        self,
        run: RunView<T>,
        call: CallView<T>,
        full: bool,
        checks: ChecksView,
        metric_key: Option<Seq<char>>,
    ) -> (WorkerView<T>, Action) {
        let (data, kept) = if full {
            checked_call(self.contract, self.config, self.data, run, call, checks, metric_key, self.target_name)
        } else {
            unchecked_call(
                self.contract,
                self.config,
                self.data,
                run,
                call,
                checks.global_failure,
                metric_key,
                self.target_name,
            )
        };
        let new_failures = (data.failures.total_failures - self.data.failures.total_failures) as nat;
        let after = WorkerView {
            data: if run.depth == self.config.depth - 1 {
                TestDataView { last_run_inputs: kept.inputs, ..data }
            } else {
                data
            },
            counters: self.counters.with_failures(new_failures),
            phase: PhaseView::Drawing { run: RunView { depth: run.depth + 1, ..kept } },
            ..self
        };
        (after, Action::NextInput { discarded: false, depth: (run.depth + 1) as u32 })
    }

    /// `afterInvariant` was called, and the run ended.
    pub open spec fn closed(self, run: RunView<T>, outcome: OutcomeView) -> (WorkerView<T>, Action) {
        let failures = with_failed_check(
            self.data.failures,
            self.contract,
            self.config,
            run.inputs,
            outcome,
            Seq::empty(),
            self.target_name,
        );
        WorkerView { data: TestDataView { failures, ..self.data }, ..self }.ended(run)
    }

    /// What an event that is taken leads to: the worker after it, a sequence to keep, and what is
    /// to be done next.
    pub open spec fn stepped(self, event: EventView<T>) -> (
        WorkerView<T>,
        Option<(Seq<BasicTxDetailsView>, Seq<usize>)>,
        Action,
    ) {
        match (self.phase, event) {
            (PhaseView::Idle, EventView::Tick { should_continue, since_sync_secs }) => {
                let (after, action) = self.ticked(should_continue, since_sync_secs);
                (after, None, action)
            },
            (PhaseView::Syncing, EventView::Synced) => {
                (WorkerView { phase: PhaseView::Seeding, ..self }, None, Action::NewInputs)
            },
            (PhaseView::Seeding, EventView::Inputs { inputs, stop }) => {
                let (after, action) = self.seeded(inputs[0], stop);
                (after, None, action)
            },
            (PhaseView::Executing { run }, EventView::Executed { call, new_coverage, edges, metric_key }) => {
                self.executed(run, call, new_coverage, edges, metric_key)
            },
            (PhaseView::Committing { run, call }, EventView::Committed { created }) => {
                let (after, action) = self.committed(run, call, created);
                (after, None, action)
            },
            (PhaseView::Checking { run, call, full }, EventView::Checked { checks, metric_key }) => {
                let (after, action) = self.checked(run, call, full, checks, metric_key);
                (after, None, action)
            },
            (PhaseView::Drawing { run }, EventView::Next { input, stop }) => {
                let next = RunView {
                    inputs: run.inputs.push(resolved_input(self.excluded_senders, input)),
                    ..run
                };
                let (after, action) = self.going_on(next, stop);
                (after, None, action)
            },
            (PhaseView::Closing { run }, EventView::After { outcome }) => {
                let (after, action) = self.closed(run, outcome);
                (after, None, action)
            },
            _ => (self, None, Action::Finish { failed: false }),
        }
    }

    /// A run makes no more calls than it is to make, no more of them are discarded than may be, and
    /// none has a sender that another one is used for.
    pub open spec fn run_consistent(self, run: RunView<T>) -> bool {
        &&& run.rejects <= self.config.max_assume_rejects
        &&& run.depth <= self.config.depth
        &&& forall|i: int|
            0 <= i < run.inputs.len() ==> resolved_sender(
                self.excluded_senders,
                (#[trigger] run.inputs[i]).sender,
            ) == run.inputs[i].sender
    }

    /// What holds of a worker at any time: it makes no more runs than it is to make, each run makes
    /// as many calls as it is to make and no more, no more calls are discarded than may be, no
    /// excluded sender is used but the fallback one, there is a current input where one is
    /// executed, and the counts fit together.
    pub open spec fn consistent(self) -> bool {
        &&& self.contract.invariant_fn.inputs.len() == 0
        &&& self.runs <= self.worker_runs
        &&& self.worker_runs <= u32::MAX
        &&& self.data.failures.consistent()
        &&& all_consistent(self.data.metrics)
        &&& self.data.fuzz_cases.len() == self.runs
        &&& forall|i: int|
            0 <= i < self.data.fuzz_cases.len() ==> (#[trigger] self.data.fuzz_cases[i]).len() == self.config.depth
        &&& self.data.gas_report_traces.len() == (if self.runs <= self.config.gas_report_samples {
            self.runs
        } else {
            self.config.gas_report_samples as nat
        })
        &&& match self.phase {
            PhaseView::Idle | PhaseView::Done => true,
            PhaseView::Syncing | PhaseView::Seeding => self.runs < self.worker_runs,
            PhaseView::Executing { run } | PhaseView::Committing { run, .. } => {
                &&& self.runs < self.worker_runs
                &&& self.run_consistent(run)
                &&& run.depth < self.config.depth
                &&& run.fuzz_runs.len() == run.depth
                &&& run.inputs.len() > 0
            },
            PhaseView::Checking { run, full, .. } => {
                &&& self.runs < self.worker_runs
                &&& self.run_consistent(run)
                &&& run.depth < self.config.depth
                &&& run.fuzz_runs.len() == run.depth + 1
                &&& run.inputs.len() > 0
                &&& full == should_check(self.config, run.depth)
            },
            PhaseView::Drawing { run } => {
                &&& self.runs < self.worker_runs
                &&& self.run_consistent(run)
                &&& run.fuzz_runs.len() == run.depth
            },
            PhaseView::Closing { run } => {
                &&& self.runs < self.worker_runs
                &&& self.run_consistent(run)
                &&& run.depth == self.config.depth
                &&& run.fuzz_runs.len() == run.depth
            },
        }
    }
}

/// What holds of a worker at any time holds after every step.
pub proof fn steps_keep_a_worker_consistent<T>(worker: WorkerView<T>, event: EventView<T>)
    requires
        worker.consistent(),
        worker.refusal(event) is None,
    ensures
        worker.stepped(event).0.consistent(),
{
    match (worker.phase, event) {
        (PhaseView::Executing { run }, EventView::Executed { call, new_coverage, edges, metric_key }) => {
            let key = metric_key;
            let discarded = worker.discards(call);
            if worker.config.show_metrics {
                recorded_calls_stay_consistent(worker.data.metrics, key, call.reverted, discarded);
            }
            keys_do_not_outnumber_failures(
                worker.data.failures,
                failure_key(worker.target_name, worker.contract.invariant_fn.name),
                ErrorView::MaxAssumeRejects(worker.config.max_assume_rejects),
            );
        },
        (PhaseView::Checking { run, call, full }, EventView::Checked { checks, metric_key }) => {
            let key = metric_key;
            if full {
                checked_call_bounds(
                    worker.contract,
                    worker.config,
                    worker.data,
                    run,
                    call,
                    checks,
                    key,
                    worker.target_name,
                );
            } else {
                unchecked_call_bounds(
                    worker.contract,
                    worker.config,
                    worker.data,
                    run,
                    call,
                    checks.global_failure,
                    key,
                    worker.target_name,
                );
            }
        },
        (PhaseView::Closing { run }, EventView::After { outcome }) => {
            if !outcome.success {
                let failures = with_failed_check(
                    worker.data.failures,
                    worker.contract,
                    worker.config,
                    run.inputs,
                    outcome,
                    Seq::empty(),
                    worker.target_name,
                );
                let key = failure_key(worker.target_name, worker.contract.invariant_fn.name);
                keys_do_not_outnumber_failures(worker.data.failures, key, failures.errors[key]);
            }
        },
        _ => {},
    }
}

/// The number of calls that a worker has committed.
pub open spec fn calls_made<T>(worker: WorkerView<T>) -> nat {
    let finished = worker.runs * worker.config.depth as nat;
    match worker.phase {
        PhaseView::Executing { run }
        | PhaseView::Committing { run, .. }
        | PhaseView::Checking { run, .. }
        | PhaseView::Drawing { run }
        | PhaseView::Closing { run } => finished + run.fuzz_runs.len(),
        _ => finished,
    }
}

/// A worker makes no more calls, discarded ones left out, than its runs have.
pub proof fn calls_are_bounded<T>(worker: WorkerView<T>)
    requires
        worker.consistent(),
    ensures
        calls_made(worker) <= worker.worker_runs * worker.config.depth,
{
    let runs = worker.runs as int;
    let all = worker.worker_runs as int;
    let depth = worker.config.depth as int;
    assert(runs * depth <= all * depth) by (nonlinear_arith)
        requires
            runs <= all,
            depth >= 0,
    ;
    if runs < all {
        assert(runs * depth + depth <= all * depth) by (nonlinear_arith)
            requires
                runs + 1 <= all,
                depth >= 0,
        ;
    }
}

/// A worker makes the other workers stop only after a failure or a revert.
pub proof fn workers_stop_others_only_after_a_failure<T>(worker: WorkerView<T>, event: EventView<T>)
    requires
        worker.consistent(),
        worker.refusal(event) is None,
        worker.stepped(event).2 == (Action::Finish { failed: true }),
    ensures
        ({
            let failures = worker.stepped(event).0.data.failures;
            failures.total_failures > 0 || worker.config.fail_on_revert && failures.reverts > 0
        }),
{
}

/// A worker that is done takes no event.
pub proof fn a_worker_that_is_done_stays_so<T>(worker: WorkerView<T>, event: EventView<T>)
    requires
        worker.phase is Done,
    ensures
        worker.refusal(event) == Some(StepError::UnexpectedEvent),
{
}

/// A step keeps which worker it is, what it is configured with and which senders it uses.
pub proof fn steps_keep_the_set_up<T>(worker: WorkerView<T>, event: EventView<T>)
    ensures
        ({
            let after = worker.stepped(event).0;
            &&& after.id == worker.id
            &&& after.config == worker.config
            &&& after.contract == worker.contract
            &&& after.target_name == worker.target_name
            &&& after.magic_assume == worker.magic_assume
            &&& after.targeted_senders == worker.targeted_senders
            &&& after.excluded_senders == worker.excluded_senders
            &&& after.worker_runs == worker.worker_runs
            &&& after.is_updatable == worker.is_updatable
        }),
{
}

/// A step never takes a failure or a revert away.
pub proof fn failures_are_never_forgotten<T>(worker: WorkerView<T>, event: EventView<T>)
    requires
        worker.consistent(),
        worker.refusal(event) is None,
    ensures
        worker.stepped(event).0.data.failures.total_failures >= worker.data.failures.total_failures,
        worker.stepped(event).0.data.failures.reverts >= worker.data.failures.reverts,
{
    match (worker.phase, event) {
        (PhaseView::Checking { run, call, full }, EventView::Checked { checks, metric_key }) => {
            let key = metric_key;
            checked_call_bounds(
                worker.contract,
                worker.config,
                worker.data,
                run,
                call,
                checks,
                key,
                worker.target_name,
            );
            unchecked_call_bounds(
                worker.contract,
                worker.config,
                worker.data,
                run,
                call,
                checks.global_failure,
                key,
                worker.target_name,
            );
        },
        _ => {},
    }
}

/// Whether `a` and `b` hold the same bytes.
fn same_bytes(a: &Vec<u8>, b: &Vec<u8>) -> (r: bool)
    ensures
        r == (a@ == b@),
{
    if a.len() != b.len() {
        return false;
    }
    let mut i: usize = 0;
    while i < a.len()
        invariant
            i <= a@.len(),
            a@.len() == b@.len(),
            forall|j: int| 0 <= j < i ==> a@[j] == b@[j],
        decreases a@.len() - i,
    {
        if a[i] != b[i] {
            assert(a@[i as int] != b@[i as int]);
            return false;
        }
        i += 1;
    }
    assert(a@ =~= b@);
    true
}

/// Whether the invariants are checked after the call at `depth` of a run.
pub fn should_check_invariant(config: &InvariantConfig, depth: u32) -> (r: bool)
    requires
        depth < config.depth,
    ensures
        r == should_check(*config, depth as nat),
{
    let is_last_call = depth == config.depth - 1;
    if config.check_interval == 0 {
        is_last_call
    } else {
        config.check_interval == 1 || (depth + 1) % config.check_interval == 0 || is_last_call
    }
}

impl<T> InvariantWorker<T> {
    /// All maps are in the order of their keys, and the worker is consistent.
    pub open spec fn wf(self) -> bool {
        &&& self.test.wf()
        &&& self@.consistent()
    }

    /// A worker that is about to start. It starts with the failures of the campaign so far.
    pub fn new(
        id: usize,
        config: InvariantConfig,
        contract: InvariantContract,
        target_name: String,
        magic_assume: Vec<u8>,
        worker_runs: u32,
        targeted_contracts: FuzzRunIdentifiedContracts,
        sender_filters: SenderFilters,
        initial_failures: InvariantFailures,
    ) -> (r: InvariantWorker<T>)
        requires
            contract@.invariant_fn.inputs.len() == 0,
            targeted_contracts.targets.wf(),
            initial_failures.wf(),
            initial_failures@.consistent(),
        ensures
            r.wf(),
            r@ == (WorkerView {
                id: id as nat,
                config,
                contract: contract@,
                target_name: target_name@,
                magic_assume: magic_assume@,
                targeted_senders: sender_filters.targeted@,
                excluded_senders: sender_filters.excluded@,
                worker_runs: worker_runs as nat,
                runs: 0,
                data: TestDataView::<T>::start(initial_failures@),
                targets: targeted_contracts.targets@,
                is_updatable: targeted_contracts.is_updatable,
                edges: Seq::empty(),
                counters: WorkerCounters { calls: 0, gas: 0, failures: 0 },
                phase: PhaseView::Idle,
            }),
    {
        InvariantWorker {
            id,
            config,
            contract,
            target_name,
            magic_assume,
            worker_runs,
            runs: 0,
            test: InvariantTest::new(targeted_contracts, sender_filters, initial_failures),
            edges: Vec::new(),
            counters: WorkerCounters::new(),
            phase: Phase::Idle,
        }
    }

    /// The input that is executed, committed or checked.
    pub fn current_input(&self) -> (r: Option<&BasicTxDetails>)
        requires
            self.wf(),
        ensures
            match self@.phase {
                PhaseView::Executing { run }
                | PhaseView::Committing { run, .. }
                | PhaseView::Checking { run, .. } => r matches Some(input) && input@ == run.inputs.last(),
                _ => r is None,
            },
    {
        match &self.phase {
            Phase::Executing { run } | Phase::Committing { run, .. } | Phase::Checking { run, .. } => {
                assert(run.inputs@.len() == run@.inputs.len());
                Some(&run.inputs[run.inputs.len() - 1])
            },
            _ => None,
        }
    }

    /// Whether a check needs to know of the mark of a failed assertion: where failed assertions are
    /// failures and the call itself did not fail one.
    pub fn asks_global_failure(&self) -> (r: bool)
        ensures
            r == (self@.phase matches PhaseView::Checking { call, .. } && self@.config.fail_on_assert
                && !call.assert_failure),
    {
        match &self.phase {
            Phase::Checking { call, .. } => self.config.fail_on_assert && !call.assert_failure,
            _ => false,
        }
    }

    /// Whether a check needs to know of the handlers: where invariants are checked, no assertion failed
    /// and the call did not revert.
    pub fn asks_handlers(&self, global_failure: bool) -> (r: bool)
        ensures
            r == (self@.phase matches PhaseView::Checking { call, full, .. } && full && !call.reverted
                && !assertion_broken(self@.config, call.assert_failure, global_failure)),
    {
        match &self.phase {
            Phase::Checking { call, full, .. } => {
                let broken = self.config.fail_on_assert && (call.assert_failure || global_failure);
                *full && !broken && !call.reverted
            },
            _ => false,
        }
    }

    /// Whether a check needs the outcomes of the invariants: where it needs to know of the handlers and
    /// all of them report success.
    pub fn asks_invariants(&self, checks: &CheckOutcomes) -> (r: bool)
        ensures
            r == (self@.phase matches PhaseView::Checking { call, full, .. } && full && reaches_invariants(
                self@.config,
                call,
                checks@,
            )),
    {
        self.asks_handlers(checks.global_failure) && are_all_set(&checks.handlers)
    }

    /// Whether the call is discarded.
    fn is_discarded(&self, call: &CallOutcome<T>) -> (r: bool)
        ensures
            r == self@.discards(call@),
    {
        same_bytes(&call.result, &self.magic_assume)
    }

    /// Why `event` is not taken, if it is not.
    pub fn refuses(&self, event: &Event<T>) -> (r: Option<StepError>)
        requires
            self.wf(),
        ensures
            r == self@.refusal(event@),
    {
        match (&self.phase, event) {
            (Phase::Idle, Event::Tick { .. }) => None,
            (Phase::Syncing, Event::Synced) => None,
            (Phase::Seeding, Event::Inputs { inputs, .. }) => {
                if inputs.len() == 0 {
                    Some(StepError::NoInput)
                } else {
                    None
                }
            },
            (Phase::Executing { run }, Event::Executed { call, metric_key, .. }) => {
                let discarded = self.is_discarded(call);
                let failures = &self.test.test_data.failures;
                if discarded && (run.rejects == u32::MAX || failures.total_failures == usize::MAX) {
                    return Some(StepError::Overflow);
                }
                if self.config.show_metrics {
                    if let Some(key) = metric_key {
                        let metrics = metrics_of(&self.test.test_data.metrics, key);
                        if metrics.calls == usize::MAX || (discarded && metrics.discards == usize::MAX) || (
                        call.reverted && !discarded && metrics.reverts == usize::MAX) {
                            return Some(StepError::Overflow);
                        }
                    }
                }
                None
            },
            (Phase::Committing { .. }, Event::Committed { .. }) => None,
            (Phase::Checking { .. }, Event::Checked { checks, .. }) => {
                let wanted = if self.contract.is_optimization() {
                    1
                } else {
                    self.contract.invariant_fns.len()
                };
                let failures = &self.test.test_data.failures;
                let targets = self.test.targeted_contracts.targets.len();
                let answered = !self.asks_handlers(checks.global_failure) || checks.handlers.len() == targets;
                if !answered || (self.asks_invariants(checks) && checks.invariants.len() != wanted) {
                    Some(StepError::MissingOutcomes)
                } else if failures.reverts == usize::MAX || self.contract.invariant_fns.len() >= usize::MAX
                    - failures.total_failures {
                    Some(StepError::Overflow)
                } else {
                    None
                }
            },
            (Phase::Drawing { .. }, Event::Next { .. }) => None,
            (Phase::Closing { .. }, Event::After { .. }) => {
                if self.test.test_data.failures.total_failures < usize::MAX {
                    None
                } else {
                    Some(StepError::Overflow)
                }
            },
            _ => Some(StepError::UnexpectedEvent),
        }
    }

    /// The input with the sender that is used for its own.
    fn resolve_input(&self, input: BasicTxDetails) -> (r: BasicTxDetails)
        ensures
            r@ == resolved_input(self@.excluded_senders, input@),
    {
        BasicTxDetails { sender: self.test.sender_filters.resolve(input.sender), ..input }
    }

    /// A run ended.
    fn end_run(&mut self, run: InvariantTestRun<T>) -> (r: Action)
        requires
            old(self).test.wf(),
            old(self).runs < u32::MAX,
        ensures
            final(self).test.wf(),
            (final(self)@, r) == old(self)@.ended(run@),
    {
        self.test.end_run(run, self.config.gas_report_samples as usize);
        self.runs += 1;
        self.phase = Phase::Idle;
        Action::RunEnded
    }

    /// A run goes on.
    fn go_on(&mut self, run: InvariantTestRun<T>, stop: bool) -> (r: Action)
        requires
            old(self).test.wf(),
            old(self).runs < u32::MAX,
        ensures
            final(self).test.wf(),
            (final(self)@, r) == old(self)@.going_on(run@, stop),
    {
        if run.depth < self.config.depth {
            if stop {
                self.phase = Phase::Done;
                Action::Finish { failed: false }
            } else {
                self.phase = Phase::Executing { run };
                Action::Execute
            }
        } else if self.contract.call_after_invariant {
            self.phase = Phase::Closing { run };
            Action::AfterInvariant
        } else {
            self.end_run(run)
        }
    }

    /// A run may start.
    fn tick(&mut self, should_continue: bool, since_sync_secs: u64) -> (r: Action)
        requires
            old(self).test.wf(),
        ensures
            final(self).test.wf(),
            (final(self)@, r) == old(self)@.ticked(should_continue, since_sync_secs),
    {
        if !should_continue || self.runs >= self.worker_runs {
            self.phase = Phase::Done;
            Action::Finish { failed: false }
        } else if since_sync_secs >= SYNC_INTERVAL_SECS {
            self.phase = Phase::Syncing;
            Action::Sync
        } else {
            self.phase = Phase::Seeding;
            Action::NewInputs
        }
    }

    /// A run starts.
    fn seed(&mut self, inputs: &Vec<BasicTxDetails>, stop: bool) -> (r: Action)
        requires
            old(self).test.wf(),
            old(self).runs < u32::MAX,
            inputs@.len() > 0,
        ensures
            final(self).test.wf(),
            (final(self)@, r) == old(self)@.seeded(tx_models(inputs@)[0], stop),
    {
        if self.config.fail_on_revert && self.test.reverts() > 0 {
            self.phase = Phase::Done;
            return Action::Finish { failed: true };
        }
        let first = self.resolve_input(inputs[0].clone());
        let run = InvariantTestRun::new(first);
        self.edges = Vec::new();
        self.go_on(run, stop)
    }

    /// A call was executed.
    fn executed(
        &mut self,
        run: InvariantTestRun<T>,
        call: CallOutcome<T>,
        new_coverage: bool,
        edges: Vec<usize>,
        metric_key: Option<String>,
    ) -> (r: Step)
        requires
            old(self).test.wf(),
            old(self)@.fits_executed(run@, call@, optional_text(metric_key)),
            run@.inputs.len() > 0,
        ensures
            final(self).test.wf(),
            (final(self)@, save_model(r.save), r.action) == old(self)@.executed(
                run@,
                call@,
                new_coverage,
                edges@,
                optional_text(metric_key),
            ),
    {
        let mut run = run;
        let mut edges = edges;
        let discarded = self.is_discarded(&call);
        if self.config.show_metrics {
            self.test.record_metrics(metric_key, call.reverted, discarded);
        }
        self.edges.append(&mut edges);
        run.new_coverage = run.new_coverage || new_coverage;
        let save = if new_coverage {
            let mut covered: Vec<usize> = Vec::new();
            covered.append(&mut self.edges);
            Some(SavedInputs { inputs: clone_txs(&run.inputs), edges: covered })
        } else {
            None
        };
        self.counters.add_call(call.gas_used);
        if discarded {
            run.pop_input();
            run.rejects += 1;
            if run.rejects > self.config.max_assume_rejects {
                self.test.set_error(
                    FailureKey::new(self.target_name.as_str(), self.contract.invariant_fn.name.as_str()),
                    InvariantFuzzError::MaxAssumeRejects(self.config.max_assume_rejects),
                );
                self.phase = Phase::Done;
                Step { save, action: Action::Finish { failed: true } }
            } else {
                let depth = run.depth;
                self.phase = Phase::Drawing { run };
                Step { save, action: Action::NextInput { discarded: true, depth } }
            }
        } else {
            let collect = !call.reverted;
            self.phase = Phase::Committing { run, call };
            Step { save, action: Action::Commit { collect } }
        }
    }

    /// A call was committed.
    fn committed(
        &mut self,
        run: InvariantTestRun<T>,
        call: CallOutcome<T>,
        created: Vec<(Address, TargetedContract)>,
    ) -> (r: Action)
        requires
            old(self).test.wf(),
            run.depth < old(self).config.depth,
            forall|i: int| 0 <= i < created@.len() ==> (#[trigger] created@[i]).1.wf(),
        ensures
            final(self).test.wf(),
            (final(self)@, r) == old(self)@.committed(run@, call@, created_models(created@)),
    {
        let mut run = run;
        if self.test.targeted_contracts.is_updatable {
            let mut i: usize = 0;
            let ghost before = run;
            let ghost targets = self@.targets;
            let ghost models = created_models(created@);
            proof {
                assert(models.take(0) =~= Seq::empty());
                assert(run.created_contracts@ =~= before.created_contracts@ + created_addresses(models.take(0)));
            }
            while i < created.len()
                invariant
                    i <= created@.len(),
                    models == created_models(created@),
                    self.test.wf(),
                    forall|j: int| 0 <= j < created@.len() ==> (#[trigger] created@[j]).1.wf(),
                    run@ == (RunView { created_contracts: run.created_contracts@, ..before@ }),
                    run.created_contracts@ == before.created_contracts@ + created_addresses(models.take(i as int)),
                    self@ == (WorkerView { targets: with_created(targets, models.take(i as int)), ..old(self)@ }),
                    self.config == old(self).config,
                decreases created@.len() - i,
            {
                let entry = &created[i];
                let ghost front = models.take(i as int);
                let ghost next = models.take(i + 1);
                assert(created@[i as int].1.wf());
                run.created_contracts.push(entry.0);
                let target = entry.1.clone();
                self.test.targeted_contracts.targets.insert(entry.0, target);
                proof {
                    assert(next.drop_last() =~= front);
                    assert(next.last() == models[i as int]);
                    assert(created_addresses(next) =~= created_addresses(front).push(models[i as int].0));
                    assert(run.created_contracts@ =~= before.created_contracts@ + created_addresses(next));
                }
                i += 1;
            }
            assert(models.take(i as int) =~= models);
        }
        run.fuzz_runs.push(FuzzCase { gas: call.gas_used, stipend: call.stipend });
        let full = should_check_invariant(&self.config, run.depth);
        self.phase = Phase::Checking { run, call, full };
        Action::Check { full }
    }

    /// A call was checked.
    fn checked(
        &mut self,
        run: InvariantTestRun<T>,
        call: CallOutcome<T>,
        full: bool,
        checks: CheckOutcomes,
        metric_key: Option<String>,
    ) -> (r: Action)
        requires
            old(self).test.wf(),
            old(self)@.fits_checked(),
            old(self)@.contract.invariant_fn.inputs.len() == 0,
            run.depth < old(self).config.depth,
            full ==> old(self)@.has_outcomes(call@, checks@),
        ensures
            final(self).test.wf(),
            (final(self)@, r) == old(self)@.checked(run@, call@, full, checks@, optional_text(metric_key)),
    {
        let mut run = run;
        let failures_before = self.test.test_data.failures.total_failures;
        proof {
            let key = optional_text(metric_key);
            checked_call_bounds(self@.contract, self.config, self@.data, run@, call@, checks@, key, self@.target_name);
            unchecked_call_bounds(
                self@.contract,
                self.config,
                self@.data,
                run@,
                call@,
                checks.global_failure,
                key,
                self@.target_name,
            );
        }
        if full {
            process_call_result(
                &self.contract,
                &mut self.test,
                &mut run,
                &self.config,
                call,
                &checks,
                &metric_key,
                self.target_name.as_str(),
            );
        } else {
            process_unchecked_call(
                &self.contract,
                &mut self.test,
                &mut run,
                &self.config,
                &call,
                checks.global_failure,
                &metric_key,
                self.target_name.as_str(),
            );
        }
        let new_failures = self.test.test_data.failures.total_failures - failures_before;
        self.counters.record_failures(new_failures);
        if run.depth == self.config.depth - 1 {
            self.test.set_last_run_inputs(&run.inputs);
        }
        run.depth += 1;
        let depth = run.depth;
        self.phase = Phase::Drawing { run };
        Action::NextInput { discarded: false, depth }
    }

    /// Takes an event: the worker after it and what is to be done next, or the worker as it was
    /// and why the event was not taken.
    pub fn step(self, event: Event<T>) -> (r: (InvariantWorker<T>, Result<Step, StepError>))
        requires
            self.wf(),
            event.wf(),
        ensures
            r.0.wf(),
            match self@.refusal(event@) {
                Some(error) => r.0@ == self@ && r.1 == Err::<Step, StepError>(error),
                None => r.1 matches Ok(step) && (r.0@, save_model(step.save), step.action) == self@.stepped(event@),
            },
    {
        if let Some(error) = self.refuses(&event) {
            return (self, Err(error));
        }
        proof {
            steps_keep_a_worker_consistent(self@, event@);
        }
        let ghost before = self@;
        let mut worker = self;
        let phase = worker.phase;
        worker.phase = Phase::Done;
        let step = match (phase, event) {
            (Phase::Idle, Event::Tick { should_continue, since_sync_secs }) => {
                Step { save: None, action: worker.tick(should_continue, since_sync_secs) }
            },
            (Phase::Syncing, Event::Synced) => {
                worker.phase = Phase::Seeding;
                Step { save: None, action: Action::NewInputs }
            },
            (Phase::Seeding, Event::Inputs { inputs, stop }) => {
                Step { save: None, action: worker.seed(&inputs, stop) }
            },
            (Phase::Executing { run }, Event::Executed { call, new_coverage, edges, metric_key }) => {
                worker.executed(run, call, new_coverage, edges, metric_key)
            },
            (Phase::Committing { run, call }, Event::Committed { created }) => {
                Step { save: None, action: worker.committed(run, call, created) }
            },
            (Phase::Checking { run, call, full }, Event::Checked { checks, metric_key }) => {
                Step { save: None, action: worker.checked(run, call, full, checks, metric_key) }
            },
            (Phase::Drawing { run }, Event::Next { input, stop }) => {
                let mut run = run;
                let input = worker.resolve_input(input);
                let ghost inputs = run.inputs@;
                run.inputs.push(input);
                assert(tx_models(run.inputs@) =~= tx_models(inputs).push(input@));
                Step { save: None, action: worker.go_on(run, stop) }
            },
            (Phase::Closing { run }, Event::After { outcome }) => {
                assert_after_invariant(
                    &worker.contract,
                    &mut worker.test,
                    &run,
                    &worker.config,
                    &outcome,
                    worker.target_name.as_str(),
                );
                Step { save: None, action: worker.end_run(run) }
            },
            _ => Step { save: None, action: Action::Finish { failed: false } },
        };
        (worker, Ok(step))
    }

    /// What the worker hands over. Only the first worker replays saved sequences.
    pub fn into_state(self, failed_corpus_replays: usize) -> (r: InvariantWorkerState<T>)
        requires
            self.wf(),
        ensures
            r.wf(),
            r.id == self.id,
            r.data@ == self@.data,
            r.runs == self@.runs,
            r.failed_corpus_replays == (if self.id == 0 {
                failed_corpus_replays
            } else {
                0
            }),
    {
        InvariantWorkerState {
            id: self.id,
            data: self.test.test_data,
            runs: self.runs,
            failed_corpus_replays: if self.id == 0 {
                failed_corpus_replays
            } else {
                0
            },
        }
    }
}

/// A call that an assumption discards leaves the call sequence: where the run goes on, its inputs are those
/// before without the last one, so that the next input takes the place of the discarded one. The call is
/// counted as rejected and as nothing else. One that is rejected beyond what is allowed ends the campaign
/// with that failure.
pub proof fn discarded_calls_leave_the_sequence<T>(
    worker: WorkerView<T>,
    run: RunView<T>,
    call: CallView<T>,
    new_coverage: bool,
    edges: Seq<usize>,
    metric_key: Option<Seq<char>>,
    input: BasicTxDetailsView,
)
    requires
        worker.phase == (PhaseView::Executing { run }),
        run.inputs.len() > 0,
        run.depth < worker.config.depth,
        call.result == worker.magic_assume,
    ensures
        ({
            let (after, save, action) = worker.stepped(
                EventView::Executed { call, new_coverage, edges, metric_key },
            );
            &&& after.targets == worker.targets
            &&& after.runs == worker.runs
            &&& run.rejects + 1 <= worker.config.max_assume_rejects ==> {
                &&& action == (Action::NextInput { discarded: true, depth: run.depth as u32 })
                &&& after.data == (TestDataView { metrics: after.data.metrics, ..worker.data })
                &&& after.phase matches PhaseView::Drawing { run: left }
                &&& left.inputs == run.inputs.drop_last()
                &&& left.rejects == run.rejects + 1
                &&& left.depth == run.depth
                &&& left.fuzz_runs == run.fuzz_runs
                &&& left.created_contracts == run.created_contracts
                &&& left.run_traces == run.run_traces
                &&& after.stepped(EventView::Next { input, stop: false }).0.phase matches PhaseView::Executing { run: next }
                &&& next.inputs.len() == run.inputs.len()
                &&& forall|k: int| 0 <= k < run.inputs.len() - 1 ==> #[trigger] next.inputs[k] == run.inputs[k]
                &&& next.inputs[run.inputs.len() - 1].call_details == input.call_details
            }
            &&& run.rejects + 1 > worker.config.max_assume_rejects ==> {
                let key = worker.target_name + seq![':'] + worker.contract.invariant_fn.name;
                let failures = after.data.failures;
                &&& action == (Action::Finish { failed: true })
                &&& after.phase == PhaseView::<T>::Done
                &&& failures.errors == worker.data.failures.errors.insert(
                    key,
                    ErrorView::MaxAssumeRejects(worker.config.max_assume_rejects),
                )
                &&& failures.total_failures == worker.data.failures.total_failures + 1
                &&& failures.reverts == worker.data.failures.reverts
            }
        }),
{
}

/// A call that no assumption discards stays in the call sequence and is committed. Values are collected from
/// it unless it reverted.
pub proof fn other_calls_are_committed<T>(
    worker: WorkerView<T>,
    run: RunView<T>,
    call: CallView<T>,
    new_coverage: bool,
    edges: Seq<usize>,
    metric_key: Option<Seq<char>>,
)
    requires
        worker.phase == (PhaseView::Executing { run }),
        call.result != worker.magic_assume,
    ensures
        ({
            let (after, save, action) = worker.stepped(
                EventView::Executed { call, new_coverage, edges, metric_key },
            );
            &&& action == (Action::Commit { collect: !call.reverted })
            &&& after.targets == worker.targets
            &&& after.runs == worker.runs
            &&& after.data == (TestDataView { metrics: after.data.metrics, ..worker.data })
            &&& after.phase matches PhaseView::Committing { run: left, call: committed }
            &&& committed == call
            &&& left.inputs == run.inputs
            &&& left.rejects == run.rejects
            &&& left.depth == run.depth
            &&& left.fuzz_runs == run.fuzz_runs
            &&& left.created_contracts == run.created_contracts
            &&& left.run_traces == run.run_traces
            &&& left.new_coverage == (run.new_coverage || new_coverage)
        }),
{
}

/// A call that covers something new has the call sequence up to it kept, with all edges that were covered
/// since inputs were last kept; the edges are then counted anew. After any other call nothing is kept, and
/// its edges are added.
pub proof fn new_coverage_keeps_the_sequence<T>(
    worker: WorkerView<T>,
    run: RunView<T>,
    call: CallView<T>,
    new_coverage: bool,
    edges: Seq<usize>,
    metric_key: Option<Seq<char>>,
)
    requires
        worker.phase == (PhaseView::Executing { run }),
    ensures
        ({
            let (after, save, action) = worker.stepped(
                EventView::Executed { call, new_coverage, edges, metric_key },
            );
            &&& new_coverage ==> save == Some((run.inputs, worker.edges + edges)) && after.edges.len() == 0
            &&& !new_coverage ==> save is None && after.edges == worker.edges + edges
        }),
{
}

/// Every executed call is counted, with its gas, discarded or not. Under its metric key, where metrics are
/// kept, it counts once as a call, once as discarded where it is, and once as a revert where it reverted
/// and was not discarded; nothing is counted under other keys, or where metrics are not kept.
pub proof fn executed_calls_are_counted<T>(
    worker: WorkerView<T>,
    run: RunView<T>,
    call: CallView<T>,
    new_coverage: bool,
    edges: Seq<usize>,
    metric_key: Option<Seq<char>>,
    key: Seq<char>,
)
    requires
        worker.phase == (PhaseView::Executing { run }),
        worker.data.metrics.dom().contains(key) ==> worker.data.metrics[key].calls < usize::MAX
            && worker.data.metrics[key].reverts < usize::MAX && worker.data.metrics[key].discards < usize::MAX,
    ensures
        ({
            let after = worker.stepped(EventView::Executed { call, new_coverage, edges, metric_key }).0;
            let known = worker.data.metrics.dom().contains(key);
            let before = worker.data.metrics[key];
            let now = after.data.metrics[key];
            let discarded = call.result == worker.magic_assume;
            &&& worker.counters.calls < u64::MAX ==> after.counters.calls == worker.counters.calls + 1
            &&& worker.counters.gas + call.gas_used <= u64::MAX ==> after.counters.gas == worker.counters.gas
                + call.gas_used
            &&& after.counters.failures == worker.counters.failures
            &&& worker.config.show_metrics && metric_key == Some(key) ==> {
                &&& after.data.metrics.dom().contains(key)
                &&& now.calls == (if known { before.calls as int } else { 0 }) + 1
                &&& now.discards == (if known { before.discards as int } else { 0 }) + if discarded { 1int } else { 0 }
                &&& now.reverts == (if known { before.reverts as int } else { 0 }) + if call.reverted && !discarded {
                    1int
                } else {
                    0
                }
            }
            &&& !worker.config.show_metrics || metric_key != Some(key) ==> {
                &&& after.data.metrics.dom().contains(key) == known
                &&& known ==> now == before
            }
        }),
{
}

/// What is a target at the address of a created contract that no later one takes the place of.
proof fn created_contract_is_a_target(
    targets: Map<Address, TargetView>,
    created: Seq<(Address, TargetView)>,
    i: int,
)
    requires
        0 <= i < created.len(),
        forall|j: int| i < j < created.len() ==> (#[trigger] created[j]).0 != created[i].0,
    ensures
        with_created(targets, created).dom().contains(created[i].0),
        with_created(targets, created)[created[i].0] == created[i].1,
    decreases created.len(),
{
    let front = created.drop_last();
    if i < front.len() {
        assert forall|j: int| i < j < front.len() implies (#[trigger] front[j]).0 != front[i].0 by {
            assert(created[j].0 != created[i].0);
        }
        created_contract_is_a_target(targets, front, i);
        assert(created[created.len() - 1].0 != created[i].0);
    }
}

/// Where targets are updatable, every contract that a committed call created becomes a target, and the targets
/// elsewhere stay; where they are not, nothing becomes a target.
pub proof fn created_contracts_become_targets<T>(
    worker: WorkerView<T>,
    run: RunView<T>,
    call: CallView<T>,
    created: Seq<(Address, TargetView)>,
    i: int,
    elsewhere: Address,
)
    requires
        worker.phase == (PhaseView::Committing { run, call }),
    ensures
        ({
            let after = worker.stepped(EventView::Committed { created }).0;
            &&& worker.is_updatable && 0 <= i < created.len() && (forall|j: int|
                i < j < created.len() ==> (#[trigger] created[j]).0 != created[i].0) ==> {
                &&& after.targets.dom().contains(created[i].0)
                &&& after.targets[created[i].0] == created[i].1
            }
            &&& (forall|j: int| 0 <= j < created.len() ==> (#[trigger] created[j]).0 != elsewhere) ==> {
                &&& after.targets.dom().contains(elsewhere) == worker.targets.dom().contains(elsewhere)
                &&& worker.targets.dom().contains(elsewhere) ==> after.targets[elsewhere] == worker.targets[elsewhere]
            }
            &&& !worker.is_updatable ==> after.targets == worker.targets
        }),
{
    if 0 <= i < created.len() && (forall|j: int| i < j < created.len() ==> (#[trigger] created[j]).0 != created[i].0) {
        created_contract_is_a_target(worker.targets, created, i);
    }
    with_created_elsewhere(worker.targets, created);
}

/// The contracts that a committed call created are noted with the run, behind those that it created before, where
/// targets are updatable; where they are not, none is.
pub proof fn created_contracts_are_noted_with_the_run<T>(
    worker: WorkerView<T>,
    run: RunView<T>,
    call: CallView<T>,
    created: Seq<(Address, TargetView)>,
    k: int,
)
    requires
        worker.phase == (PhaseView::Committing { run, call }),
    ensures
        ({
            let after = worker.stepped(EventView::Committed { created }).0;
            let before = run.created_contracts;
            &&& after.phase matches PhaseView::Checking { run: grown, .. }
            &&& !worker.is_updatable ==> grown.created_contracts == before
            &&& worker.is_updatable ==> {
                &&& grown.created_contracts.len() == before.len() + created.len()
                &&& 0 <= k < before.len() ==> grown.created_contracts[k] == before[k]
                &&& 0 <= k < created.len() ==> grown.created_contracts[before.len() + k] == created[k].0
            }
        }),
{
}

/// What a committed call cost is noted with the run, whose call sequence stays, and the call is checked next: its
/// invariants where it is the last one of the run, or where it completes an interval. Nothing else changes.
pub proof fn committed_calls_are_checked_next<T>(
    worker: WorkerView<T>,
    run: RunView<T>,
    call: CallView<T>,
    created: Seq<(Address, TargetView)>,
)
    requires
        worker.phase == (PhaseView::Committing { run, call }),
    ensures
        ({
            let (after, save, action) = worker.stepped(EventView::Committed { created });
            let interval = worker.config.check_interval as nat;
            let last = run.depth + 1 == worker.config.depth;
            &&& save is None
            &&& after.data == worker.data
            &&& after.runs == worker.runs
            &&& after.counters == worker.counters
            &&& after.edges == worker.edges
            &&& after.phase matches PhaseView::Checking { run: grown, call: checked, full }
            &&& checked == call
            &&& action == (Action::Check { full })
            &&& full == (last || interval > 0 && (run.depth + 1) % interval == 0)
            &&& grown.inputs == run.inputs
            &&& grown.run_traces == run.run_traces
            &&& grown.depth == run.depth
            &&& grown.rejects == run.rejects
            &&& grown.new_coverage == run.new_coverage
            &&& grown.fuzz_runs.len() == run.fuzz_runs.len() + 1
            &&& grown.fuzz_runs.drop_last() == run.fuzz_runs
            &&& grown.fuzz_runs.last().gas == call.gas_used
            &&& grown.fuzz_runs.last().stipend == call.stipend
        }),
{
    let noted = run.fuzz_runs.push(FuzzCase { gas: call.gas_used, stipend: call.stipend });
    assert(noted.drop_last() =~= run.fuzz_runs);
}

/// After a call was checked one call more of the run was made, what it cost and what it created stays
/// noted, and the next input is drawn. The call sequence is kept as that of the last run after the last
/// call of a run, and only then. New failures are counted with the worker, and neither targets nor runs
/// change.
pub proof fn checked_calls_are_followed_by_the_next<T>(
    worker: WorkerView<T>,
    run: RunView<T>,
    call: CallView<T>,
    full: bool,
    checks: ChecksView,
    metric_key: Option<Seq<char>>,
)
    requires
        worker.phase == (PhaseView::Checking { run, call, full }),
        run.depth < worker.config.depth,
    ensures
        ({
            let (after, save, action) = worker.stepped(EventView::Checked { checks, metric_key });
            let new_failures = after.data.failures.total_failures - worker.data.failures.total_failures;
            &&& save is None
            &&& action == (Action::NextInput { discarded: false, depth: (run.depth + 1) as u32 })
            &&& after.targets == worker.targets
            &&& after.runs == worker.runs
            &&& after.edges == worker.edges
            &&& after.data.fuzz_cases == worker.data.fuzz_cases
            &&& after.data.gas_report_traces == worker.data.gas_report_traces
            &&& after.data.metrics == worker.data.metrics
            &&& after.counters.calls == worker.counters.calls
            &&& after.counters.gas == worker.counters.gas
            &&& worker.counters.failures + new_failures <= u64::MAX ==> after.counters.failures
                == worker.counters.failures + new_failures
            &&& after.phase matches PhaseView::Drawing { run: left }
            &&& left.depth == run.depth + 1
            &&& left.rejects == run.rejects
            &&& left.fuzz_runs == run.fuzz_runs
            &&& left.created_contracts == run.created_contracts
            &&& left.new_coverage == run.new_coverage
            &&& left.inputs == run.inputs || call.reverted && left.inputs == run.inputs.drop_last() || full
                && left.inputs == run.inputs.drop_last()
            &&& after.data.last_run_inputs == (if run.depth + 1 == worker.config.depth {
                left.inputs
            } else {
                worker.data.last_run_inputs
            })
        }),
{
    checked_call_bounds(
        worker.contract,
        worker.config,
        worker.data,
        run,
        call,
        checks,
        metric_key,
        worker.target_name,
    );
    unchecked_call_bounds(
        worker.contract,
        worker.config,
        worker.data,
        run,
        call,
        checks.global_failure,
        metric_key,
        worker.target_name,
    );
    let after = worker.stepped(EventView::Checked { checks, metric_key }).0;
    let new_failures = (after.data.failures.total_failures - worker.data.failures.total_failures) as nat;
    failures_keep_other_counts(worker.counters, new_failures);
    if worker.counters.failures + new_failures <= u64::MAX {
        failures_add_up(worker.counters, new_failures);
    }
}

/// Counting failures keeps the other counts.
proof fn failures_keep_other_counts(counters: WorkerCounters, n: nat)
    ensures
        counters.with_failures(n).calls == counters.calls,
        counters.with_failures(n).gas == counters.gas,
    decreases n,
{
    if n > 0 {
        failures_keep_other_counts(counters, (n - 1) as nat);
    }
}

/// Where a worker checks the invariants after a call that did not revert, and all handlers report success,
/// every invariant that does not hold is recorded as broken by the inputs of the run, up to and with this
/// call, and the inputs stay as they are.
pub proof fn workers_record_broken_invariants<T>(
    worker: WorkerView<T>,
    run: RunView<T>,
    call: CallView<T>,
    checks: ChecksView,
    metric_key: Option<Seq<char>>,
    i: int,
)
    requires
        worker.phase == (PhaseView::Checking { run, call, full: true }),
        !worker.contract.optimization,
        !worker.config.fail_on_assert || !call.assert_failure && !checks.global_failure,
        !call.reverted,
        forall|k: int| 0 <= k < checks.handlers.len() ==> checks.handlers[k],
        checks.invariants.len() == worker.contract.invariant_fns.len(),
        0 <= i < checks.invariants.len(),
        !checks.invariants[i].success,
    ensures
        ({
            let after = worker.stepped(EventView::Checked { checks, metric_key }).0;
            let key = worker.target_name + seq![':'] + worker.contract.invariant_fns[i].0.name;
            &&& after.data.failures.errors.dom().contains(key)
            &&& after.data.failures.errors[key] matches ErrorView::BrokenInvariant(case)
            &&& case.sequence == run.inputs
            &&& case.inner_sequence == checks.inner_sequence
            &&& after.data.failures.total_failures > worker.data.failures.total_failures
            &&& after.phase matches PhaseView::Drawing { run: left }
            &&& left.inputs == run.inputs
        }),
{
    broken_invariants_keep_the_sequence_that_broke_them(
        worker.contract,
        worker.config,
        worker.data,
        run,
        call,
        checks,
        metric_key,
        worker.target_name,
        i,
        Seq::empty(),
    );
    let broken = |outcome: OutcomeView| !outcome.success;
    assert(checks.invariants.filter(broken).len() > 0) by {
        checks.invariants.lemma_filter_contains(broken, i);
        assert(checks.invariants.filter(broken).contains(checks.invariants[i]));
    }
}

/// Where a call reverted, every invariant that a revert breaks is recorded with the inputs of the run,
/// which end with this call: wherever invariants are checked, and elsewhere where reverts fail the
/// campaign. Where they are checked, the call leaves the inputs only afterwards.
pub proof fn workers_record_reverts<T>(
    worker: WorkerView<T>,
    run: RunView<T>,
    call: CallView<T>,
    full: bool,
    checks: ChecksView,
    metric_key: Option<Seq<char>>,
    i: int,
)
    requires
        worker.phase == (PhaseView::Checking { run, call, full }),
        !worker.config.fail_on_assert || !call.assert_failure && !checks.global_failure,
        call.reverted,
        run.inputs.len() > 0,
    ensures
        ({
            let after = worker.stepped(EventView::Checked { checks, metric_key }).0;
            let key = worker.target_name + seq![':'] + worker.contract.invariant_fns[i].0.name;
            let recorded = full || worker.config.fail_on_revert;
            &&& after.data.failures.reverts == worker.data.failures.reverts + 1
            &&& !recorded ==> after.data.failures.errors == worker.data.failures.errors
            &&& recorded && 0 <= i < worker.contract.invariant_fns.len() && worker.contract.invariant_fns[i].1 ==> {
                &&& after.data.failures.errors.dom().contains(key)
                &&& after.data.failures.errors[key] matches ErrorView::Revert(case)
                &&& case.sequence == run.inputs
                &&& case.sequence.last() == run.inputs[run.inputs.len() - 1]
                &&& case.revert_reason == call.revert_reason
            }
            &&& after.phase matches PhaseView::Drawing { run: left }
            &&& left.inputs == (if worker.contract.optimization || !full && worker.config.fail_on_revert {
                run.inputs
            } else {
                run.inputs.drop_last()
            })
        }),
{
    if full {
        reverts_keep_the_sequence_that_reverted(
            worker.contract,
            worker.config,
            worker.data,
            run,
            call,
            checks,
            metric_key,
            worker.target_name,
            i,
            Seq::empty(),
        );
    } else {
        unchecked_failures_keep_the_sequence_that_failed(
            worker.contract,
            worker.config,
            worker.data,
            run,
            call,
            checks.global_failure,
            metric_key,
            worker.target_name,
            i,
        );
    }
}

/// A failed assertion is recorded after every call, whether or not invariants are checked after it, with the
/// inputs of the run, which end with this call.
pub proof fn workers_record_failed_assertions<T>(
    worker: WorkerView<T>,
    run: RunView<T>,
    call: CallView<T>,
    full: bool,
    checks: ChecksView,
    prefix: Seq<char>,
    name: Seq<char>,
)
    requires
        worker.phase == (PhaseView::Checking { run, call, full }),
        worker.config.fail_on_assert,
        call.assert_failure || checks.global_failure,
        full || !call.reverted,
        !name.contains('.'),
    ensures
        ({
            let metric_key = Some(prefix + seq!['.'] + name);
            let after = worker.stepped(EventView::Checked { checks, metric_key }).0;
            let key = worker.target_name + seq![':'] + name;
            &&& after.data.failures.total_failures == worker.data.failures.total_failures + 1
            &&& after.data.failures.revert_reason == Some(call.revert_reason)
            &&& after.data.failures.errors.dom().contains(key)
            &&& after.data.failures.errors[key] matches ErrorView::BrokenAssertion(case)
            &&& case.sequence == run.inputs
            &&& case.revert_reason == call.revert_reason
            &&& after.phase matches PhaseView::Drawing { run: left }
            &&& left.inputs == run.inputs
        }),
{
    failed_assertions_name_the_handler(prefix, name);
    let metric_key = Some(prefix + seq!['.'] + name);
    if full {
        failed_assertions_keep_the_sequence_that_failed(
            worker.contract,
            worker.config,
            worker.data,
            run,
            call,
            checks,
            metric_key,
            worker.target_name,
            Seq::empty(),
        );
    } else {
        unchecked_failures_keep_the_sequence_that_failed(
            worker.contract,
            worker.config,
            worker.data,
            run,
            call,
            checks.global_failure,
            metric_key,
            worker.target_name,
            0,
        );
    }
}

/// Where a value is maximized, a worker keeps the largest value that the invariant returned, with the inputs
/// of the run that gave it.
pub proof fn workers_keep_the_largest_value<T>(
    worker: WorkerView<T>,
    run: RunView<T>,
    call: CallView<T>,
    checks: ChecksView,
    metric_key: Option<Seq<char>>,
    value: Word,
)
    requires
        worker.phase == (PhaseView::Checking { run, call, full: true }),
        worker.contract.optimization,
        !worker.config.fail_on_assert || !call.assert_failure && !checks.global_failure,
        !call.reverted,
        forall|k: int| 0 <= k < checks.handlers.len() ==> checks.handlers[k],
        checks.invariants.len() == 1,
        checks.invariants[0].success,
        checks.invariants[0].result.len() >= 32,
        value.bytes@ == checks.invariants[0].result.take(32),
    ensures
        ({
            let after = worker.stepped(EventView::Checked { checks, metric_key }).0;
            let larger = worker.data.optimization_best_value matches Some(best) ==> value.signed_value()
                > best.signed_value();
            &&& after.data.failures == worker.data.failures
            &&& after.data.optimization_best_value == (if larger {
                Some(value)
            } else {
                worker.data.optimization_best_value
            })
            &&& after.data.optimization_best_sequence == (if larger {
                run.inputs
            } else {
                worker.data.optimization_best_sequence
            })
        }),
{
    the_largest_returned_value_is_kept(
        worker.contract,
        worker.config,
        worker.data,
        run,
        call,
        checks,
        metric_key,
        worker.target_name,
        value,
    );
}

/// A drawn input joins the call sequence behind those before it. It is kept as it is, but for its sender where
/// that is excluded: then `0x30000` sends it.
pub proof fn drawn_inputs_join_the_sequence<T>(
    worker: WorkerView<T>,
    run: RunView<T>,
    input: BasicTxDetailsView,
    stop: bool,
    k: int,
)
    requires
        worker.phase == (PhaseView::Drawing { run }),
        run.depth < worker.config.depth,
    ensures
        ({
            let (after, save, action) = worker.stepped(EventView::Next { input, stop });
            &&& save is None
            &&& after == (WorkerView { phase: after.phase, ..worker })
            &&& stop ==> after.phase == PhaseView::<T>::Done && action == (Action::Finish { failed: false })
            &&& !stop ==> {
                &&& action == Action::Execute
                &&& after.phase matches PhaseView::Executing { run: next }
                &&& next == (RunView { inputs: next.inputs, ..run })
                &&& next.inputs.len() == run.inputs.len() + 1
                &&& next.inputs.drop_last() == run.inputs
                &&& next.inputs.last().warp == input.warp
                &&& next.inputs.last().roll == input.roll
                &&& next.inputs.last().deal == input.deal
                &&& next.inputs.last().call_details == input.call_details
                &&& !worker.excluded_senders.contains(input.sender) ==> next.inputs.last().sender == input.sender
                &&& worker.excluded_senders.contains(input.sender) && 0 <= k < 20
                    ==> next.inputs.last().sender.bytes@[k] == (if k == 17 {
                    3u8
                } else {
                    0u8
                })
            }
        }),
{
    fallback_address_is_the_fallback_sender();
    let next = run.inputs.push(resolved_input(worker.excluded_senders, input));
    assert(next.drop_last() =~= run.inputs);
}

/// A run starts with the first of the given inputs and no other, with nothing made, rejected or created, and
/// with no edges covered; but where reverts fail the campaign and there was one, the campaign stops as failed
/// in its place. No input is resolved to anything but what [`drawn_inputs_join_the_sequence`] has.
pub proof fn runs_start_with_the_first_input<T>(
    worker: WorkerView<T>,
    inputs: Seq<BasicTxDetailsView>,
    stop: bool,
    k: int,
)
    requires
        worker.phase == PhaseView::<T>::Seeding,
        inputs.len() > 0,
        worker.config.depth > 0,
    ensures
        ({
            let (after, save, action) = worker.stepped(EventView::Inputs { inputs, stop });
            let failed = worker.config.fail_on_revert && worker.data.failures.reverts > 0;
            &&& save is None
            &&& after.data == worker.data
            &&& after.targets == worker.targets
            &&& after.runs == worker.runs
            &&& after.counters == worker.counters
            &&& failed ==> after.phase == PhaseView::<T>::Done && action == (Action::Finish { failed: true })
            &&& !failed && stop ==> after.phase == PhaseView::<T>::Done && action == (Action::Finish { failed: false })
            &&& !failed && !stop ==> {
                &&& action == Action::Execute
                &&& after.edges.len() == 0
                &&& after.phase matches PhaseView::Executing { run }
                &&& run.inputs.len() == 1
                &&& run.inputs[0].call_details == inputs[0].call_details
                &&& run.inputs[0].warp == inputs[0].warp
                &&& run.inputs[0].roll == inputs[0].roll
                &&& run.inputs[0].deal == inputs[0].deal
                &&& !worker.excluded_senders.contains(inputs[0].sender) ==> run.inputs[0].sender == inputs[0].sender
                &&& worker.excluded_senders.contains(inputs[0].sender) && 0 <= k < 20
                    ==> run.inputs[0].sender.bytes@[k] == (if k == 17 {
                    3u8
                } else {
                    0u8
                })
                &&& run.depth == 0
                &&& run.rejects == 0
                &&& !run.new_coverage
                &&& run.fuzz_runs.len() == 0
                &&& run.run_traces.len() == 0
                &&& run.created_contracts.len() == 0
            }
        }),
{
    fallback_address_is_the_fallback_sender();
}

/// A run that made all its calls ends: it is counted, what its calls cost is kept behind that of the runs
/// before, its traces are kept while there are fewer than asked for, and the contracts it created are no
/// targets any more, while all others are. Nothing else changes. Where `afterInvariant` is declared it is
/// called first.
pub proof fn runs_end_after_all_calls<T>(
    worker: WorkerView<T>,
    run: RunView<T>,
    input: BasicTxDetailsView,
    stop: bool,
    address: Address,
)
    requires
        worker.phase == (PhaseView::Drawing { run }),
        run.depth >= worker.config.depth,
    ensures
        ({
            let (after, save, action) = worker.stepped(EventView::Next { input, stop });
            let samples = worker.config.gas_report_samples as nat;
            &&& save is None
            &&& worker.contract.call_after_invariant ==> {
                &&& action == Action::AfterInvariant
                &&& after == (WorkerView { phase: after.phase, ..worker })
                &&& after.phase matches PhaseView::Closing { run: closing }
                &&& closing == (RunView { inputs: closing.inputs, ..run })
                &&& closing.inputs.drop_last() == run.inputs
            }
            &&& !worker.contract.call_after_invariant ==> {
                &&& action == Action::RunEnded
                &&& after.phase == PhaseView::<T>::Idle
                &&& after.runs == worker.runs + 1
                &&& after.edges == worker.edges
                &&& after.counters == worker.counters
                &&& after.data.failures == worker.data.failures
                &&& after.data.last_run_inputs == worker.data.last_run_inputs
                &&& after.data.metrics == worker.data.metrics
                &&& after.data.optimization_best_value == worker.data.optimization_best_value
                &&& after.data.optimization_best_sequence == worker.data.optimization_best_sequence
                &&& after.data.fuzz_cases == worker.data.fuzz_cases.push(run.fuzz_runs)
                &&& after.data.gas_report_traces == (if worker.data.gas_report_traces.len() < samples {
                    worker.data.gas_report_traces.push(run.run_traces)
                } else {
                    worker.data.gas_report_traces
                })
                &&& after.targets.dom().contains(address) == (worker.targets.dom().contains(address)
                    && !run.created_contracts.contains(address))
                &&& after.targets.dom().contains(address) ==> after.targets[address] == worker.targets[address]
            }
        }),
{
    let next = run.inputs.push(resolved_input(worker.excluded_senders, input));
    assert(next.drop_last() =~= run.inputs);
}

/// Where `afterInvariant` does not succeed at the end of a run, that is recorded as broken by the inputs of
/// the run, under the invariant that names the campaign. The run ends either way.
pub proof fn failed_after_invariants_are_recorded<T>(
    worker: WorkerView<T>,
    run: RunView<T>,
    outcome: OutcomeView,
    address: Address,
)
    requires
        worker.phase == (PhaseView::Closing { run }),
    ensures
        ({
            let (after, save, action) = worker.stepped(EventView::After { outcome });
            let key = worker.target_name + seq![':'] + worker.contract.invariant_fn.name;
            &&& save is None
            &&& action == Action::RunEnded
            &&& after.phase == PhaseView::<T>::Idle
            &&& after.runs == worker.runs + 1
            &&& after.data.fuzz_cases == worker.data.fuzz_cases.push(run.fuzz_runs)
            &&& after.data.last_run_inputs == worker.data.last_run_inputs
            &&& after.data.metrics == worker.data.metrics
            &&& after.data.optimization_best_value == worker.data.optimization_best_value
            &&& after.targets.dom().contains(address) == (worker.targets.dom().contains(address)
                && !run.created_contracts.contains(address))
            &&& outcome.success ==> after.data.failures == worker.data.failures
            &&& !outcome.success ==> {
                &&& after.data.failures.total_failures == worker.data.failures.total_failures + 1
                &&& after.data.failures.errors.dom().contains(key)
                &&& after.data.failures.errors[key] matches ErrorView::BrokenInvariant(case)
                &&& case.sequence == run.inputs
                &&& case.revert_reason == outcome.revert_reason
            }
        }),
{
}

/// A worker goes on with a run only while the workers go on and it has runs to make; it syncs first where the
/// last sync is at least 1200 seconds ago, and then starts the run as it does without a sync.
pub proof fn workers_go_on_while_they_may<T>(worker: WorkerView<T>, should_continue: bool, since_sync_secs: u64)
    requires
        worker.phase == PhaseView::<T>::Idle,
    ensures
        ({
            let (after, save, action) = worker.stepped(EventView::Tick { should_continue, since_sync_secs });
            let going_on = should_continue && worker.runs < worker.worker_runs;
            &&& save is None
            &&& after == (WorkerView { phase: after.phase, ..worker })
            &&& !going_on ==> after.phase == PhaseView::<T>::Done && action == (Action::Finish { failed: false })
            &&& going_on && since_sync_secs < 1200 ==> after.phase == PhaseView::<T>::Seeding && action
                == Action::NewInputs
            &&& going_on && since_sync_secs >= 1200 ==> {
                &&& after.phase == PhaseView::<T>::Syncing
                &&& action == Action::Sync
                &&& after.stepped(EventView::Synced) == (
                    WorkerView { phase: PhaseView::<T>::Seeding, ..worker },
                    None::<(Seq<BasicTxDetailsView>, Seq<usize>)>,
                    Action::NewInputs,
                )
            }
        }),
{
}

/// Events are taken exactly in the order of the actions that ask for them, and are otherwise refused as
/// unexpected; one that is asked for is refused only where there is no input, where answers are missing or
/// where a count would overflow.
pub proof fn only_asked_events_are_taken<T>(worker: WorkerView<T>, event: EventView<T>)
    ensures
        ({
            let asked = match worker.phase {
                PhaseView::Idle => event is Tick,
                PhaseView::Syncing => event is Synced,
                PhaseView::Seeding => event is Inputs,
                PhaseView::Executing { .. } => event is Executed,
                PhaseView::Committing { .. } => event is Committed,
                PhaseView::Checking { .. } => event is Checked,
                PhaseView::Drawing { .. } => event is Next,
                PhaseView::Closing { .. } => event is After,
                PhaseView::Done => false,
            };
            &&& asked == (worker.refusal(event) != Some(StepError::UnexpectedEvent))
            &&& worker.refusal(event) == Some(StepError::NoInput) <==> (worker.phase is Seeding && (event matches
                EventView::Inputs { inputs, .. } && inputs.len() == 0))
            &&& worker.refusal(event) == Some(StepError::MissingOutcomes) ==> event is Checked
            &&& worker.refusal(event) == Some(StepError::Overflow) ==> event is Executed || event is Checked
                || event is After
        }),
{
}

/// A check is refused for missing answers exactly where invariants are checked and there is not one answer of
/// each target though the call neither failed an assertion nor reverted, or not one outcome of each invariant
/// though all targets report success.
pub proof fn missing_answers_are_refused<T>(
    worker: WorkerView<T>,
    run: RunView<T>,
    call: CallView<T>,
    full: bool,
    checks: ChecksView,
    metric_key: Option<Seq<char>>,
)
    requires
        worker.phase == (PhaseView::Checking { run, call, full }),
    ensures
        ({
            let succeeded = (!worker.config.fail_on_assert || !call.assert_failure && !checks.global_failure)
                && !call.reverted;
            let reported = forall|k: int| 0 <= k < checks.handlers.len() ==> checks.handlers[k];
            let wanted = if worker.contract.optimization {
                1
            } else {
                worker.contract.invariant_fns.len()
            };
            (worker.refusal(EventView::Checked { checks, metric_key }) == Some(StepError::MissingOutcomes)) == (full
                && succeeded && (checks.handlers.len() != worker.targets.dom().len() || reported
                && checks.invariants.len() != wanted))
        }),
{
}

/// The invariants are checked after the last call of a run, and after every call whose number, counted from one,
/// is a multiple of the interval; after no other call.
pub proof fn checks_come_at_the_interval(config: InvariantConfig, depth: nat, interval: nat)
    requires
        interval == config.check_interval,
    ensures
        depth + 1 == config.depth ==> should_check(config, depth),
        interval > 0 && (depth + 1) % interval == 0 ==> should_check(config, depth),
        depth + 1 != config.depth && (interval == 0 || (depth + 1) % interval != 0) ==> !should_check(config, depth),
{
}

/// An event that is asked for is taken as long as the counts that it changes stay representable.
pub proof fn events_are_taken_while_counts_fit<T>(worker: WorkerView<T>, event: EventView<T>)
    requires
        worker.data.failures.total_failures + worker.contract.invariant_fns.len() < usize::MAX,
        worker.data.failures.reverts < usize::MAX,
        forall|key: Seq<char>| #[trigger] worker.data.metrics.dom().contains(key) ==> {
            &&& worker.data.metrics[key].calls < usize::MAX
            &&& worker.data.metrics[key].reverts < usize::MAX
            &&& worker.data.metrics[key].discards < usize::MAX
        },
        worker.phase matches PhaseView::Executing { run } ==> run.rejects < u32::MAX,
    ensures
        worker.refusal(event) != Some(StepError::Overflow),
        worker.phase is Executing && event is Executed ==> worker.refusal(event) is None,
        worker.phase is Committing && event is Committed ==> worker.refusal(event) is None,
        worker.phase is Drawing && event is Next ==> worker.refusal(event) is None,
        worker.phase is Closing && event is After ==> worker.refusal(event) is None,
        worker.phase is Checking && !worker.phase->Checking_full && event is Checked ==> worker.refusal(event) is None,
{
    if let EventView::Executed { call, metric_key, .. } = event {
        if let Some(key) = metric_key {
            if worker.data.metrics.dom().contains(key) {
                assert(worker.data.metrics[key].calls < usize::MAX);
            }
        }
    }
}

/// Events are known by all that they tell.
pub proof fn events_are_known_by_what_they_tell<T>(event: Event<T>)
    ensures
        event matches Event::Tick { should_continue, since_sync_secs } ==> event@ == (EventView::<T>::Tick {
            should_continue,
            since_sync_secs,
        }),
        event is Synced ==> event@ is Synced,
        event matches Event::Inputs { inputs, stop } ==> event@ == (EventView::<T>::Inputs {
            inputs: tx_models(inputs@),
            stop,
        }),
        event matches Event::Executed { call, new_coverage, edges, metric_key } ==> {
            &&& event@ is Executed
            &&& event@->Executed_call == call@
            &&& event@->new_coverage == new_coverage
            &&& event@->edges == edges@
            &&& event@->Executed_metric_key is Some == metric_key is Some
            &&& metric_key matches Some(key) ==> event@->Executed_metric_key == Some(key@)
        },
        event matches Event::Committed { created } ==> {
            &&& event@ is Committed
            &&& event@->created.len() == created@.len()
            &&& forall|i: int|
                0 <= i < created@.len() ==> #[trigger] event@->created[i] == (created@[i].0, created@[i].1@)
        },
        event matches Event::Checked { checks, metric_key } ==> {
            &&& event@ is Checked
            &&& event@->checks == checks@
            &&& event@->Checked_metric_key is Some == metric_key is Some
            &&& metric_key matches Some(key) ==> event@->Checked_metric_key == Some(key@)
        },
        event matches Event::Next { input, stop } ==> event@ == (EventView::<T>::Next { input: input@, stop }),
        event matches Event::After { outcome } ==> event@ == (EventView::<T>::After { outcome: outcome@ }),
{
}

/// A worker is known by all of its parts, and so is a sequence to keep.
pub proof fn workers_are_known_by_their_parts<T>(worker: InvariantWorker<T>, saved: SavedInputs)
    ensures
        worker@.id == worker.id,
        worker@.config == worker.config,
        worker@.contract == worker.contract@,
        worker@.target_name == worker.target_name@,
        worker@.magic_assume == worker.magic_assume@,
        worker@.targeted_senders == worker.test.sender_filters.targeted@,
        worker@.excluded_senders == worker.test.sender_filters.excluded@,
        worker@.worker_runs == worker.worker_runs,
        worker@.runs == worker.runs,
        worker@.data == worker.test.test_data@,
        worker@.targets == worker.test.targeted_contracts.targets@,
        worker@.is_updatable == worker.test.targeted_contracts.is_updatable,
        worker@.edges == worker.edges@,
        worker@.counters == worker.counters,
        worker@.phase == worker.phase@,
        worker.phase is Idle == worker@.phase is Idle,
        worker.phase is Syncing == worker@.phase is Syncing,
        worker.phase is Seeding == worker@.phase is Seeding,
        worker.phase is Done == worker@.phase is Done,
        worker.phase matches Phase::Executing { run } ==> worker@.phase == (PhaseView::Executing { run: run@ }),
        worker.phase matches Phase::Committing { run, call } ==> worker@.phase == (PhaseView::Committing {
            run: run@,
            call: call@,
        }),
        worker.phase matches Phase::Checking { run, call, full } ==> worker@.phase == (PhaseView::Checking {
            run: run@,
            call: call@,
            full,
        }),
        worker.phase matches Phase::Drawing { run } ==> worker@.phase == (PhaseView::Drawing { run: run@ }),
        worker.phase matches Phase::Closing { run } ==> worker@.phase == (PhaseView::Closing { run: run@ }),
        save_model(Some(saved)) == Some((tx_models(saved.inputs@), saved.edges@)),
        save_model(None) is None,
{
}

} // verus!
