use invariant_fuzz::abi::{Abi, AbiFunction, StateMutability};
use invariant_fuzz::config::{InvariantConfig, InvariantContract};
use invariant_fuzz::failure::InvariantFailures;
use invariant_fuzz::filters::{fallback_sender, SenderFilters};
use invariant_fuzz::fixed::{Address, FixedBytes, Word};
use invariant_fuzz::result::{
    assert_invariants, invariant_preflight_check, process_call_result, BrokenInvariant, CallOutcome, CheckOutcomes,
    InvariantOutcome,
};
use invariant_fuzz::run::InvariantTestRun;
use invariant_fuzz::targets::{FuzzRunIdentifiedContracts, TargetedContract, TargetedContracts};
use invariant_fuzz::tx::{BasicTxDetails, CallDetails};
use invariant_fuzz::worker::{should_check_invariant, Action, Event, InvariantWorker, Step, StepError};

const MAGIC: &[u8] = b"assume";

fn config() -> InvariantConfig {
    InvariantConfig {
        runs: 10,
        depth: 2,
        fail_on_revert: false,
        fail_on_assert: false,
        call_override: false,
        dictionary_weight: 80,
        shrink_run_limit: 5000,
        max_assume_rejects: 1,
        gas_report_samples: 1,
        max_time_delay: None,
        max_block_delay: None,
        check_interval: 1,
        show_metrics: true,
    }
}

fn function(name: &str) -> AbiFunction {
    AbiFunction {
        name: name.to_string(),
        inputs: vec![],
        state_mutability: StateMutability::View,
        reserved: true,
    }
}

fn contract(optimization: bool) -> InvariantContract {
    InvariantContract {
        address: Address::repeat_byte(0xaa),
        invariant_fn: function("invariant_a"),
        invariant_fns: vec![(function("invariant_a"), false), (function("invariant_b"), true)],
        call_after_invariant: false,
        optimization,
    }
}

fn worker_with(config: InvariantConfig, contract: InvariantContract, updatable: bool) -> InvariantWorker<u32> {
    let mut targets = TargetedContracts::new();
    targets.insert(Address::repeat_byte(0x01), TargetedContract::new("A".to_string(), Abi::new()));
    InvariantWorker::new(
        0,
        config,
        contract,
        "Test".to_string(),
        MAGIC.to_vec(),
        2,
        FuzzRunIdentifiedContracts::new(targets, updatable),
        SenderFilters::new(vec![], vec![Address::repeat_byte(0xee)]),
        InvariantFailures::new(),
    )
}

fn tx(byte: u8) -> BasicTxDetails {
    BasicTxDetails {
        warp: None,
        roll: None,
        deal: None,
        sender: Address::repeat_byte(byte),
        call_details: CallDetails { target: Address::repeat_byte(0x01), calldata: vec![byte], value: None },
    }
}

fn call(reverted: bool, gas_used: u64) -> CallOutcome<u32> {
    CallOutcome {
        reverted,
        assert_failure: false,
        result: vec![],
        revert_reason: if reverted { "reason".to_string() } else { String::new() },
        gas_used,
        stipend: 21,
        traces: Some(5),
    }
}

fn executed(call: CallOutcome<u32>) -> Event<u32> {
    Event::Executed { call, new_coverage: false, edges: vec![], metric_key: Some("A.f".to_string()) }
}

fn holds(success: bool) -> InvariantOutcome {
    InvariantOutcome { success, result: vec![], revert_reason: "broken".to_string() }
}

fn checked(a: bool, b: bool) -> Event<u32> {
    checked_with(1, a, b)
}

fn checked_with(targets: usize, a: bool, b: bool) -> Event<u32> {
    Event::Checked {
        checks: CheckOutcomes {
            global_failure: false,
            handlers: vec![true; targets],
            invariants: vec![holds(a), holds(b)],
            inner_sequence: vec![],
        },
        metric_key: Some("A.f".to_string()),
    }
}

fn take(worker: InvariantWorker<u32>, event: Event<u32>) -> (InvariantWorker<u32>, Step) {
    let (worker, step) = worker.step(event);
    (worker, step.unwrap())
}

fn tick(worker: InvariantWorker<u32>) -> (InvariantWorker<u32>, Step) {
    take(worker, Event::Tick { should_continue: true, since_sync_secs: 0 })
}

/// Brings a worker to its first call.
fn started(worker: InvariantWorker<u32>) -> InvariantWorker<u32> {
    let (worker, step) = tick(worker);
    assert_eq!(step.action, Action::NewInputs);
    let (worker, step) = take(worker, Event::Inputs { inputs: vec![tx(1), tx(2)], stop: false });
    assert_eq!(step.action, Action::Execute);
    worker
}

/// Makes one call.
fn one_call(worker: InvariantWorker<u32>, outcome: CallOutcome<u32>, check: Event<u32>) -> InvariantWorker<u32> {
    let (worker, _) = take(worker, executed(outcome));
    let (worker, _) = take(worker, Event::Committed { created: vec![] });
    let (worker, _) = take(worker, check);
    worker
}

#[test]
fn a_worker_makes_its_runs_and_stops() {
    let mut worker = worker_with(config(), contract(false), false);
    for run in 0..2u32 {
        worker = started(worker);
        for depth in 0..2u32 {
            let (w, step) = take(worker, executed(call(false, 100)));
            assert_eq!(step.action, Action::Commit { collect: true });
            assert!(step.save.is_none());
            let (w, step) = take(w, Event::Committed { created: vec![] });
            assert_eq!(step.action, Action::Check { full: true });
            let (w, step) = take(w, checked(true, true));
            assert_eq!(step.action, Action::NextInput { discarded: false, depth: depth + 1 });
            let (w, step) = take(w, Event::Next { input: tx(3), stop: false });
            let expected = if depth == 1 { Action::RunEnded } else { Action::Execute };
            assert_eq!(step.action, expected);
            worker = w;
        }
        assert_eq!(worker.runs, run + 1);
    }
    let (worker, step) = tick(worker);
    assert_eq!(step.action, Action::Finish { failed: false });
    assert_eq!(worker.counters.calls, 4);
    assert_eq!(worker.counters.gas, 400);
    assert_eq!(worker.counters.failures, 0);
    let state = worker.into_state(3);
    assert_eq!(state.failed_corpus_replays, 3);
    assert_eq!(state.runs, 2);
    assert_eq!(state.data.fuzz_cases.len(), 2);
    assert_eq!(state.data.fuzz_cases[1].cases.len(), 2);
    assert_eq!(state.data.fuzz_cases[1].cases[0].stipend, 21);
    // Traces are kept for as many runs as there are samples.
    assert_eq!(state.data.gas_report_traces, vec![vec![5, 5]]);
    assert_eq!(state.data.last_run_inputs.len(), 2);
    let metrics = state.data.metrics.get(&"A.f".to_string()).unwrap();
    assert_eq!((metrics.calls, metrics.reverts, metrics.discards), (4, 0, 0));
}

#[test]
fn a_worker_syncs_when_it_is_time() {
    let worker = worker_with(config(), contract(false), false);
    let (worker, step) = take(worker, Event::Tick { should_continue: true, since_sync_secs: 1200 });
    assert_eq!(step.action, Action::Sync);
    let (worker, step) = take(worker, Event::Synced);
    assert_eq!(step.action, Action::NewInputs);
    let (worker, error) = worker.step(Event::Inputs { inputs: vec![], stop: false });
    assert_eq!(error.err(), Some(StepError::NoInput));
    let (_, step) = take(worker, Event::Inputs { inputs: vec![tx(1)], stop: true });
    assert_eq!(step.action, Action::Finish { failed: false });

    let worker = worker_with(config(), contract(false), false);
    let (_, step) = take(worker, Event::Tick { should_continue: true, since_sync_secs: 1199 });
    assert_eq!(step.action, Action::NewInputs);
    let worker = worker_with(config(), contract(false), false);
    let (_, step) = take(worker, Event::Tick { should_continue: false, since_sync_secs: 5000 });
    assert_eq!(step.action, Action::Finish { failed: false });
}

#[test]
fn an_unexpected_event_changes_nothing() {
    let worker = worker_with(config(), contract(false), false);
    let (worker, error) = worker.step(Event::Synced);
    assert_eq!(error.err(), Some(StepError::UnexpectedEvent));
    let (_, step) = tick(worker);
    assert_eq!(step.action, Action::NewInputs);
}

#[test]
fn missing_outcomes_are_refused() {
    let worker = started(worker_with(config(), contract(false), false));
    let (worker, _) = take(worker, executed(call(false, 1)));
    let (worker, _) = take(worker, Event::Committed { created: vec![] });
    let checks = CheckOutcomes {
        global_failure: false,
        handlers: vec![true],
        invariants: vec![holds(true)],
        inner_sequence: vec![],
    };
    let (worker, error) = worker.step(Event::Checked { checks, metric_key: None });
    assert_eq!(error.err(), Some(StepError::MissingOutcomes));
    let (_, step) = take(worker, checked(true, true));
    assert_eq!(step.action, Action::NextInput { discarded: false, depth: 1 });
}

#[test]
fn a_count_does_not_overflow() {
    let mut worker = started(worker_with(config(), contract(false), false));
    worker.test.test_data.failures.reverts = usize::MAX;
    let (worker, _) = take(worker, executed(call(true, 1)));
    let (worker, _) = take(worker, Event::Committed { created: vec![] });
    let (worker, error) = worker.step(checked(true, true));
    assert_eq!(error.err(), Some(StepError::Overflow));
    assert_eq!(worker.test.reverts(), usize::MAX);
}

#[test]
fn discarded_calls_are_dropped_until_there_are_too_many() {
    let discard = || {
        let mut outcome = call(true, 7);
        outcome.result = MAGIC.to_vec();
        outcome
    };
    let worker = started(worker_with(config(), contract(false), false));
    let (worker, step) = take(worker, executed(discard()));
    assert_eq!(step.action, Action::NextInput { discarded: true, depth: 0 });
    let (worker, step) = take(worker, Event::Next { input: tx(9), stop: false });
    assert_eq!(step.action, Action::Execute);
    assert_eq!(worker.current_input().unwrap().call_details.calldata, vec![9]);
    let (worker, step) = take(worker, executed(discard()));
    assert_eq!(step.action, Action::Finish { failed: true });
    assert_eq!(worker.counters.calls, 2);
    let failures = &worker.test.test_data.failures;
    assert_eq!(failures.total_failures, 1);
    let error = failures.errors.get(&"Test:invariant_a".to_string()).unwrap();
    assert_eq!(error.failure_type(), "assume_rejects");
    // A discarded call counts as a discard, not as a revert.
    let metrics = worker.test.test_data.metrics.get(&"A.f".to_string()).unwrap();
    assert_eq!((metrics.calls, metrics.reverts, metrics.discards), (2, 0, 2));
}

#[test]
fn broken_invariants_are_recorded_and_counted() {
    let worker = started(worker_with(config(), contract(false), false));
    let worker = one_call(worker, call(false, 1), checked(false, true));
    assert_eq!(worker.counters.failures, 1);
    let failures = &worker.test.test_data.failures;
    assert_eq!(failures.unique_failures(), 1);
    let error = failures.errors.get(&"Test:invariant_a".to_string()).unwrap();
    assert_eq!(error.failure_type(), "invariant");
    assert_eq!(error.revert_reason(), Some("broken".to_string()));

    let (worker, _) = take(worker, Event::Next { input: tx(2), stop: false });
    let worker = one_call(worker, call(false, 1), checked(false, false));
    assert_eq!(worker.counters.failures, 3);
    assert_eq!(worker.test.test_data.failures.unique_failures(), 2);
    assert_eq!(worker.test.test_data.failures.total_failures, 3);
}

#[test]
fn reverts_fail_the_invariants_that_they_break() {
    let worker = started(worker_with(config(), contract(false), false));
    let worker = one_call(worker, call(true, 1), checked(true, true));
    let failures = &worker.test.test_data.failures;
    assert_eq!(failures.reverts, 1);
    assert_eq!(failures.total_failures, 1);
    let error = failures.errors.get(&"Test:invariant_b".to_string()).unwrap();
    assert_eq!(error.failure_type(), "revert");
    assert_eq!(error.revert_reason(), Some("reason".to_string()));
    // The reverted call left the sequence.
    let (worker, _) = take(worker, Event::Next { input: tx(2), stop: false });
    let (worker, step) = take(
        worker,
        Event::Executed { call: call(false, 1), new_coverage: true, edges: vec![4], metric_key: None },
    );
    let saved = step.save.unwrap();
    assert_eq!(saved.inputs.len(), 1);
    assert_eq!(saved.inputs[0].call_details.calldata, vec![2]);
    assert_eq!(saved.edges, vec![4]);
    assert!(worker.edges.is_empty());
}

#[test]
fn a_revert_stops_the_campaign_where_reverts_are_failures() {
    let mut strict = config();
    strict.fail_on_revert = true;
    strict.depth = 1;
    let worker = started(worker_with(strict, contract(false), false));
    let worker = one_call(worker, call(true, 1), checked(true, true));
    let (worker, step) = take(worker, Event::Next { input: tx(2), stop: false });
    assert_eq!(step.action, Action::RunEnded);
    let (worker, _) = tick(worker);
    let (_, step) = take(worker, Event::Inputs { inputs: vec![tx(1)], stop: false });
    assert_eq!(step.action, Action::Finish { failed: true });
}

#[test]
fn failed_handlers_count_as_reverts() {
    let worker = started(worker_with(config(), contract(false), false));
    let (worker, _) = take(worker, executed(call(false, 1)));
    let (worker, _) = take(worker, Event::Committed { created: vec![] });
    let answers = |handlers: Vec<bool>| Event::Checked {
        checks: CheckOutcomes { global_failure: false, handlers, invariants: vec![], inner_sequence: vec![] },
        metric_key: None,
    };
    // There is an answer for each target.
    let (worker, error) = worker.step(answers(vec![]));
    assert_eq!(error.err(), Some(StepError::MissingOutcomes));
    let (worker, error) = worker.step(answers(vec![true, false]));
    assert_eq!(error.err(), Some(StepError::MissingOutcomes));
    let (worker, _) = take(worker, answers(vec![false]));
    assert_eq!(worker.test.reverts(), 1);
    assert_eq!(worker.counters.failures, 1);
}

#[test]
fn broken_assertions_are_recorded_under_the_handler() {
    for (metric_key, key) in
        [(Some("src/A.sol:A.deposit".to_string()), "Test:deposit"), (None, "Test:unknown")]
    {
        for global_failure in [false, true] {
            let mut strict = config();
            strict.fail_on_assert = true;
            let worker = started(worker_with(strict, contract(false), false));
            let mut outcome = call(true, 1);
            outcome.assert_failure = !global_failure;
            let (worker, _) = take(worker, executed(outcome));
            let (worker, _) = take(worker, Event::Committed { created: vec![] });
            let checks =
                CheckOutcomes { global_failure, handlers: vec![], invariants: vec![], inner_sequence: vec![] };
            let (worker, _) = take(worker, Event::Checked { checks, metric_key: metric_key.clone() });
            let failures = &worker.test.test_data.failures;
            assert_eq!(failures.reverts, 1);
            assert_eq!(failures.revert_reason, Some("reason".to_string()));
            assert_eq!(failures.errors.get(&key.to_string()).unwrap().failure_type(), "assertion");
            assert_eq!(worker.counters.failures, 1);
        }
    }
}

#[test]
fn unchecked_calls_still_show_assertions_and_reverts() {
    let mut rare = config();
    rare.check_interval = 0;
    rare.fail_on_assert = true;
    let worker = started(worker_with(rare, contract(false), false));
    let mut outcome = call(true, 1);
    outcome.assert_failure = true;
    let (worker, _) = take(worker, executed(outcome));
    let (worker, step) = take(worker, Event::Committed { created: vec![] });
    assert_eq!(step.action, Action::Check { full: false });
    let checks =
        CheckOutcomes { global_failure: false, handlers: vec![], invariants: vec![], inner_sequence: vec![] };
    let (worker, _) = take(worker, Event::Checked { checks, metric_key: None });
    let failures = &worker.test.test_data.failures;
    // The revert is counted, but breaks no invariant, as reverts are no failures here.
    assert_eq!(failures.reverts, 1);
    assert_eq!(failures.total_failures, 1);
    assert_eq!(failures.errors.get(&"Test:unknown".to_string()).unwrap().failure_type(), "assertion");
    assert_eq!(worker.counters.failures, 1);
    let (worker, _) = take(worker, Event::Next { input: tx(2), stop: false });
    let (worker, _) = take(worker, executed(call(false, 1)));
    let (_, step) = take(worker, Event::Committed { created: vec![] });
    assert_eq!(step.action, Action::Check { full: true });
}

#[test]
fn unchecked_reverts_fail_invariants_where_reverts_are_failures() {
    let mut rare = config();
    rare.check_interval = 0;
    rare.fail_on_revert = true;
    let worker = started(worker_with(rare, contract(false), false));
    let worker = one_call(worker, call(true, 1), checked(true, true));
    let failures = &worker.test.test_data.failures;
    assert_eq!(failures.reverts, 1);
    assert_eq!(failures.errors.get(&"Test:invariant_b".to_string()).unwrap().failure_type(), "revert");
    assert_eq!(worker.counters.failures, 1);
    // The call stays in the sequence.
    let (worker, _) = take(worker, Event::Next { input: tx(2), stop: false });
    let (_, step) = take(
        worker,
        Event::Executed { call: call(false, 1), new_coverage: true, edges: vec![], metric_key: None },
    );
    assert_eq!(step.save.unwrap().inputs.len(), 2);
}

fn encoded(n: i64) -> Vec<u8> {
    alloy_primitives::I256::try_from(n).unwrap().into_raw().to_be_bytes::<32>().to_vec()
}

fn returned(success: bool, result: Vec<u8>) -> Event<u32> {
    let outcome = InvariantOutcome { success, result, revert_reason: String::new() };
    let checks = CheckOutcomes {
        global_failure: false,
        handlers: vec![true],
        invariants: vec![outcome],
        inner_sequence: vec![],
    };
    Event::Checked { checks, metric_key: None }
}

#[test]
fn the_largest_value_is_kept() {
    let mut long = config();
    long.depth = 6;
    let word = |n: i64| -> Word { FixedBytes { bytes: encoded(n).try_into().unwrap() } };
    let mut worker = started(worker_with(long, contract(true), false));
    let expected = [-5, -5, 3, 3, 3];
    let mut padded = encoded(1);
    padded.extend([0xff; 4]);
    let outcomes =
        [returned(true, encoded(-5)), returned(true, encoded(-7)), returned(true, encoded(3)), returned(false, encoded(9)), returned(true, padded)];
    for (outcome, best) in outcomes.into_iter().zip(expected) {
        worker = one_call(worker, call(false, 1), outcome);
        assert_eq!(worker.test.test_data.optimization_best_value, Some(word(best)));
        worker = take(worker, Event::Next { input: tx(2), stop: false }).0;
    }
    assert_eq!(worker.test.test_data.optimization_best_sequence.len(), 3);
    assert_eq!(worker.test.test_data.failures.total_failures, 0);
    // A result that is too short holds no value, and a reverted call stays in the sequence.
    let (worker, _) = take(worker, executed(call(true, 1)));
    let (worker, _) = take(worker, Event::Committed { created: vec![] });
    let (worker, _) = take(worker, returned(true, vec![1]));
    assert_eq!(worker.test.test_data.optimization_best_value, Some(word(3)));
    assert_eq!(worker.test.test_data.last_run_inputs.len(), 6);
}

#[test]
fn created_contracts_are_called_until_the_run_ends() {
    for updatable in [true, false] {
        let mut short = config();
        short.depth = 1;
        let worker = started(worker_with(short, contract(false), updatable));
        let (worker, _) = take(worker, executed(call(false, 1)));
        let created = Address::repeat_byte(0x77);
        let target = TargetedContract::new("B".to_string(), Abi::new());
        let (worker, _) = take(worker, Event::Committed { created: vec![(created, target)] });
        assert_eq!(worker.test.targeted_contracts.targets.get(&created).is_some(), updatable);
        let (worker, _) = take(worker, checked_with(if updatable { 2 } else { 1 }, true, true));
        let (worker, step) = take(worker, Event::Next { input: tx(2), stop: true });
        assert_eq!(step.action, Action::RunEnded);
        assert_eq!(worker.test.targeted_contracts.targets.addresses(), vec![Address::repeat_byte(0x01)]);
    }
}

#[test]
fn after_invariant_is_called_at_the_end_of_a_run() {
    let mut short = config();
    short.depth = 1;
    let mut with_after = contract(false);
    with_after.call_after_invariant = true;
    let worker = started(worker_with(short, with_after, false));
    let worker = one_call(worker, call(false, 1), checked(true, true));
    let (worker, step) = take(worker, Event::Next { input: tx(2), stop: true });
    assert_eq!(step.action, Action::AfterInvariant);
    let (worker, step) = take(worker, Event::After { outcome: holds(false) });
    assert_eq!(step.action, Action::RunEnded);
    let failures = &worker.test.test_data.failures;
    assert_eq!(failures.errors.get(&"Test:invariant_a".to_string()).unwrap().failure_type(), "invariant");
    // It does not count among the failures of calls.
    assert_eq!(worker.counters.failures, 0);
}

#[test]
fn a_run_without_calls_ends_at_once() {
    let mut empty = config();
    empty.depth = 0;
    let worker = worker_with(empty, contract(false), false);
    let (worker, _) = tick(worker);
    let (worker, step) = take(worker, Event::Inputs { inputs: vec![tx(1)], stop: true });
    assert_eq!(step.action, Action::RunEnded);
    assert_eq!(worker.runs, 1);
}

#[test]
fn excluded_senders_are_not_used() {
    let worker = worker_with(config(), contract(false), false);
    let (worker, _) = tick(worker);
    let (worker, _) = take(worker, Event::Inputs { inputs: vec![tx(0xee)], stop: false });
    assert_eq!(worker.current_input().unwrap().sender, fallback_sender());
    let worker = one_call(worker, call(false, 1), checked(true, true));
    let (worker, _) = take(worker, Event::Next { input: tx(0), stop: false });
    assert_eq!(worker.current_input().unwrap().sender, fallback_sender());
}

#[test]
fn invariants_are_checked_by_the_interval_and_at_the_end() {
    let checks = |interval: u32| -> Vec<u32> {
        let mut config = config();
        config.depth = 7;
        config.check_interval = interval;
        (0..7).filter(|depth| should_check_invariant(&config, *depth)).collect()
    };
    assert_eq!(checks(0), vec![6]);
    assert_eq!(checks(1), vec![0, 1, 2, 3, 4, 5, 6]);
    assert_eq!(checks(3), vec![2, 5, 6]);
    assert_eq!(checks(7), vec![6]);
    assert_eq!(checks(100), vec![6]);
}

#[test]
fn a_run_takes_out_what_all_of_its_calls_created() {
    let mut worker = started(worker_with(config(), contract(false), true));
    for byte in [0x77, 0x66] {
        let (w, _) = take(worker, executed(call(false, 1)));
        let target = TargetedContract::new("B".to_string(), Abi::new());
        let (w, _) = take(w, Event::Committed { created: vec![(Address::repeat_byte(byte), target)] });
        let (w, _) = take(w, checked_with(if byte == 0x77 { 2 } else { 3 }, true, true));
        worker = take(w, Event::Next { input: tx(2), stop: false }).0;
        let left = worker.test.targeted_contracts.targets.addresses().len();
        assert_eq!(left, if byte == 0x77 { 2 } else { 1 });
    }
    assert_eq!(worker.runs, 1);
}

#[test]
fn a_check_asks_for_no_more_than_it_needs() {
    let mut strict = config();
    strict.fail_on_assert = true;
    let checking = |outcome: CallOutcome<u32>, config: InvariantConfig| {
        let worker = started(worker_with(config, contract(false), false));
        let (worker, _) = take(worker, executed(outcome));
        take(worker, Event::Committed { created: vec![] }).0
    };
    let handlers = |flags: Vec<bool>| CheckOutcomes {
        global_failure: false,
        handlers: flags,
        invariants: vec![],
        inner_sequence: vec![],
    };
    let worker = checking(call(false, 1), strict);
    assert!(worker.asks_global_failure());
    assert!(worker.asks_handlers(false));
    assert!(!worker.asks_handlers(true));
    assert!(worker.asks_invariants(&handlers(vec![true])));
    assert!(!worker.asks_invariants(&handlers(vec![true, false])));

    let mut failed = call(false, 1);
    failed.assert_failure = true;
    let worker = checking(failed, strict);
    assert!(!worker.asks_global_failure());
    assert!(!worker.asks_handlers(false));

    let worker = checking(call(true, 1), config());
    assert!(!worker.asks_global_failure());
    assert!(!worker.asks_handlers(false));

    let mut rare = config();
    rare.check_interval = 0;
    let worker = checking(call(false, 1), rare);
    assert!(!worker.asks_handlers(false));
}

#[test]
fn a_checked_call_tells_whether_the_test_can_continue() {
    let verdict = |optimization: bool, config: InvariantConfig, outcome: CallOutcome<u32>, event: Event<u32>| {
        let mut worker = worker_with(config, contract(optimization), false);
        let mut run = InvariantTestRun::new(tx(1));
        match event {
            Event::Checked { checks, metric_key } => process_call_result(
                &worker.contract,
                &mut worker.test,
                &mut run,
                &worker.config,
                outcome,
                &checks,
                &metric_key,
                "Test",
            ),
            _ => panic!("not a check"),
        }
    };
    let both = |first: &[u8], second: &[u8], holds: bool| Event::Checked {
        checks: CheckOutcomes {
            global_failure: false,
            handlers: vec![true],
            invariants: vec![
                InvariantOutcome { success: true, result: first.to_vec(), revert_reason: String::new() },
                InvariantOutcome { success: holds, result: second.to_vec(), revert_reason: String::new() },
            ],
            inner_sequence: vec![],
        },
        metric_key: None,
    };
    let held = verdict(false, config(), call(false, 1), both(&[1], &[2], true));
    assert!(held.can_continue);
    assert_eq!(held.call_result, Some(vec![2]));
    let broken = verdict(false, config(), call(false, 1), both(&[1], &[2], false));
    assert!(!broken.can_continue && broken.call_result.is_none());
    // A revert breaks the second invariant.
    let reverted = verdict(false, config(), call(true, 1), both(&[1], &[2], true));
    assert!(!reverted.can_continue && reverted.call_result.is_none());
    let mut strict = config();
    strict.fail_on_assert = true;
    let mut failed = call(false, 1);
    failed.assert_failure = true;
    assert!(!verdict(false, strict, failed, both(&[1], &[2], true)).can_continue);
    // A value that is maximized never stops the test.
    let best = verdict(true, config(), call(false, 1), returned(true, encoded(3)));
    assert!(best.can_continue);
    assert_eq!(best.call_result, Some(encoded(3)));
    let none = verdict(true, config(), call(false, 1), returned(false, encoded(3)));
    assert!(none.can_continue && none.call_result.is_none());
}

#[test]
fn broken_invariants_are_an_error() {
    let mut failures = InvariantFailures::new();
    let outcome = |success: bool, byte: u8| InvariantOutcome {
        success,
        result: vec![byte],
        revert_reason: "broken".to_string(),
    };
    let mut assert_all = |a: bool, b: bool| {
        let outcomes = vec![outcome(a, 1), outcome(b, 2)];
        assert_invariants(&contract(false), &config(), &outcomes, &vec![], &vec![], &mut failures, "Test")
    };
    assert_eq!(assert_all(true, true), Ok(Some(vec![2])));
    assert_eq!(assert_all(false, true), Err(BrokenInvariant {}));
    assert_eq!(assert_all(true, false), Err(BrokenInvariant {}));
    assert_eq!(failures.total_failures, 2);
    let mut check = |success: bool| {
        invariant_preflight_check(&contract(false), &config(), &outcome(success, 7), &vec![], &vec![], &mut failures, "")
    };
    assert_eq!(check(true), Ok(vec![7]));
    assert_eq!(check(false), Err(BrokenInvariant {}));
    assert!(failures.errors.contains_key(&":invariant_a".to_string()));
}

#[test]
fn workers_keep_their_senders() {
    let targeted = vec![Address::repeat_byte(0x21), Address::repeat_byte(0x22)];
    let worker: InvariantWorker<u32> = InvariantWorker::new(
        1,
        config(),
        contract(false),
        "Test".to_string(),
        MAGIC.to_vec(),
        2,
        FuzzRunIdentifiedContracts::new(TargetedContracts::new(), false),
        SenderFilters::new(targeted.clone(), vec![]),
        InvariantFailures::new(),
    );
    let worker = started(worker);
    assert_eq!(worker.test.sender_filters.targeted, targeted);
}
