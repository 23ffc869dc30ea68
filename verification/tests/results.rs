use invariant_fuzz::abi::{AbiFunction, AbiParam, StateMutability};
use invariant_fuzz::aggregate::aggregate_invariant_results;
use invariant_fuzz::campaign::{records_mapping_slots, CampaignError};
use invariant_fuzz::config::{InvariantConfig, InvariantContract};
use invariant_fuzz::executor::{worker_count, InvariantExecutor, SelectionError};
use invariant_fuzz::failure::{FailureKey, InvariantFuzzError};
use invariant_fuzz::filters::SenderFilters;
use invariant_fuzz::fixed::{Address, FixedBytes, Word};
use invariant_fuzz::metrics::InvariantMetrics;
use invariant_fuzz::ordered::OrderedMap;
use invariant_fuzz::result::InvariantOutcome;
use invariant_fuzz::run::{FuzzCase, FuzzedCases};
use invariant_fuzz::shared::{
    branch_runner, new_failure_reports, sync_offset, worker_seed, InvariantWorkerState, SharedInvariantState,
    Throughput, WorkerCounters,
};
use invariant_fuzz::targets::{FuzzRunIdentifiedContracts, TargetedContract, TargetedContracts};
use invariant_fuzz::tx::{BasicTxDetails, CallDetails};
use proptest::strategy::{Strategy, ValueTree};
use proptest::test_runner::TestRunner;

fn tx(byte: u8) -> BasicTxDetails {
    BasicTxDetails {
        warp: None,
        roll: None,
        deal: None,
        sender: Address::repeat_byte(byte),
        call_details: CallDetails { target: Address::repeat_byte(0x01), calldata: vec![byte], value: None },
    }
}

fn word(n: i64) -> Word {
    FixedBytes { bytes: alloy_primitives::I256::try_from(n).unwrap().into_raw().to_be_bytes() }
}

fn worker(id: usize) -> InvariantWorkerState<u32> {
    let mut worker = InvariantWorkerState::new(id);
    worker.data.last_run_inputs.push(tx(id as u8));
    worker.data.fuzz_cases.push(FuzzedCases { cases: vec![FuzzCase { gas: id as u64, stipend: 0 }] });
    worker.data.gas_report_traces.push(vec![id as u32]);
    worker.failed_corpus_replays = 10 + id;
    worker
}

fn fail(worker: &mut InvariantWorkerState<u32>, name: &str, rejects: u32) {
    worker
        .data
        .failures
        .record_failure(FailureKey::new("T", name), InvariantFuzzError::MaxAssumeRejects(rejects));
}

#[test]
fn the_first_error_under_a_key_wins() {
    let mut workers = vec![worker(0), worker(1), worker(2)];
    fail(&mut workers[1], "f", 1);
    fail(&mut workers[2], "f", 2);
    fail(&mut workers[2], "g", 3);
    let result = aggregate_invariant_results(workers);
    assert_eq!(result.errors.len(), 2);
    let reason = |key: &str| result.errors.get(&key.to_string()).unwrap().revert_reason().unwrap();
    assert_eq!(reason("T:f"), "`vm.assume` rejected too many inputs (1 allowed)");
    assert_eq!(reason("T:g"), "`vm.assume` rejected too many inputs (3 allowed)");
    // The inputs to replay are those of the first worker that failed.
    assert_eq!(result.last_run_inputs[0].sender, Address::repeat_byte(1));
}

#[test]
fn without_errors_the_first_worker_is_replayed() {
    let result = aggregate_invariant_results(vec![worker(1), worker(0), worker(2)]);
    assert!(result.errors.is_empty());
    assert_eq!(result.last_run_inputs[0].sender, Address::repeat_byte(0));
    assert_eq!(result.failed_corpus_replays, 10);
    let gas: Vec<u64> = result.cases.iter().map(|run| run.cases[0].gas).collect();
    assert_eq!(gas, vec![1, 0, 2]);
    assert_eq!(result.gas_report_traces, vec![vec![1], vec![0], vec![2]]);

    let none = aggregate_invariant_results::<u32>(vec![]);
    assert!(none.last_run_inputs.is_empty());
    assert_eq!(none.reverts, 0);
}

#[test]
fn counts_add_up() {
    let mut workers = vec![worker(0), worker(1)];
    let metrics = |calls, reverts, discards| InvariantMetrics { calls, reverts, discards };
    workers[0].data.failures.reverts = 3;
    workers[1].data.failures.reverts = 4;
    workers[0].data.metrics.insert("A.f".to_string(), metrics(5, 1, 2));
    workers[1].data.metrics.insert("A.f".to_string(), metrics(7, 0, 3));
    workers[1].data.metrics.insert("A.g".to_string(), metrics(1, 1, 0));
    let result = aggregate_invariant_results(workers);
    assert_eq!(result.reverts, 7);
    assert_eq!(*result.metrics.get(&"A.f".to_string()).unwrap(), metrics(12, 1, 5));
    assert_eq!(*result.metrics.get(&"A.g".to_string()).unwrap(), metrics(1, 1, 0));
    assert_eq!(result.metrics.len(), 2);
}

#[test]
fn the_best_value_of_all_workers_is_kept() {
    let mut workers = vec![worker(0), worker(1), worker(2), worker(3)];
    for (id, value) in [(0, -4), (1, 2), (3, 2)] {
        workers[id].data.optimization_best_value = Some(word(value));
        workers[id].data.optimization_best_sequence = vec![tx(id as u8)];
    }
    let result = aggregate_invariant_results(workers);
    assert_eq!(result.optimization_best_value, Some(word(2)));
    assert_eq!(result.optimization_best_sequence[0].sender, Address::repeat_byte(1));
}

fn config(runs: u32) -> InvariantConfig {
    InvariantConfig {
        runs,
        depth: 500,
        fail_on_revert: false,
        fail_on_assert: false,
        call_override: false,
        dictionary_weight: 80,
        shrink_run_limit: 5000,
        max_assume_rejects: 65536,
        gas_report_samples: 256,
        max_time_delay: None,
        max_block_delay: None,
        check_interval: 1,
        show_metrics: true,
    }
}

fn executor(runs: u32, num_workers: usize) -> InvariantExecutor {
    let mut executor = InvariantExecutor::new(config(runs), OrderedMap::new(), vec![], 1);
    executor.num_workers = num_workers;
    executor
}

#[test]
fn workers_share_the_threads_and_the_runs() {
    assert_eq!(worker_count(0, 8, 1), 0);
    assert_eq!(worker_count(1, 8, 1), 1);
    assert_eq!(worker_count(999, 8, 1), 1);
    assert_eq!(worker_count(1999, 8, 1), 1);
    assert_eq!(worker_count(2000, 8, 1), 2);
    assert_eq!(worker_count(100_000, 8, 1), 8);
    assert_eq!(worker_count(100_000, 8, 3), 2);
    assert_eq!(worker_count(100_000, 8, 0), 8);
    assert_eq!(worker_count(100_000, 8, 20), 1);
    assert_eq!(worker_count(100_000, 0, 1), 1);

    let made = InvariantExecutor::new(config(1_000_000), OrderedMap::new(), vec![], 1);
    assert!(made.num_workers >= 1 && made.num_workers <= rayon::current_num_threads().max(1));
    assert_eq!(made.config().runs, 1_000_000);
    assert_eq!(InvariantExecutor::new(config(0), OrderedMap::new(), vec![], 1).num_workers, 0);
}

#[test]
fn runs_are_shared_evenly() {
    let executor = executor(1003, 4);
    let shares: Vec<u32> = (0..4).map(|id| executor.runs_per_worker(id)).collect();
    assert_eq!(shares, vec![251, 251, 251, 250]);
    assert_eq!(shares.iter().sum::<u32>(), 1003);
}

fn contract(inputs: Vec<AbiParam>) -> InvariantContract {
    InvariantContract {
        address: Address::repeat_byte(0xaa),
        invariant_fn: AbiFunction {
            name: "invariant_a".to_string(),
            inputs,
            state_mutability: StateMutability::View,
            reserved: true,
        },
        invariant_fns: vec![],
        call_after_invariant: false,
        optimization: false,
    }
}

fn selection() -> (SenderFilters, FuzzRunIdentifiedContracts) {
    let contracts = FuzzRunIdentifiedContracts::new(TargetedContracts::new(), true);
    (SenderFilters::new(vec![], vec![]), contracts)
}

fn outcome(success: bool, reason: &str) -> InvariantOutcome {
    InvariantOutcome { success, result: vec![], revert_reason: reason.to_string() }
}

#[test]
fn invariants_have_no_inputs() {
    let executor = executor(10, 1);
    let input = AbiParam { name: "x".to_string(), selector_type: "uint256".to_string() };
    let with_input = contract(vec![input]);
    let error = executor.check_invariant(&with_input).unwrap_err();
    assert_eq!(error.message(), "Invariant test function should have no inputs");
    let error = executor.invariant_fuzz::<u32>(&with_input, Ok(vec![])).err().unwrap();
    assert!(matches!(error, CampaignError::HasInputs));
    assert!(executor.check_invariant(&contract(vec![])).is_ok());
}

#[test]
fn a_campaign_gives_a_result_or_an_error() {
    let executor = executor(10, 1);
    let error = executor.invariant_fuzz::<u32>(&contract(vec![]), Err("no input".to_string())).err().unwrap();
    assert_eq!(error.message(), "no input");
    let result = executor.invariant_fuzz(&contract(vec![]), Ok(vec![worker(0)])).ok().unwrap();
    assert_eq!(result.cases.len(), 1);
}

#[test]
fn a_campaign_does_not_start_with_a_broken_invariant() {
    let executor = executor(10, 1);
    let prepared = executor.prepare_test(&contract(vec![]), Ok(selection()), &outcome(true, ""), &vec![]);
    let prepared = prepared.ok().unwrap();
    assert_eq!(prepared.failures.unique_failures(), 0);
    let worker = executor.start_worker::<u32>(0, contract(vec![]), &prepared, "T".to_string(), vec![]);
    assert_eq!(worker.worker_runs, 10);

    let broken = executor.prepare_test(&contract(vec![]), Ok(selection()), &outcome(false, "too low"), &vec![]);
    assert_eq!(broken.err().unwrap().message(), "too low");
    let silent = executor.prepare_test(&contract(vec![]), Ok(selection()), &outcome(false, ""), &vec![]);
    assert_eq!(silent.err().unwrap().message(), "");
    let failed =
        executor.prepare_test(&contract(vec![]), Err(SelectionError::NoContracts), &outcome(false, "x"), &vec![]);
    assert_eq!(failed.err().unwrap().message(), "No contracts to fuzz.");
}

#[test]
fn mapping_slots_are_recorded_for_known_layouts() {
    let mut targets = TargetedContracts::new();
    assert!(!records_mapping_slots(&targets));
    let abi = invariant_fuzz::abi::Abi::new;
    targets.insert(Address::repeat_byte(1), TargetedContract::new("A".to_string(), abi()));
    assert!(!records_mapping_slots(&targets));
    let mut known = TargetedContract::new("B".to_string(), abi());
    known.storage_layout = true;
    targets.insert(Address::repeat_byte(2), known);
    assert!(records_mapping_slots(&targets));
}

#[test]
fn shared_counters_are_summed() {
    let mut shared = SharedInvariantState::new(3);
    assert_eq!(shared.global_totals(), (0, 0, 0));
    assert!(shared.should_continue());
    shared.worker_counters[0].add_call(10);
    shared.worker_counters[2].add_call(5);
    shared.worker_counters[2].add_call(6);
    shared.worker_counters[1].record_failure();
    shared.worker_counters[1].record_failures(2);
    assert_eq!(shared.global_totals(), (3, 21, 3));
    shared.increment_runs();
    shared.increment_runs();
    assert_eq!(shared.total_runs, 2);
    shared.total_runs = u32::MAX;
    shared.increment_runs();
    assert_eq!(shared.total_runs, 0);
}

#[test]
fn counters_wrap_around() {
    let mut counters = WorkerCounters::new();
    counters.gas = u64::MAX;
    counters.failures = u64::MAX;
    counters.add_call(3);
    counters.record_failures(2);
    assert_eq!(counters, WorkerCounters { calls: 1, gas: 2, failures: 1 });
}

#[test]
fn workers_stop_for_each_reason() {
    for reason in 0..3 {
        let mut shared = SharedInvariantState::new(1);
        match reason {
            0 => shared.early_exit = true,
            1 => shared.local_early_exit = true,
            _ => shared.timed_out = true,
        }
        assert!(!shared.should_continue());
    }
}

#[test]
fn first_syncs_are_spread_out() {
    let second: u128 = 1_000_000_000;
    assert_eq!(sync_offset(0, 4), 1200 * second);
    assert_eq!(sync_offset(1, 4), 300 * second);
    assert_eq!(sync_offset(3, 4), 900 * second);
    assert_eq!(sync_offset(1, 7), 1200 * second / 7);
}

#[test]
fn workers_have_seeds_of_their_own() {
    assert!(worker_seed(0).is_none());
    let expected = alloy_primitives::keccak256(3u64.to_be_bytes()).0;
    assert_eq!(worker_seed(3).unwrap().bytes, expected);
    assert!(worker_seed(1).unwrap() != worker_seed(2).unwrap());

    let runner = TestRunner::deterministic();
    let draw = |mut runner: TestRunner| -> u64 {
        proptest::arbitrary::any::<u64>().new_tree(&mut runner).unwrap().current()
    };
    let (first, seed) = branch_runner(&runner, 0);
    assert!(seed.is_none());
    assert_eq!(draw(first), draw(runner.clone()));
    let (second, seed) = branch_runner(&runner, 2);
    assert_eq!(seed, worker_seed(2));
    let (third, _) = branch_runner(&runner, 3);
    let (again, _) = branch_runner(&runner, 2);
    let drawn = draw(second);
    assert_eq!(drawn, draw(again));
    assert!(drawn != draw(third));
}

#[test]
fn throughput_is_reported_since_the_last_report() {
    let mut throughput = Throughput { calls: 10, gas: 100 };
    assert_eq!(throughput.since(15, 180), (5, 80));
    assert_eq!(throughput.report(15, 180), (5, 80));
    assert_eq!(throughput.since(15, 200), (0, 20));
}

#[test]
fn failures_are_reported_once() {
    let mut state = worker(0);
    let mut reported = vec!["T:b".to_string()];
    fail(&mut state, "b", 1);
    fail(&mut state, "c", 1);
    fail(&mut state, "a", 1);
    let reports = new_failure_reports(&state.data.failures, &mut reported);
    let keys: Vec<&str> = reports.iter().map(|report| report.key.as_str()).collect();
    assert_eq!(keys, vec!["T:a", "T:c"]);
    assert_eq!(reports[0].kind, "assume_rejects");
    assert_eq!(reported, vec!["T:b", "T:a", "T:c"]);
    assert!(new_failure_reports(&state.data.failures, &mut reported).is_empty());
}
