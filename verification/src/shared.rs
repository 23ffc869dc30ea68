//! What the workers of a campaign share, and what each of them reports.

use proptest::test_runner::TestRunner;
use vstd::prelude::*;
use vstd::string::*;

use crate::abi::texts;
use crate::failure::{ErrorView, FailuresView, InvariantFailures};
use crate::filters::contains_text;
use crate::fixed::{be_value, be_value_is_injective, FixedBytes, Word};
use crate::ordered::{entry_keys, key_order, sorted_entries_follow_key_order, sorted_entry_is_mapped};
use crate::random::{runner_with_seed, same_runner, seeded_runner};
use crate::run::{InvariantTestData, TestDataView};

verus! {

/// The time between two corpus syncs of a worker, in seconds.
pub const SYNC_INTERVAL_SECS: u64 = 1200;

/// The time between two corpus syncs of a worker, in nanoseconds.
pub const SYNC_INTERVAL_NANOS: u128 = 1_200_000_000_000;

/// The counts of one worker. They wrap around.
#[derive(Clone, Copy, Debug, PartialEq, Eq, Structural)]
pub struct WorkerCounters {
    pub calls: u64,
    pub gas: u64,
    pub failures: u64,
}

impl WorkerCounters {
    /// The counts with `n` failures more.
    pub open spec fn with_failures(self, n: nat) -> WorkerCounters
        decreases n,
    {
        if n == 0 {
            self
        } else {
            let before = self.with_failures((n - 1) as nat);
            WorkerCounters { failures: before.failures.wrapping_add(1), ..before }
        }
    }

    /// The counts with one call more, which used `gas`.
    pub open spec fn with_call(self, gas: u64) -> WorkerCounters {
        WorkerCounters {
            calls: self.calls.wrapping_add(1),
            gas: self.gas.wrapping_add(gas),
            failures: self.failures,
        }
    }

    /// Nothing counted.
    pub fn new() -> (r: WorkerCounters)
        ensures
            r == (WorkerCounters { calls: 0, gas: 0, failures: 0 }),
    {
        WorkerCounters { calls: 0, gas: 0, failures: 0 }
    }

    /// Counts a call that used `gas`.
    pub fn add_call(&mut self, gas: u64)
        ensures
            *final(self) == old(self).with_call(gas),
    {
        self.calls = self.calls.wrapping_add(1);
        self.gas = self.gas.wrapping_add(gas);
    }

    /// Counts a failure.
    pub fn record_failure(&mut self)
        ensures
            *final(self) == old(self).with_failures(1),
    {
        assert(self.with_failures(0) == *self);
        self.failures = self.failures.wrapping_add(1);
    }

    /// Counts `n` failures.
    pub fn record_failures(&mut self, n: usize)
        ensures
            *final(self) == old(self).with_failures(n as nat),
    {
        let mut i: usize = 0;
        while i < n
            invariant
                i <= n,
                *self == old(self).with_failures(i as nat),
            decreases n - i,
        {
            let ghost before = *self;
            self.record_failure();
            assert(before.with_failures(0) == before);
            i += 1;
        }
    }
}

/// Failures are counted one by one: as many as there were, while they fit.
pub proof fn failures_add_up(counters: WorkerCounters, n: nat)
    requires
        counters.failures + n <= u64::MAX,
    ensures
        counters.with_failures(n) == (WorkerCounters { failures: (counters.failures + n) as u64, ..counters }),
    decreases n,
{
    if n > 0 {
        failures_add_up(counters, (n - 1) as nat);
    }
}

/// The sum of the calls that `workers` counted.
pub open spec fn total_calls(workers: Seq<WorkerCounters>) -> nat
    decreases workers.len(),
{
    if workers.len() == 0 {
        0
    } else {
        total_calls(workers.drop_last()) + workers.last().calls as nat
    }
}

/// The sum of the gas that `workers` counted.
pub open spec fn total_gas(workers: Seq<WorkerCounters>) -> nat
    decreases workers.len(),
{
    if workers.len() == 0 {
        0
    } else {
        total_gas(workers.drop_last()) + workers.last().gas as nat
    }
}

/// The sum of the failures that `workers` counted.
pub open spec fn total_failures(workers: Seq<WorkerCounters>) -> nat
    decreases workers.len(),
{
    if workers.len() == 0 {
        0
    } else {
        total_failures(workers.drop_last()) + workers.last().failures as nat
    }
}

/// The sums over the first workers are at most the sums over all.
proof fn totals_grow(workers: Seq<WorkerCounters>, n: int)
    requires
        0 <= n <= workers.len(),
    ensures
        total_calls(workers.take(n)) <= total_calls(workers),
        total_gas(workers.take(n)) <= total_gas(workers),
        total_failures(workers.take(n)) <= total_failures(workers),
    decreases workers.len(),
{
    if n == workers.len() {
        assert(workers.take(n) =~= workers);
    } else {
        totals_grow(workers.drop_last(), n);
        assert(workers.drop_last().take(n) =~= workers.take(n));
    }
}

/// What all workers share.
pub struct SharedInvariantState {
    /// The number of finished runs. It wraps around.
    pub total_runs: u32,
    /// The counts of each worker.
    pub worker_counters: Vec<WorkerCounters>,
    /// Whether the whole test suite is to stop.
    pub early_exit: bool,
    /// Whether a failure is to stop this campaign.
    pub local_early_exit: bool,
    /// Whether the time is up.
    pub timed_out: bool,
}

impl SharedInvariantState {
    /// The state of a campaign of `num_workers` workers that starts.
    pub fn new(num_workers: usize) -> (r: SharedInvariantState)
        ensures
            r.total_runs == 0,
            r.worker_counters@ == Seq::new(
                num_workers as nat,
                |i: int| WorkerCounters { calls: 0, gas: 0, failures: 0 },
            ),
            !r.early_exit,
            !r.local_early_exit,
            !r.timed_out,
    {
        let mut worker_counters: Vec<WorkerCounters> = Vec::new();
        let mut i: usize = 0;
        while i < num_workers
            invariant
                i <= num_workers,
                worker_counters@.len() == i,
                forall|j: int|
                    0 <= j < i ==> worker_counters@[j] == (WorkerCounters { calls: 0, gas: 0, failures: 0 }),
            decreases num_workers - i,
        {
            worker_counters.push(WorkerCounters::new());
            i += 1;
        }
        assert(worker_counters@ =~= Seq::new(
            num_workers as nat,
            |i: int| WorkerCounters { calls: 0, gas: 0, failures: 0 },
        ));
        SharedInvariantState {
            total_runs: 0,
            worker_counters,
            early_exit: false,
            local_early_exit: false,
            timed_out: false,
        }
    }

    /// Counts a finished run.
    pub fn increment_runs(&mut self)
        ensures
            *final(self) == (SharedInvariantState {
                total_runs: old(self).total_runs.wrapping_add(1),
                ..*old(self)
            }),
    {
        self.total_runs = self.total_runs.wrapping_add(1);
    }

    /// The calls, the gas and the failures that all workers counted together.
    pub fn global_totals(&self) -> (r: (u64, u64, u64))
        requires
            total_calls(self.worker_counters@) <= u64::MAX,
            total_gas(self.worker_counters@) <= u64::MAX,
            total_failures(self.worker_counters@) <= u64::MAX,
        ensures
            r.0 == total_calls(self.worker_counters@),
            r.1 == total_gas(self.worker_counters@),
            r.2 == total_failures(self.worker_counters@),
    {
        let mut calls: u64 = 0;
        let mut gas: u64 = 0;
        let mut failures: u64 = 0;
        let mut i: usize = 0;
        let ghost workers = self.worker_counters@;
        while i < self.worker_counters.len()
            invariant
                i <= workers.len(),
                workers == self.worker_counters@,
                total_calls(workers) <= u64::MAX,
                total_gas(workers) <= u64::MAX,
                total_failures(workers) <= u64::MAX,
                calls == total_calls(workers.take(i as int)),
                gas == total_gas(workers.take(i as int)),
                failures == total_failures(workers.take(i as int)),
            decreases workers.len() - i,
        {
            let wc = self.worker_counters[i];
            proof {
                totals_grow(workers, i + 1);
                assert(workers.take(i + 1).drop_last() =~= workers.take(i as int));
                assert(workers.take(i + 1).last() == wc);
            }
            calls += wc.calls;
            gas += wc.gas;
            failures += wc.failures;
            i += 1;
        }
        assert(workers.take(i as int) =~= workers);
        (calls, gas, failures)
    }

    /// Whether the workers go on: nothing asked them to stop and the time is not up.
    pub fn should_continue(&self) -> (r: bool)
        ensures
            r == !(self.early_exit || self.local_early_exit || self.timed_out),
    {
        !(self.early_exit || self.local_early_exit || self.timed_out)
    }
}

/// How much time, in nanoseconds, counts as passed since the last sync when a worker starts.
pub open spec fn start_offset(worker_id: nat, num_workers: nat) -> nat {
    if worker_id == 0 {
        SYNC_INTERVAL_NANOS as nat
    } else {
        (SYNC_INTERVAL_NANOS * worker_id) as nat / num_workers
    }
}

/// How much time, in nanoseconds, counts as passed since the last sync when a worker starts: all
/// of the interval for the first worker, and evenly spaced parts of it for the others.
pub fn sync_offset(worker_id: u32, num_workers: u32) -> (r: u128)
    requires
        worker_id < num_workers,
    ensures
        r == start_offset(worker_id as nat, num_workers as nat),
{
    if worker_id == 0 {
        SYNC_INTERVAL_NANOS
    } else {
        assert(SYNC_INTERVAL_NANOS * worker_id <= SYNC_INTERVAL_NANOS * u32::MAX) by (nonlinear_arith)
            requires
                worker_id <= u32::MAX,
        ;
        SYNC_INTERVAL_NANOS * (worker_id as u128) / (num_workers as u128)
    }
}

/// The first worker syncs at once. No worker waits longer than the interval for its first sync,
/// and of two others the one with the larger number does not wait longer.
pub proof fn first_syncs_are_staggered(a: nat, b: nat, num_workers: nat)
    requires
        a < b < num_workers,
    ensures
        start_offset(0, num_workers) == SYNC_INTERVAL_NANOS,
        start_offset(b, num_workers) <= SYNC_INTERVAL_NANOS,
        0 < a ==> start_offset(a, num_workers) <= start_offset(b, num_workers),
{
    let interval = SYNC_INTERVAL_NANOS as int;
    assert(interval * a <= interval * b) by (nonlinear_arith)
        requires
            a < b,
            interval >= 0,
    ;
    assert(interval * b <= interval * num_workers) by (nonlinear_arith)
        requires
            b < num_workers,
            interval >= 0,
    ;
    vstd::arithmetic::div_mod::lemma_div_is_ordered(interval * a, interval * b, num_workers as int);
    vstd::arithmetic::div_mod::lemma_div_is_ordered(interval * b, interval * num_workers, num_workers as int);
    vstd::arithmetic::div_mod::lemma_div_multiples_vanish(interval, num_workers as int);
    assert(interval * num_workers == num_workers * interval) by (nonlinear_arith);
}

/// The Keccak-256 hash of `bytes`.
pub uninterp spec fn keccak256_of(bytes: Seq<u8>) -> Word;

/// `alloy_primitives::keccak256`: the hash of the bytes.
#[verifier::external_body]
pub(crate) fn keccak256(bytes: &Vec<u8>) -> (r: Word)
    ensures
        r == keccak256_of(bytes@),
{
    FixedBytes { bytes: alloy_primitives::keccak256(bytes).0 }
}

/// `len` bytes can spell `n`.
spec fn fits_in(n: nat, len: nat) -> bool
    decreases len,
{
    if len == 0 {
        n == 0
    } else {
        fits_in(n / 256, (len - 1) as nat)
    }
}

/// The `len` bytes that spell `n` in big-endian order.
fn spell(n: u64, len: usize) -> (r: Vec<u8>)
    requires
        fits_in(n as nat, len as nat),
    ensures
        r@.len() == len,
        be_value(r@) == n,
    decreases len,
{
    if len == 0 {
        Vec::new()
    } else {
        let mut out = spell(n / 256, len - 1);
        let ghost front = out@;
        out.push((n % 256) as u8);
        assert(out@.drop_last() =~= front);
        out
    }
}

/// The eight bytes that spell `n` in big-endian order.
pub fn be_bytes(n: u64) -> (r: Vec<u8>)
    ensures
        r@.len() == 8,
        be_value(r@) == n,
{
    proof {
        reveal_with_fuel(fits_in, 9);
    }
    spell(n, 8)
}

/// `seed` is the hash of the eight bytes that spell the number of a worker.
pub open spec fn is_worker_seed(worker_id: u64, seed: Word) -> bool {
    exists|bytes: Seq<u8>| bytes.len() == 8 && be_value(bytes) == worker_id && seed == #[trigger] keccak256_of(bytes)
}

/// There is one seed for each worker.
pub proof fn worker_seeds_are_unique(worker_id: u64, a: Word, b: Word)
    requires
        is_worker_seed(worker_id, a),
        is_worker_seed(worker_id, b),
    ensures
        a == b,
{
    let x = choose|bytes: Seq<u8>|
        bytes.len() == 8 && be_value(bytes) == worker_id && a == #[trigger] keccak256_of(bytes);
    let y = choose|bytes: Seq<u8>|
        bytes.len() == 8 && be_value(bytes) == worker_id && b == #[trigger] keccak256_of(bytes);
    be_value_is_injective(x, y);
}

/// The seed of the random numbers of a worker: the hash of its number, for all but the first
/// worker, which takes the random numbers of the campaign.
pub fn worker_seed(worker_id: u64) -> (r: Option<Word>)
    ensures
        r is None == (worker_id == 0),
        r matches Some(seed) ==> is_worker_seed(worker_id, seed),
{
    if worker_id == 0 {
        None
    } else {
        let bytes = be_bytes(worker_id);
        Some(keccak256(&bytes))
    }
}

/// The runner of a worker, and the seed it was made with: the first worker goes on with the runner of
/// the campaign, and each other one has a seed of its own.
pub fn branch_runner(runner: &TestRunner, worker_id: u64) -> (r: (TestRunner, Option<Word>))
    ensures
        r.1 is None == (worker_id == 0),
        worker_id == 0 ==> r.0 == *runner,
        r.1 matches Some(seed) ==> is_worker_seed(worker_id, seed) && r.0 == seeded_runner(*runner, seed),
{
    match worker_seed(worker_id) {
        Some(seed) => (runner_with_seed(runner, seed), Some(seed)),
        None => (same_runner(runner), None),
    }
}

/// What was counted when throughput was last reported.
#[derive(Clone, Copy, Debug, PartialEq, Eq, Structural)]
pub struct Throughput {
    pub calls: u64,
    pub gas: u64,
}

impl Throughput {
    /// The calls and the gas since the last report.
    pub fn since(&self, calls: u64, gas: u64) -> (r: (u64, u64))
        requires
            self.calls <= calls,
            self.gas <= gas,
        ensures
            r.0 == calls - self.calls,
            r.1 == gas - self.gas,
    {
        (calls - self.calls, gas - self.gas)
    }

    /// The calls and the gas since the last report, which this one follows.
    pub fn report(&mut self, calls: u64, gas: u64) -> (r: (u64, u64))
        requires
            old(self).calls <= calls,
            old(self).gas <= gas,
        ensures
            r.0 == calls - old(self).calls,
            r.1 == gas - old(self).gas,
            *final(self) == (Throughput { calls, gas }),
    {
        let deltas = self.since(calls, gas);
        self.calls = calls;
        self.gas = gas;
        deltas
    }
}

/// A failure to report: its key and its kind.
pub struct FailureReport {
    pub key: String,
    pub kind: &'static str,
}

/// The keys of `keys` that are not among `reported`, with the kinds of their failures.
pub open spec fn unreported(
    errors: Map<Seq<char>, ErrorView>,
    keys: Seq<Seq<char>>,
    reported: Seq<Seq<char>>,
) -> Seq<(Seq<char>, Seq<char>)>
    decreases keys.len(),
{
    if keys.len() == 0 {
        Seq::empty()
    } else {
        let front = unreported(errors, keys.drop_last(), reported);
        if reported.contains(keys.last()) {
            front
        } else {
            front.push((keys.last(), errors[keys.last()].failure_type()))
        }
    }
}

/// The texts of reports.
pub open spec fn report_models(reports: Seq<FailureReport>) -> Seq<(Seq<char>, Seq<char>)> {
    Seq::new(reports.len(), |i: int| (reports[i].key@, reports[i].kind@))
}

/// The failures whose keys are not among `reported`, in the order of their keys. Each key is
/// then added to `reported`.
pub fn new_failure_reports(failures: &InvariantFailures, reported: &mut Vec<String>) -> (r: Vec<FailureReport>)
    requires
        failures.wf(),
    ensures
        report_models(r@) == unreported(
            failures@.errors,
            key_order::<String>(failures@.errors.dom()),
            texts(old(reported)@),
        ),
        texts(final(reported)@) == texts(old(reported)@) + Seq::new(r@.len(), |i: int| r@[i].key@),
{
    let ghost entries = failures.errors.entries@;
    let ghost keys = entry_keys(entries);
    let ghost known = texts(reported@);
    let mut out: Vec<FailureReport> = Vec::new();
    let mut fresh: Vec<String> = Vec::new();
    let mut i: usize = 0;
    proof {
        sorted_entries_follow_key_order(entries);
        assert(failures@.errors.dom() =~= failures.errors@.dom());
        assert(report_models(out@) =~= unreported(failures@.errors, keys.take(0), known));
    }
    while i < failures.errors.entries.len()
        invariant
            i <= entries.len(),
            entries == failures.errors.entries@,
            failures.wf(),
            keys == entry_keys(entries),
            known == texts(reported@),
            *reported == *old(reported),
            report_models(out@) == unreported(failures@.errors, keys.take(i as int), known),
            texts(fresh@) == Seq::new(out@.len(), |i: int| out@[i].key@),
        decreases entries.len() - i,
    {
        let entry = &failures.errors.entries[i];
        let ghost before = out@;
        let ghost fresh_before = fresh@;
        proof {
            sorted_entry_is_mapped(entries, i as int);
            assert(keys.take(i + 1).drop_last() =~= keys.take(i as int));
            assert(keys.take(i + 1).last() == entry.0@);
        }
        if !contains_text(reported, entry.0.as_str()) {
            out.push(FailureReport { key: entry.0.clone(), kind: entry.1.failure_type() });
            fresh.push(entry.0.clone());
            assert(report_models(out@) =~= report_models(before).push((entry.0@, entry.1@.failure_type())));
            assert(texts(fresh@) =~= texts(fresh_before).push(entry.0@));
            assert(texts(fresh@) =~= Seq::new(out@.len(), |i: int| out@[i].key@));
        }
        i += 1;
    }
    let ghost added = fresh@;
    reported.append(&mut fresh);
    proof {
        assert(keys.take(i as int) =~= keys);
        assert(texts(reported@) =~= known + texts(added));
    }
    out
}

/// What a worker hands over when it is done. `T` is the trace of a call.
pub struct InvariantWorkerState<T> {
    /// The number of the worker.
    pub id: usize,
    /// What it collected.
    pub data: InvariantTestData<T>,
    /// The number of runs it finished.
    pub runs: u32,
    /// The number of saved sequences that did not replay.
    pub failed_corpus_replays: usize,
}

impl<T> InvariantWorkerState<T> {
    /// All maps are in the order of their keys.
    pub open spec fn wf(self) -> bool {
        self.data.wf()
    }

    /// A worker that did nothing.
    pub fn new(id: usize) -> (r: InvariantWorkerState<T>)
        ensures
            r.wf(),
            r.id == id,
            r.data@ == TestDataView::<T>::start(FailuresView::none()),
            r.runs == 0,
            r.failed_corpus_replays == 0,
    {
        let data = InvariantTestData::new(InvariantFailures::new());
        InvariantWorkerState { id, data, runs: 0, failed_corpus_replays: 0 }
    }
}

/// A call counts once, with the gas it used, and a counted failure once; counts that grow beyond what is
/// representable start again from zero.
pub proof fn calls_count_with_their_gas(counters: WorkerCounters, gas: u64)
    ensures
        counters.with_call(gas).calls == (counters.calls + 1) % 0x1_0000_0000_0000_0000,
        counters.with_call(gas).gas == (counters.gas + gas) % 0x1_0000_0000_0000_0000,
        counters.with_call(gas).failures == counters.failures,
        counters.with_failures(0) == counters,
        counters.with_failures(1).failures == (counters.failures + 1) % 0x1_0000_0000_0000_0000,
        counters.with_failures(1).calls == counters.calls,
        counters.with_failures(1).gas == counters.gas,
{
    reveal_with_fuel(WorkerCounters::with_failures, 2);
}

/// The totals are sums over all workers: those of two groups together are the sums of those of each, and those
/// of one worker are what it counted.
pub proof fn totals_add_up(a: Seq<WorkerCounters>, b: Seq<WorkerCounters>, worker: WorkerCounters)
    ensures
        total_calls(a + b) == total_calls(a) + total_calls(b),
        total_gas(a + b) == total_gas(a) + total_gas(b),
        total_failures(a + b) == total_failures(a) + total_failures(b),
        total_calls(seq![worker]) == worker.calls,
        total_gas(seq![worker]) == worker.gas,
        total_failures(seq![worker]) == worker.failures,
    decreases b.len(),
{
    let none = Seq::<WorkerCounters>::empty();
    assert(seq![worker].drop_last() =~= none);
    assert(total_calls(none) == 0 && total_gas(none) == 0 && total_failures(none) == 0);
    if b.len() == 0 {
        assert(a + b =~= a);
    } else {
        assert((a + b).drop_last() =~= a + b.drop_last());
        totals_add_up(a, b.drop_last(), worker);
    }
}

/// The first worker counts the whole interval as passed, twenty minutes, and each other one the part of it that
/// its number is of the number of workers, rounded down to nanoseconds.
pub proof fn syncs_are_evenly_spaced(worker_id: nat, num_workers: nat)
    requires
        0 < worker_id < num_workers,
    ensures
        start_offset(0, num_workers) == 20 * 60 * 1_000_000_000,
        start_offset(worker_id, num_workers) * num_workers <= 20 * 60 * 1_000_000_000 * worker_id,
        20 * 60 * 1_000_000_000 * worker_id < (start_offset(worker_id, num_workers) + 1) * num_workers,
        SYNC_INTERVAL_SECS == 20 * 60,
{
    let all = (SYNC_INTERVAL_NANOS * worker_id) as int;
    vstd::arithmetic::div_mod::lemma_fundamental_div_mod(all, num_workers as int);
    let q = all / num_workers as int;
    assert(num_workers * q == q * num_workers) by (nonlinear_arith);
    assert((q + 1) * num_workers == q * num_workers + num_workers) by (nonlinear_arith);
}

/// The reports are of the keys in their order, each once: a key is reported exactly where it was not reported
/// before, with the kind of its failure.
pub proof fn new_failures_are_reported_once(
    errors: Map<Seq<char>, ErrorView>,
    keys: Seq<Seq<char>>,
    reported: Seq<Seq<char>>,
    key: Seq<char>,
)
    ensures
        keys.contains(key) && !reported.contains(key) ==> unreported(errors, keys, reported).contains(
            (key, errors[key].failure_type()),
        ),
        forall|i: int|
            0 <= i < unreported(errors, keys, reported).len() ==> {
                let report = #[trigger] unreported(errors, keys, reported)[i];
                &&& keys.contains(report.0)
                &&& !reported.contains(report.0)
                &&& report.1 == errors[report.0].failure_type()
            },
        keys.no_duplicates() ==> forall|i: int, j: int|
            0 <= i < j < unreported(errors, keys, reported).len() ==> #[trigger] unreported(errors, keys, reported)[i].0
                != #[trigger] unreported(errors, keys, reported)[j].0,
        (forall|i: int| 0 <= i < keys.len() ==> !reported.contains(#[trigger] keys[i])) ==> unreported(
            errors,
            keys,
            reported,
        ) == Seq::new(keys.len(), |i: int| (keys[i], errors[keys[i]].failure_type())),
    decreases keys.len(),
{
    let all = unreported(errors, keys, reported);
    if keys.len() > 0 {
        let rest = keys.drop_last();
        let front = unreported(errors, rest, reported);
        new_failures_are_reported_once(errors, rest, reported, key);
        if keys.contains(key) && !reported.contains(key) {
            let wanted = (key, errors[key].failure_type());
            let k = keys.index_of(key);
            if k < rest.len() {
                assert(rest[k] == key);
                assert(front.contains(wanted));
                assert(all[front.index_of(wanted)] == wanted);
            } else {
                assert(all[front.len() as int] == wanted);
            }
        }
        assert forall|i: int| 0 <= i < all.len() implies {
            let report = #[trigger] all[i];
            &&& keys.contains(report.0)
            &&& !reported.contains(report.0)
            &&& report.1 == errors[report.0].failure_type()
        } by {
            if i < front.len() {
                assert(all[i] == front[i]);
                assert(keys[rest.index_of(front[i].0)] == front[i].0);
            } else {
                assert(keys[keys.len() - 1] == all[i].0);
            }
        }
        if keys.no_duplicates() {
            assert forall|i: int, j: int| 0 <= i < j < all.len() implies #[trigger] all[i].0 != #[trigger] all[j].0 by {
                assert(all[i] == front[i]);
                if j < front.len() {
                    assert(all[j] == front[j]);
                } else {
                    let k = rest.index_of(front[i].0);
                    assert(keys[k] == front[i].0);
                    assert(keys[keys.len() - 1] == all[j].0);
                }
            }
        }
        if forall|i: int| 0 <= i < keys.len() ==> !reported.contains(#[trigger] keys[i]) {
            assert forall|i: int| 0 <= i < rest.len() implies !reported.contains(#[trigger] rest[i]) by {
                assert(rest[i] == keys[i]);
            }
            assert(!reported.contains(keys[keys.len() - 1]));
            assert(all =~= Seq::new(keys.len(), |i: int| (keys[i], errors[keys[i]].failure_type())));
        }
    } else {
        assert(all =~= Seq::new(keys.len(), |i: int| (keys[i], errors[keys[i]].failure_type())));
    }
}

/// The seed of a worker is the hash of the eight bytes of its number, the most significant one first.
pub proof fn worker_seeds_are_hashes_of_their_numbers(worker_id: u64, seed: Word, bytes: Seq<u8>)
    requires
        is_worker_seed(worker_id, seed),
        bytes.len() == 8,
        bytes[0] * 0x100_0000_0000_0000 + bytes[1] * 0x1_0000_0000_0000 + bytes[2] * 0x100_0000_0000 + bytes[3]
            * 0x1_0000_0000 + bytes[4] * 0x100_0000 + bytes[5] * 0x1_0000 + bytes[6] * 0x100 + bytes[7] == worker_id,
    ensures
        seed == keccak256_of(bytes),
{
    reveal_with_fuel(be_value, 9);
    let b7 = bytes.drop_last();
    let b6 = b7.drop_last();
    let b5 = b6.drop_last();
    let b4 = b5.drop_last();
    let b3 = b4.drop_last();
    let b2 = b3.drop_last();
    let b1 = b2.drop_last();
    assert(b1.drop_last().len() == 0);
    assert(be_value(b1) == bytes[0]);
    assert(be_value(b2) == be_value(b1) * 256 + bytes[1]);
    assert(be_value(b3) == be_value(b2) * 256 + bytes[2]);
    assert(be_value(b4) == be_value(b3) * 256 + bytes[3]);
    assert(be_value(b5) == be_value(b4) * 256 + bytes[4]);
    assert(be_value(b6) == be_value(b5) * 256 + bytes[5]);
    assert(be_value(b7) == be_value(b6) * 256 + bytes[6]);
    assert(be_value(bytes) == be_value(b7) * 256 + bytes[7]);
    let spelled = choose|spelled: Seq<u8>|
        spelled.len() == 8 && be_value(spelled) == worker_id && seed == #[trigger] keccak256_of(spelled);
    be_value_is_injective(bytes, spelled);
}

} // verus!
