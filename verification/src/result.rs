//! What follows from the outcome of a call: broken assertions, reverts and broken invariants.

use vstd::prelude::*;
use vstd::string::*;

use crate::abi::AbiFunctionView;
use crate::config::{InvariantConfig, InvariantContract, InvariantContractView};
use crate::failure::{
    case_data, failure_key, keys_do_not_outnumber_failures, optional_text, reason_separator, CaseDataView, ErrorView,
    FailedInvariantCaseData, FailureKey, FailuresView, InvariantFailures, InvariantFuzzError,
};
use crate::fixed::{
    be_value_is_injective, word_of, word_of_has_the_bytes, word_of_its_bytes, word_try_from_be_slice, Word,
};
use crate::run::{InvariantTest, InvariantTestRun, RunView, TestDataView};
use crate::text::{after_last, text_after_last};
use crate::tx::{
    clone_optional_txs, optional_tx_models, tx_models, BasicTxDetails, BasicTxDetailsView,
};

verus! {

/// The outcome of a call of the sequence. `T` is the trace of a call.
pub struct CallOutcome<T> {
    /// Whether the call reverted.
    pub reverted: bool,
    /// Whether the call failed a Solidity assertion.
    pub assert_failure: bool,
    /// What the call returned.
    pub result: Vec<u8>,
    /// What the call returned, decoded as a revert reason.
    pub revert_reason: String,
    /// The gas that the call used.
    pub gas_used: u64,
    /// The gas stipend of the call.
    pub stipend: u64,
    /// The trace of the call, if one was taken.
    pub traces: Option<T>,
}

/// The outcome of a call of an invariant.
pub struct InvariantOutcome {
    /// Whether the invariant holds.
    pub success: bool,
    /// What the call returned.
    pub result: Vec<u8>,
    /// What the call returned, decoded as a revert reason.
    pub revert_reason: String,
}

/// What was asked of the chain after a call.
pub struct CheckOutcomes {
    /// Whether the chain state holds the mark of a failed assertion.
    pub global_failure: bool,
    /// For each targeted contract, whether it reports success.
    pub handlers: Vec<bool>,
    /// The outcomes of the invariants: of the one to maximize, or of each to check, in order.
    pub invariants: Vec<InvariantOutcome>,
    /// The calls that were generated in place of external calls.
    pub inner_sequence: Vec<Option<BasicTxDetails>>,
}

/// The model of a [`CallOutcome`].
pub struct CallView<T> {
    pub reverted: bool,
    pub assert_failure: bool,
    pub result: Seq<u8>,
    pub revert_reason: Seq<char>,
    pub gas_used: u64,
    pub stipend: u64,
    pub traces: Option<T>,
}

impl<T> View for CallOutcome<T> {
    type V = CallView<T>;

    open spec fn view(&self) -> CallView<T> {
        CallView {
            reverted: self.reverted,
            assert_failure: self.assert_failure,
            result: self.result@,
            revert_reason: self.revert_reason@,
            gas_used: self.gas_used,
            stipend: self.stipend,
            traces: self.traces,
        }
    }
}

/// The model of an [`InvariantOutcome`].
pub struct OutcomeView {
    pub success: bool,
    pub result: Seq<u8>,
    pub revert_reason: Seq<char>,
}

impl View for InvariantOutcome {
    type V = OutcomeView;

    open spec fn view(&self) -> OutcomeView {
        OutcomeView { success: self.success, result: self.result@, revert_reason: self.revert_reason@ }
    }
}

/// The models of the outcomes of invariants.
pub open spec fn outcome_models(outcomes: Seq<InvariantOutcome>) -> Seq<OutcomeView> {
    Seq::new(outcomes.len(), |i: int| outcomes[i]@)
}

/// The model of [`CheckOutcomes`].
pub struct ChecksView {
    pub global_failure: bool,
    pub handlers: Seq<bool>,
    pub invariants: Seq<OutcomeView>,
    pub inner_sequence: Seq<Option<BasicTxDetailsView>>,
}

impl View for CheckOutcomes {
    type V = ChecksView;

    open spec fn view(&self) -> ChecksView {
        ChecksView {
            global_failure: self.global_failure,
            handlers: self.handlers@,
            invariants: outcome_models(self.invariants@),
            inner_sequence: optional_tx_models(self.inner_sequence@),
        }
    }
}

/// An assertion failed, and failed assertions are failures.
pub open spec fn assertion_broken(config: InvariantConfig, assert_failure: bool, global_failure: bool) -> bool {
    config.fail_on_assert && (assert_failure || global_failure)
}

/// All of `flags` are set.
pub open spec fn all_set(flags: Seq<bool>) -> bool {
    forall|i: int| 0 <= i < flags.len() ==> flags[i]
}

/// Whether all of `flags` are set.
pub fn are_all_set(flags: &Vec<bool>) -> (r: bool)
    ensures
        r == all_set(flags@),
{
    let mut i: usize = 0;
    while i < flags.len()
        invariant
            i <= flags@.len(),
            forall|j: int| 0 <= j < i ==> flags@[j],
        decreases flags@.len() - i,
    {
        if !flags[i] {
            return false;
        }
        i += 1;
    }
    true
}

/// The handlers are asked: no assertion failed and the call did not revert.
pub open spec fn reaches_handlers<T>(config: InvariantConfig, call: CallView<T>, checks: ChecksView) -> bool {
    !assertion_broken(config, call.assert_failure, checks.global_failure) && !call.reverted
}

/// The invariants are called: no assertion failed, the call did not revert, and all handlers
/// report success.
pub open spec fn reaches_invariants<T>(config: InvariantConfig, call: CallView<T>, checks: ChecksView) -> bool {
    &&& reaches_handlers(config, call, checks)
    &&& all_set(checks.handlers)
}

/// The number of invariants that are called: the one to maximize, or each to check.
pub open spec fn invariant_calls(contract: InvariantContractView) -> nat {
    if contract.optimization {
        1
    } else {
        contract.invariant_fns.len()
    }
}

/// The name of the handler in a metric key: what follows its last dot.
pub open spec fn handler_name(metric_key: Option<Seq<char>>) -> Seq<char> {
    match metric_key {
        Some(key) => after_last(key, '.'),
        None => "unknown"@,
    }
}

/// The name of the handler in a metric key: what follows its last dot, or `unknown` where there
/// is no key.
pub fn handler_of<'a>(metric_key: &'a Option<String>) -> (r: &'a str)
    ensures
        r@ == handler_name(optional_text(*metric_key)),
{
    match metric_key {
        Some(key) => text_after_last(key.as_str(), '.'),
        None => "unknown",
    }
}

/// The data of a failure of a call of the sequence.
pub open spec fn call_case(
    contract: InvariantContractView,
    config: InvariantConfig,
    fail_on_revert: bool,
    inputs: Seq<BasicTxDetailsView>,
    revert_reason: Seq<char>,
) -> CaseDataView {
    case_data(
        contract,
        config.shrink_run_limit,
        fail_on_revert,
        config.fail_on_assert,
        inputs,
        revert_reason,
        Seq::empty(),
    )
}

/// The failures after an assertion failed in a handler: the reason is kept as the latest one.
pub open spec fn with_broken_assertion(
    failures: FailuresView,
    contract: InvariantContractView,
    config: InvariantConfig,
    inputs: Seq<BasicTxDetailsView>,
    revert_reason: Seq<char>,
    target_name: Seq<char>,
    handler: Seq<char>,
) -> FailuresView {
    FailuresView { revert_reason: Some(revert_reason), ..failures }.record(
        failure_key(target_name, handler),
        ErrorView::BrokenAssertion(call_case(contract, config, config.fail_on_revert, inputs, revert_reason)),
    )
}

/// The failures after a revert, for the first `n` invariants: each that a revert breaks has one.
pub open spec fn with_reverts(
    failures: FailuresView,
    contract: InvariantContractView,
    config: InvariantConfig,
    inputs: Seq<BasicTxDetailsView>,
    revert_reason: Seq<char>,
    target_name: Seq<char>,
    n: nat,
) -> FailuresView
    decreases n,
{
    if n == 0 {
        failures
    } else {
        let before = with_reverts(failures, contract, config, inputs, revert_reason, target_name, (n - 1) as nat);
        let (function, fail_on_revert) = contract.invariant_fns[n - 1];
        if fail_on_revert {
            before.record(
                failure_key(target_name, function.name),
                ErrorView::Revert(call_case(contract, config, true, inputs, revert_reason)),
            )
        } else {
            before
        }
    }
}

/// The failures after the first `n` invariants were called: each that does not hold has one.
pub open spec fn with_broken_invariants(
    failures: FailuresView,
    contract: InvariantContractView,
    config: InvariantConfig,
    inputs: Seq<BasicTxDetailsView>,
    outcomes: Seq<OutcomeView>,
    inner_sequence: Seq<Option<BasicTxDetailsView>>,
    target_name: Seq<char>,
    n: nat,
) -> FailuresView
    decreases n,
{
    if n == 0 {
        failures
    } else {
        let before = with_broken_invariants(
            failures,
            contract,
            config,
            inputs,
            outcomes,
            inner_sequence,
            target_name,
            (n - 1) as nat,
        );
        let (function, fail_on_revert) = contract.invariant_fns[n - 1];
        let outcome = outcomes[n - 1];
        if outcome.success {
            before
        } else {
            before.record(
                failure_key(target_name, function.name),
                ErrorView::BrokenInvariant(
                    case_data(
                        contract,
                        config.shrink_run_limit,
                        fail_on_revert,
                        config.fail_on_assert,
                        inputs,
                        outcome.revert_reason,
                        inner_sequence,
                    ),
                ),
            )
        }
    }
}

/// The failures after a check outside the sequence, recorded under the invariant that names the
/// campaign where it failed.
pub open spec fn with_failed_check(
    failures: FailuresView,
    contract: InvariantContractView,
    config: InvariantConfig,
    inputs: Seq<BasicTxDetailsView>,
    outcome: OutcomeView,
    inner_sequence: Seq<Option<BasicTxDetailsView>>,
    target_name: Seq<char>,
) -> FailuresView {
    if outcome.success {
        failures
    } else {
        failures.record(
            failure_key(target_name, contract.invariant_fn.name),
            ErrorView::BrokenInvariant(
                case_data(
                    contract,
                    config.shrink_run_limit,
                    config.fail_on_revert,
                    config.fail_on_assert,
                    inputs,
                    outcome.revert_reason,
                    inner_sequence,
                ),
            ),
        )
    }
}

/// The integer that an invariant returned, if it held and returned one.
pub open spec fn returned_value(outcome: OutcomeView) -> Option<Word> {
    if outcome.success && outcome.result.len() >= 32 {
        Some(word_of(outcome.result.take(32)))
    } else {
        None
    }
}

/// The integer that an invariant returned, if it held and returned one: its first 32 bytes.
pub fn value_returned(outcome: &InvariantOutcome) -> (r: Option<Word>)
    ensures
        r == returned_value(outcome@),
{
    if !outcome.success || outcome.result.len() < 32 {
        return None;
    }
    let mut head: Vec<u8> = Vec::new();
    let mut i: usize = 0;
    while i < 32
        invariant
            i <= 32,
            outcome.result@.len() >= 32,
            head@ == outcome.result@.take(i as int),
        decreases 32 - i,
    {
        head.push(outcome.result[i]);
        assert(outcome.result@.take(i + 1) =~= outcome.result@.take(i as int).push(outcome.result@[i as int]));
        i += 1;
    }
    let r = word_try_from_be_slice(&head);
    proof {
        let word = r->0;
        be_value_is_injective(word.bytes@, head@);
        word_of_its_bytes(word);
    }
    r
}

/// The data and the run after a call of the sequence was checked.
pub open spec fn checked_call<T>(
    contract: InvariantContractView,
    config: InvariantConfig,
    data: TestDataView<T>,
    run: RunView<T>,
    call: CallView<T>,
    checks: ChecksView,
    metric_key: Option<Seq<char>>,
    target_name: Seq<char>,
) -> (TestDataView<T>, RunView<T>) {
    if assertion_broken(config, call.assert_failure, checks.global_failure) {
        let failures = with_broken_assertion(
            data.failures.revert(),
            contract,
            config,
            run.inputs,
            call.revert_reason,
            target_name,
            handler_name(metric_key),
        );
        (TestDataView { failures, ..data }, run)
    } else if !call.reverted && all_set(checks.handlers) {
        let traced = match call.traces {
            Some(trace) => RunView { run_traces: run.run_traces.push(trace), ..run },
            None => run,
        };
        if contract.optimization {
            match returned_value(checks.invariants[0]) {
                Some(value) => (data.with_value(value, run.inputs), traced),
                None => (data, traced),
            }
        } else {
            let failures = with_broken_invariants(
                data.failures,
                contract,
                config,
                run.inputs,
                checks.invariants,
                checks.inner_sequence,
                target_name,
                contract.invariant_fns.len(),
            );
            (TestDataView { failures, ..data }, traced)
        }
    } else {
        let failures = with_reverts(
            data.failures.revert(),
            contract,
            config,
            run.inputs,
            call.revert_reason,
            target_name,
            contract.invariant_fns.len(),
        );
        let kept = if contract.optimization {
            run
        } else {
            run.without_last_input()
        };
        (TestDataView { failures, ..data }, kept)
    }
}

/// The data and the run after a call of the sequence whose invariants are not checked.
pub open spec fn unchecked_call<T>(
    contract: InvariantContractView,
    config: InvariantConfig,
    data: TestDataView<T>,
    run: RunView<T>,
    call: CallView<T>,
    global_failure: bool,
    metric_key: Option<Seq<char>>,
    target_name: Seq<char>,
) -> (TestDataView<T>, RunView<T>) {
    let asserted = if assertion_broken(config, call.assert_failure, global_failure) {
        with_broken_assertion(
            data.failures,
            contract,
            config,
            run.inputs,
            call.revert_reason,
            target_name,
            handler_name(metric_key),
        )
    } else {
        data.failures
    };
    if !call.reverted {
        (TestDataView { failures: asserted, ..data }, run)
    } else if config.fail_on_revert {
        let failures = with_reverts(
            asserted.revert(),
            contract,
            config,
            run.inputs,
            call.revert_reason,
            target_name,
            contract.invariant_fns.len(),
        );
        (TestDataView { failures, ..data }, run)
    } else {
        let kept = if contract.optimization {
            run
        } else {
            run.without_last_input()
        };
        (TestDataView { failures: asserted.revert(), ..data }, kept)
    }
}

/// The number of the first `n` outcomes in which the invariant does not hold.
pub open spec fn broken_count(outcomes: Seq<OutcomeView>, n: nat) -> nat
    decreases n,
{
    if n == 0 {
        0
    } else {
        broken_count(outcomes, (n - 1) as nat) + if outcomes[n - 1].success {
            0nat
        } else {
            1nat
        }
    }
}

/// The number of the first `n` invariants that a revert breaks.
pub open spec fn revert_count(contract: InvariantContractView, n: nat) -> nat
    decreases n,
{
    if n == 0 {
        0
    } else {
        revert_count(contract, (n - 1) as nat) + if contract.invariant_fns[n - 1].1 {
            1nat
        } else {
            0nat
        }
    }
}

/// Every invariant that does not hold gives one failure, under a key with its name, and no other
/// failure is recorded.
pub proof fn broken_invariants_are_recorded(
    failures: FailuresView,
    contract: InvariantContractView,
    config: InvariantConfig,
    inputs: Seq<BasicTxDetailsView>,
    outcomes: Seq<OutcomeView>,
    inner_sequence: Seq<Option<BasicTxDetailsView>>,
    target_name: Seq<char>,
    n: nat,
)
    ensures
        ({
            let after = with_broken_invariants(
                failures,
                contract,
                config,
                inputs,
                outcomes,
                inner_sequence,
                target_name,
                n,
            );
            &&& after.total_failures == failures.total_failures + broken_count(outcomes, n)
            &&& broken_count(outcomes, n) <= n
            &&& after.reverts == failures.reverts
            &&& after.revert_reason == failures.revert_reason
            &&& failures.consistent() ==> after.consistent()
            &&& forall|i: int|
                0 <= i < n && !(#[trigger] outcomes[i]).success ==> after.errors.dom().contains(
                    failure_key(target_name, contract.invariant_fns[i].0.name),
                )
            &&& forall|key: Seq<char>| #[trigger]
                after.errors.dom().contains(key) ==> failures.errors.dom().contains(key) || exists|i: int|
                    0 <= i < n && !(#[trigger] outcomes[i]).success && key == failure_key(
                        target_name,
                        contract.invariant_fns[i].0.name,
                    )
        }),
    decreases n,
{
    if n > 0 {
        broken_invariants_are_recorded(
            failures,
            contract,
            config,
            inputs,
            outcomes,
            inner_sequence,
            target_name,
            (n - 1) as nat,
        );
        let before = with_broken_invariants(
            failures,
            contract,
            config,
            inputs,
            outcomes,
            inner_sequence,
            target_name,
            (n - 1) as nat,
        );
        let key = failure_key(target_name, contract.invariant_fns[n - 1].0.name);
        keys_do_not_outnumber_failures_if(before, key);
        assert(outcomes[n - 1].success || !outcomes[n - 1].success);
    }
}

/// Recording a failure under any key keeps the failures consistent.
proof fn keys_do_not_outnumber_failures_if(failures: FailuresView, key: Seq<char>)
    ensures
        failures.consistent() ==> forall|error: ErrorView| #[trigger] failures.record(key, error).consistent(),
{
    if failures.consistent() {
        assert forall|error: ErrorView| #[trigger] failures.record(key, error).consistent() by {
            keys_do_not_outnumber_failures(failures, key, error);
        }
    }
}

/// A revert gives one failure for every invariant that a revert breaks, under a key with its
/// name, and no other failure is recorded.
pub proof fn reverts_are_recorded(
    failures: FailuresView,
    contract: InvariantContractView,
    config: InvariantConfig,
    inputs: Seq<BasicTxDetailsView>,
    revert_reason: Seq<char>,
    target_name: Seq<char>,
    n: nat,
)
    ensures
        ({
            let after = with_reverts(failures, contract, config, inputs, revert_reason, target_name, n);
            &&& after.total_failures == failures.total_failures + revert_count(contract, n)
            &&& revert_count(contract, n) <= n
            &&& after.reverts == failures.reverts
            &&& after.revert_reason == failures.revert_reason
            &&& failures.consistent() ==> after.consistent()
            &&& forall|i: int|
                0 <= i < n && (#[trigger] contract.invariant_fns[i]).1 ==> after.errors.dom().contains(
                    failure_key(target_name, contract.invariant_fns[i].0.name),
                )
            &&& forall|key: Seq<char>| #[trigger]
                after.errors.dom().contains(key) ==> failures.errors.dom().contains(key) || exists|i: int|
                    0 <= i < n && (#[trigger] contract.invariant_fns[i]).1 && key == failure_key(
                        target_name,
                        contract.invariant_fns[i].0.name,
                    )
        }),
    decreases n,
{
    if n > 0 {
        reverts_are_recorded(failures, contract, config, inputs, revert_reason, target_name, (n - 1) as nat);
        let before = with_reverts(failures, contract, config, inputs, revert_reason, target_name, (n - 1) as nat);
        let key = failure_key(target_name, contract.invariant_fns[n - 1].0.name);
        keys_do_not_outnumber_failures_if(before, key);
        assert(contract.invariant_fns[n - 1].1 || !contract.invariant_fns[n - 1].1);
    }
}

/// A campaign that maximizes a value never fails on its invariant: where the invariant is called,
/// no failure is recorded, and the best value does not fall.
pub proof fn maximizing_never_fails_on_the_invariant<T>(
    contract: InvariantContractView,
    config: InvariantConfig,
    data: TestDataView<T>,
    run: RunView<T>,
    call: CallView<T>,
    checks: ChecksView,
    metric_key: Option<Seq<char>>,
    target_name: Seq<char>,
)
    requires
        contract.optimization,
        reaches_invariants(config, call, checks),
    ensures
        ({
            let after = checked_call(contract, config, data, run, call, checks, metric_key, target_name).0;
            &&& after.failures == data.failures
            &&& data.optimization_best_value matches Some(before) ==> after.optimization_best_value matches Some(best)
                && best.signed_value() >= before.signed_value()
        }),
{
}

/// A call whose invariants hold, in a campaign that checks invariants, changes no failure.
pub proof fn holding_invariants_record_nothing<T>(
    contract: InvariantContractView,
    config: InvariantConfig,
    data: TestDataView<T>,
    run: RunView<T>,
    call: CallView<T>,
    checks: ChecksView,
    metric_key: Option<Seq<char>>,
    target_name: Seq<char>,
)
    requires
        !contract.optimization,
        reaches_invariants(config, call, checks),
        checks.invariants.len() == contract.invariant_fns.len(),
        forall|i: int| 0 <= i < checks.invariants.len() ==> (#[trigger] checks.invariants[i]).success,
    ensures
        checked_call(contract, config, data, run, call, checks, metric_key, target_name).0 == data,
        checked_call(contract, config, data, run, call, checks, metric_key, target_name).1.inputs == run.inputs,
{
    all_hold(
        data.failures,
        contract,
        config,
        run.inputs,
        checks.invariants,
        checks.inner_sequence,
        target_name,
        contract.invariant_fns.len(),
    );
}

/// Invariants that hold record nothing.
proof fn all_hold(
    failures: FailuresView,
    contract: InvariantContractView,
    config: InvariantConfig,
    inputs: Seq<BasicTxDetailsView>,
    outcomes: Seq<OutcomeView>,
    inner_sequence: Seq<Option<BasicTxDetailsView>>,
    target_name: Seq<char>,
    n: nat,
)
    requires
        forall|i: int| 0 <= i < n ==> (#[trigger] outcomes[i]).success,
    ensures
        with_broken_invariants(failures, contract, config, inputs, outcomes, inner_sequence, target_name, n)
            == failures,
    decreases n,
{
    if n > 0 {
        all_hold(failures, contract, config, inputs, outcomes, inner_sequence, target_name, (n - 1) as nat);
        assert(outcomes[n - 1].success);
    }
}

/// How a checked call changes the counts: it never takes a failure or a revert away, it adds at
/// most one failure more than there are invariants and at most one revert, and the keys never
/// outnumber the failures.
pub proof fn checked_call_bounds<T>(
    contract: InvariantContractView,
    config: InvariantConfig,
    data: TestDataView<T>,
    run: RunView<T>,
    call: CallView<T>,
    checks: ChecksView,
    metric_key: Option<Seq<char>>,
    target_name: Seq<char>,
)
    ensures
        ({
            let (after, kept) = checked_call(contract, config, data, run, call, checks, metric_key, target_name);
            &&& data.failures.total_failures <= after.failures.total_failures
            &&& after.failures.total_failures <= data.failures.total_failures + contract.invariant_fns.len() + 1
            &&& data.failures.reverts <= after.failures.reverts <= data.failures.reverts + 1
            &&& data.failures.consistent() ==> after.failures.consistent()
            &&& kept == (RunView { inputs: kept.inputs, run_traces: kept.run_traces, ..run })
            &&& kept.inputs == run.inputs || kept.inputs == run.inputs.drop_last()
            &&& after == (TestDataView {
                failures: after.failures,
                optimization_best_value: after.optimization_best_value,
                optimization_best_sequence: after.optimization_best_sequence,
                ..data
            })
        }),
{
    let n = contract.invariant_fns.len();
    broken_invariants_are_recorded(
        data.failures,
        contract,
        config,
        run.inputs,
        checks.invariants,
        checks.inner_sequence,
        target_name,
        n,
    );
    reverts_are_recorded(data.failures.revert(), contract, config, run.inputs, call.revert_reason, target_name, n);
    keys_do_not_outnumber_failures_if(
        FailuresView { revert_reason: Some(call.revert_reason), ..data.failures.revert() },
        failure_key(target_name, handler_name(metric_key)),
    );
}

/// How an unchecked call changes the counts, as [`checked_call_bounds`] has it.
pub proof fn unchecked_call_bounds<T>(
    contract: InvariantContractView,
    config: InvariantConfig,
    data: TestDataView<T>,
    run: RunView<T>,
    call: CallView<T>,
    global_failure: bool,
    metric_key: Option<Seq<char>>,
    target_name: Seq<char>,
)
    ensures
        ({
            let (after, kept) = unchecked_call(
                contract,
                config,
                data,
                run,
                call,
                global_failure,
                metric_key,
                target_name,
            );
            &&& data.failures.total_failures <= after.failures.total_failures
            &&& after.failures.total_failures <= data.failures.total_failures + contract.invariant_fns.len() + 1
            &&& data.failures.reverts <= after.failures.reverts <= data.failures.reverts + 1
            &&& data.failures.consistent() ==> after.failures.consistent()
            &&& kept == (RunView { inputs: kept.inputs, ..run })
            &&& kept.inputs == run.inputs || kept.inputs == run.inputs.drop_last()
            &&& after == (TestDataView { failures: after.failures, ..data })
        }),
{
    let n = contract.invariant_fns.len();
    let handler = handler_name(metric_key);
    let asserted = if assertion_broken(config, call.assert_failure, global_failure) {
        with_broken_assertion(
            data.failures,
            contract,
            config,
            run.inputs,
            call.revert_reason,
            target_name,
            handler,
        )
    } else {
        data.failures
    };
    keys_do_not_outnumber_failures_if(
        FailuresView { revert_reason: Some(call.revert_reason), ..data.failures },
        failure_key(target_name, handler),
    );
    reverts_are_recorded(asserted.revert(), contract, config, run.inputs, call.revert_reason, target_name, n);
}

/// An invariant does not hold. What failed is recorded.
#[derive(Clone, Copy, Debug, PartialEq, Eq, Structural)]
pub struct BrokenInvariant {}

/// All invariants hold.
pub open spec fn all_succeed(outcomes: Seq<OutcomeView>) -> bool {
    forall|i: int| 0 <= i < outcomes.len() ==> (#[trigger] outcomes[i]).success
}

/// What the last of the calls returned, if there was one.
pub open spec fn last_result(outcomes: Seq<OutcomeView>) -> Option<Seq<u8>> {
    if outcomes.len() == 0 {
        None
    } else {
        Some(outcomes.last().result)
    }
}

/// The bytes of an optional result.
pub open spec fn optional_bytes(bytes: Option<Vec<u8>>) -> Option<Seq<u8>> {
    match bytes {
        Some(bytes) => Some(bytes@),
        None => None,
    }
}

/// No invariant is broken exactly where all hold.
proof fn broken_means_not_all_succeed(outcomes: Seq<OutcomeView>, n: nat)
    requires
        n <= outcomes.len(),
    ensures
        broken_count(outcomes, n) == 0 <==> all_succeed(outcomes.take(n as int)),
    decreases n,
{
    if n > 0 {
        broken_means_not_all_succeed(outcomes, (n - 1) as nat);
        let front = outcomes.take(n - 1);
        let all = outcomes.take(n as int);
        if all_succeed(all) {
            assert forall|i: int| 0 <= i < front.len() implies (#[trigger] front[i]).success by {
                assert(all[i].success);
            }
            assert(all[n - 1].success);
        }
        if all_succeed(front) && outcomes[n - 1].success {
            assert forall|i: int| 0 <= i < all.len() implies (#[trigger] all[i]).success by {
                if i < n - 1 {
                    assert(front[i].success);
                }
            }
        }
    }
}

/// What a checked call means for the test: whether it can continue, and what the last call of the
/// invariant returned, if invariants were called and it can.
pub struct CallVerdict {
    pub can_continue: bool,
    pub call_result: Option<Vec<u8>>,
}

/// The model of a [`CallVerdict`].
pub struct VerdictView {
    pub can_continue: bool,
    pub call_result: Option<Seq<u8>>,
}

impl View for CallVerdict {
    type V = VerdictView;

    open spec fn view(&self) -> VerdictView {
        VerdictView { can_continue: self.can_continue, call_result: optional_bytes(self.call_result) }
    }
}

/// Some invariant is broken by a revert.
pub open spec fn reverts_break(contract: InvariantContractView) -> bool {
    exists|i: int| 0 <= i < contract.invariant_fns.len() && (#[trigger] contract.invariant_fns[i]).1
}

/// What a checked call means for the test. It cannot continue after a failed assertion, after a broken
/// invariant, or after a revert that breaks an invariant; a value that is maximized never stops it.
pub open spec fn verdict<T>(
    contract: InvariantContractView,
    config: InvariantConfig,
    call: CallView<T>,
    checks: ChecksView,
) -> VerdictView {
    if assertion_broken(config, call.assert_failure, checks.global_failure) {
        VerdictView { can_continue: false, call_result: None }
    } else if !reaches_invariants(config, call, checks) {
        VerdictView { can_continue: !reverts_break(contract), call_result: None }
    } else if contract.optimization {
        VerdictView {
            can_continue: true,
            call_result: if checks.invariants[0].success {
                Some(checks.invariants[0].result)
            } else {
                None
            },
        }
    } else if all_succeed(checks.invariants) {
        VerdictView { can_continue: true, call_result: last_result(checks.invariants) }
    } else {
        VerdictView { can_continue: false, call_result: None }
    }
}

/// Reverts are recorded exactly where they break an invariant.
proof fn breaking_reverts_are_counted(contract: InvariantContractView, n: nat)
    requires
        n <= contract.invariant_fns.len(),
    ensures
        revert_count(contract, n) > 0 <==> exists|i: int| 0 <= i < n && (#[trigger] contract.invariant_fns[i]).1,
    decreases n,
{
    if n > 0 {
        breaking_reverts_are_counted(contract, (n - 1) as nat);
        if contract.invariant_fns[n - 1].1 {
            assert(0 <= n - 1 < n && contract.invariant_fns[n - 1].1);
        }
    }
}

/// The test can continue exactly where a checked call recorded no failure.
pub proof fn the_test_stops_at_failures<T>(
    contract: InvariantContractView,
    config: InvariantConfig,
    data: TestDataView<T>,
    run: RunView<T>,
    call: CallView<T>,
    checks: ChecksView,
    metric_key: Option<Seq<char>>,
    target_name: Seq<char>,
)
    requires
        reaches_invariants(config, call, checks) ==> checks.invariants.len() == invariant_calls(contract),
    ensures
        verdict(contract, config, call, checks).can_continue == (checked_call(
            contract,
            config,
            data,
            run,
            call,
            checks,
            metric_key,
            target_name,
        ).0.failures.total_failures == data.failures.total_failures),
{
    let n = contract.invariant_fns.len();
    broken_invariants_are_recorded(
        data.failures,
        contract,
        config,
        run.inputs,
        checks.invariants,
        checks.inner_sequence,
        target_name,
        n,
    );
    reverts_are_recorded(data.failures.revert(), contract, config, run.inputs, call.revert_reason, target_name, n);
    breaking_reverts_are_counted(contract, n);
    if reaches_invariants(config, call, checks) && !contract.optimization {
        broken_means_not_all_succeed(checks.invariants, n);
        assert(checks.invariants.take(n as int) =~= checks.invariants);
    }
}

/// Records a failure of `invariant_fn` in the initial state, where it does not hold there. Returns what
/// the call returned, or an error where the invariant does not hold.
pub fn invariant_preflight_check(
    invariant_contract: &InvariantContract,
    invariant_config: &InvariantConfig,
    outcome: &InvariantOutcome,
    calldata: &Vec<BasicTxDetails>,
    inner_sequence: &Vec<Option<BasicTxDetails>>,
    invariant_failures: &mut InvariantFailures,
    target_name: &str,
) -> (r: Result<Vec<u8>, BrokenInvariant>)
    requires
        invariant_contract@.invariant_fn.inputs.len() == 0,
        old(invariant_failures).wf(),
        old(invariant_failures).total_failures < usize::MAX,
    ensures
        r is Ok == outcome@.success,
        r matches Ok(result) ==> result@ == outcome@.result,
        final(invariant_failures).wf(),
        final(invariant_failures)@ == with_failed_check(
            old(invariant_failures)@,
            invariant_contract@,
            *invariant_config,
            tx_models(calldata@),
            outcome@,
            optional_tx_models(inner_sequence@),
            target_name@,
        ),
{
    if !outcome.success {
        let case = FailedInvariantCaseData::new(
            invariant_contract,
            invariant_config.shrink_run_limit,
            invariant_config.fail_on_revert,
            invariant_config.fail_on_assert,
            calldata,
            outcome.revert_reason.as_str(),
            inner_sequence,
        );
        invariant_failures.record_failure(
            FailureKey::new(target_name, invariant_contract.invariant_fn.name.as_str()),
            InvariantFuzzError::BrokenInvariant(case),
        );
        return Err(BrokenInvariant {  });
    }
    Ok(outcome.result.clone())
}

/// Records a failure for each invariant that does not hold. `outcomes` holds, in order, what the
/// call of each gave. Returns what the last call returned, or an error where some invariant does not
/// hold.
pub fn assert_invariants(
    invariant_contract: &InvariantContract,
    invariant_config: &InvariantConfig,
    outcomes: &Vec<InvariantOutcome>,
    calldata: &Vec<BasicTxDetails>,
    inner_sequence: &Vec<Option<BasicTxDetails>>,
    invariant_failures: &mut InvariantFailures,
    target_name: &str,
) -> (r: Result<Option<Vec<u8>>, BrokenInvariant>)
    requires
        invariant_contract@.invariant_fn.inputs.len() == 0,
        outcomes@.len() == invariant_contract@.invariant_fns.len(),
        old(invariant_failures).wf(),
        old(invariant_failures).total_failures + outcomes@.len() <= usize::MAX,
    ensures
        r is Ok == all_succeed(outcome_models(outcomes@)),
        r matches Ok(result) ==> optional_bytes(result) == last_result(outcome_models(outcomes@)),
        final(invariant_failures).wf(),
        final(invariant_failures)@ == with_broken_invariants(
            old(invariant_failures)@,
            invariant_contract@,
            *invariant_config,
            tx_models(calldata@),
            outcome_models(outcomes@),
            optional_tx_models(inner_sequence@),
            target_name@,
            outcomes@.len(),
        ),
        final(invariant_failures).total_failures <= old(invariant_failures).total_failures + outcomes@.len(),
{
    let mut i: usize = 0;
    let mut broken: bool = false;
    let ghost models = outcome_models(outcomes@);
    while i < invariant_contract.invariant_fns.len()
        invariant
            i <= outcomes@.len(),
            models == outcome_models(outcomes@),
            broken == (broken_count(models, i as nat) > 0),
            invariant_contract@.invariant_fn.inputs.len() == 0,
            outcomes@.len() == invariant_contract.invariant_fns@.len(),
            invariant_failures.wf(),
            old(invariant_failures).total_failures + outcomes@.len() <= usize::MAX,
            invariant_failures.total_failures <= old(invariant_failures).total_failures + i,
            invariant_failures@ == with_broken_invariants(
                old(invariant_failures)@,
                invariant_contract@,
                *invariant_config,
                tx_models(calldata@),
                outcome_models(outcomes@),
                optional_tx_models(inner_sequence@),
                target_name@,
                i as nat,
            ),
        decreases outcomes@.len() - i,
    {
        let outcome = &outcomes[i];
        if !outcome.success {
            broken = true;
            let entry = &invariant_contract.invariant_fns[i];
            let case = FailedInvariantCaseData::new(
                invariant_contract,
                invariant_config.shrink_run_limit,
                entry.1,
                invariant_config.fail_on_assert,
                calldata,
                outcome.revert_reason.as_str(),
                inner_sequence,
            );
            invariant_failures.record_failure(
                FailureKey::new(target_name, entry.0.name.as_str()),
                InvariantFuzzError::BrokenInvariant(case),
            );
        }
        i += 1;
    }
    proof {
        broken_means_not_all_succeed(models, i as nat);
        assert(models.take(i as int) =~= models);
    }
    if broken {
        Err(BrokenInvariant {  })
    } else if outcomes.len() == 0 {
        Ok(None)
    } else {
        Ok(Some(outcomes[outcomes.len() - 1].result.clone()))
    }
}

/// The calls that were generated in place of external calls, where calls are generated at all.
pub fn invariant_inner_sequence(last_sequence: &Option<Vec<Option<BasicTxDetails>>>) -> (r: Vec<Option<BasicTxDetails>>)
    ensures
        optional_tx_models(r@) == (match *last_sequence {
            Some(sequence) => optional_tx_models(sequence@),
            None => Seq::empty(),
        }),
{
    match last_sequence {
        Some(sequence) => clone_optional_txs(sequence),
        None => {
            let r: Vec<Option<BasicTxDetails>> = Vec::new();
            assert(optional_tx_models(r@) =~= Seq::empty());
            r
        },
    }
}

/// Records that an assertion failed in a handler.
pub fn record_broken_assertion(
    failures: &mut InvariantFailures,
    invariant_contract: &InvariantContract,
    invariant_config: &InvariantConfig,
    inputs: &Vec<BasicTxDetails>,
    revert_reason: &str,
    target_name: &str,
    handler: &str,
)
    requires
        invariant_contract@.invariant_fn.inputs.len() == 0,
        old(failures).wf(),
        old(failures).total_failures < usize::MAX,
    ensures
        final(failures).wf(),
        final(failures)@ == with_broken_assertion(
            old(failures)@,
            invariant_contract@,
            *invariant_config,
            tx_models(inputs@),
            revert_reason@,
            target_name@,
            handler@,
        ),
{
    let inner: Vec<Option<BasicTxDetails>> = Vec::new();
    assert(optional_tx_models(inner@) =~= Seq::empty());
    let case = FailedInvariantCaseData::new(
        invariant_contract,
        invariant_config.shrink_run_limit,
        invariant_config.fail_on_revert,
        invariant_config.fail_on_assert,
        inputs,
        revert_reason,
        &inner,
    );
    failures.revert_reason = Some(case.revert_reason.clone());
    failures.record_failure(FailureKey::new(target_name, handler), InvariantFuzzError::BrokenAssertion(case));
}

/// Records a revert as a failure of each invariant that a revert breaks.
pub fn record_reverts(
    failures: &mut InvariantFailures,
    invariant_contract: &InvariantContract,
    invariant_config: &InvariantConfig,
    inputs: &Vec<BasicTxDetails>,
    revert_reason: &str,
    target_name: &str,
)
    requires
        invariant_contract@.invariant_fn.inputs.len() == 0,
        old(failures).wf(),
        old(failures).total_failures + invariant_contract@.invariant_fns.len() <= usize::MAX,
    ensures
        final(failures).wf(),
        final(failures)@ == with_reverts(
            old(failures)@,
            invariant_contract@,
            *invariant_config,
            tx_models(inputs@),
            revert_reason@,
            target_name@,
            invariant_contract@.invariant_fns.len(),
        ),
        final(failures).total_failures <= old(failures).total_failures + invariant_contract@.invariant_fns.len(),
{
    let inner: Vec<Option<BasicTxDetails>> = Vec::new();
    assert(optional_tx_models(inner@) =~= Seq::empty());
    let n = invariant_contract.invariant_fns.len();
    let mut i: usize = 0;
    while i < n
        invariant
            i <= n,
            n == invariant_contract.invariant_fns@.len(),
            optional_tx_models(inner@) == Seq::<Option<BasicTxDetailsView>>::empty(),
            invariant_contract@.invariant_fn.inputs.len() == 0,
            failures.wf(),
            old(failures).total_failures + n <= usize::MAX,
            failures.total_failures <= old(failures).total_failures + i,
            failures@ == with_reverts(
                old(failures)@,
                invariant_contract@,
                *invariant_config,
                tx_models(inputs@),
                revert_reason@,
                target_name@,
                i as nat,
            ),
        decreases n - i,
    {
        let entry = &invariant_contract.invariant_fns[i];
        if entry.1 {
            let case = FailedInvariantCaseData::new(
                invariant_contract,
                invariant_config.shrink_run_limit,
                entry.1,
                invariant_config.fail_on_assert,
                inputs,
                revert_reason,
                &inner,
            );
            failures.record_failure(
                FailureKey::new(target_name, entry.0.name.as_str()),
                InvariantFuzzError::Revert(case),
            );
        }
        i += 1;
    }
}

/// Checks a call of the sequence: a failed assertion is recorded, a revert is counted and
/// recorded where it breaks an invariant, and otherwise the invariants are checked, or the value
/// to maximize is kept. A reverted call is dropped from the sequence, unless a value is
/// maximized. Tells whether the test can continue, and what the last call of the invariant returned.
pub fn process_call_result<T>(
    invariant_contract: &InvariantContract,
    invariant_test: &mut InvariantTest<T>,
    invariant_run: &mut InvariantTestRun<T>,
    invariant_config: &InvariantConfig,
    call_result: CallOutcome<T>,
    checks: &CheckOutcomes,
    metric_key: &Option<String>,
    target_name: &str,
) -> (r: CallVerdict)
    requires
        invariant_contract@.invariant_fn.inputs.len() == 0,
        reaches_handlers(*invariant_config, call_result@, checks@) ==> checks.handlers@.len() == old(
            invariant_test,
        ).targeted_contracts.targets@.dom().len(),
        reaches_invariants(*invariant_config, call_result@, checks@) ==> checks.invariants@.len() == invariant_calls(
            invariant_contract@,
        ),
        old(invariant_test).wf(),
        old(invariant_test).test_data.failures.reverts < usize::MAX,
        old(invariant_test).test_data.failures.total_failures + invariant_contract@.invariant_fns.len() < usize::MAX,
    ensures
        r@ == verdict(invariant_contract@, *invariant_config, call_result@, checks@),
        final(invariant_test).wf(),
        final(invariant_test).targeted_contracts == old(invariant_test).targeted_contracts,
        final(invariant_test).sender_filters == old(invariant_test).sender_filters,
        (final(invariant_test).test_data@, final(invariant_run)@) == checked_call(
            invariant_contract@,
            *invariant_config,
            old(invariant_test).test_data@,
            old(invariant_run)@,
            call_result@,
            checks@,
            optional_text(*metric_key),
            target_name@,
        ),
{
    let is_optimization = invariant_contract.is_optimization();
    let reason = call_result.revert_reason;

    if invariant_config.fail_on_assert && (call_result.assert_failure || checks.global_failure) {
        invariant_test.test_data.failures.reverts += 1;
        record_broken_assertion(
            &mut invariant_test.test_data.failures,
            invariant_contract,
            invariant_config,
            &invariant_run.inputs,
            reason.as_str(),
            target_name,
            handler_of(metric_key),
        );
        return CallVerdict { can_continue: false, call_result: None };
    }
    if !call_result.reverted && are_all_set(&checks.handlers) {
        if let Some(traces) = call_result.traces {
            invariant_run.run_traces.push(traces);
        }
        if is_optimization {
            let outcome = &checks.invariants[0];
            if let Some(value) = value_returned(outcome) {
                invariant_test.update_optimization_value(value, &invariant_run.inputs);
            }
            let result = if outcome.success {
                Some(outcome.result.clone())
            } else {
                None
            };
            CallVerdict { can_continue: true, call_result: result }
        } else {
            let asserted = assert_invariants(
                invariant_contract,
                invariant_config,
                &checks.invariants,
                &invariant_run.inputs,
                &checks.inner_sequence,
                &mut invariant_test.test_data.failures,
                target_name,
            );
            match asserted {
                Ok(result) => CallVerdict { can_continue: true, call_result: result },
                Err(_) => CallVerdict { can_continue: false, call_result: None },
            }
        }
    } else {
        invariant_test.test_data.failures.reverts += 1;
        let before = invariant_test.test_data.failures.total_failures;
        proof {
            let n = invariant_contract@.invariant_fns.len();
            breaking_reverts_are_counted(invariant_contract@, n);
            reverts_are_recorded(
                invariant_test.test_data@.failures,
                invariant_contract@,
                *invariant_config,
                invariant_run@.inputs,
                reason@,
                target_name@,
                n,
            );
        }
        record_reverts(
            &mut invariant_test.test_data.failures,
            invariant_contract,
            invariant_config,
            &invariant_run.inputs,
            reason.as_str(),
            target_name,
        );
        if !is_optimization {
            invariant_run.pop_input();
        }
        let can_continue = invariant_test.test_data.failures.total_failures == before;
        CallVerdict { can_continue, call_result: None }
    }
}

/// Takes note of a call of the sequence whose invariants are not checked: a failed assertion is
/// recorded; a revert is counted, and is recorded where it breaks an invariant or else drops the
/// call from the sequence, unless a value is maximized.
pub fn process_unchecked_call<T>(
    invariant_contract: &InvariantContract,
    invariant_test: &mut InvariantTest<T>,
    invariant_run: &mut InvariantTestRun<T>,
    invariant_config: &InvariantConfig,
    call_result: &CallOutcome<T>,
    global_failure: bool,
    metric_key: &Option<String>,
    target_name: &str,
)
    requires
        invariant_contract@.invariant_fn.inputs.len() == 0,
        old(invariant_test).wf(),
        old(invariant_test).test_data.failures.reverts < usize::MAX,
        old(invariant_test).test_data.failures.total_failures + invariant_contract@.invariant_fns.len() < usize::MAX,
    ensures
        final(invariant_test).wf(),
        final(invariant_test).targeted_contracts == old(invariant_test).targeted_contracts,
        final(invariant_test).sender_filters == old(invariant_test).sender_filters,
        (final(invariant_test).test_data@, final(invariant_run)@) == unchecked_call(
            invariant_contract@,
            *invariant_config,
            old(invariant_test).test_data@,
            old(invariant_run)@,
            call_result@,
            global_failure,
            optional_text(*metric_key),
            target_name@,
        ),
{
    if invariant_config.fail_on_assert && (call_result.assert_failure || global_failure) {
        record_broken_assertion(
            &mut invariant_test.test_data.failures,
            invariant_contract,
            invariant_config,
            &invariant_run.inputs,
            call_result.revert_reason.as_str(),
            target_name,
            handler_of(metric_key),
        );
    }
    if call_result.reverted {
        invariant_test.test_data.failures.reverts += 1;
        if invariant_config.fail_on_revert {
            record_reverts(
                &mut invariant_test.test_data.failures,
                invariant_contract,
                invariant_config,
                &invariant_run.inputs,
                call_result.revert_reason.as_str(),
                target_name,
            );
        } else if !invariant_contract.is_optimization() {
            invariant_run.pop_input();
        }
    }
}

/// Records a failure where `afterInvariant` did not succeed. Returns whether it did.
pub fn assert_after_invariant<T>(
    invariant_contract: &InvariantContract,
    invariant_test: &mut InvariantTest<T>,
    invariant_run: &InvariantTestRun<T>,
    invariant_config: &InvariantConfig,
    outcome: &InvariantOutcome,
    target_name: &str,
) -> (r: bool)
    requires
        invariant_contract@.invariant_fn.inputs.len() == 0,
        old(invariant_test).wf(),
        old(invariant_test).test_data.failures.total_failures < usize::MAX,
    ensures
        r == outcome.success,
        final(invariant_test).wf(),
        final(invariant_test).targeted_contracts == old(invariant_test).targeted_contracts,
        final(invariant_test).sender_filters == old(invariant_test).sender_filters,
        final(invariant_test).test_data@ == (TestDataView {
            failures: with_failed_check(
                old(invariant_test).test_data@.failures,
                invariant_contract@,
                *invariant_config,
                invariant_run@.inputs,
                outcome@,
                Seq::empty(),
                target_name@,
            ),
            ..old(invariant_test).test_data@
        }),
{
    if !outcome.success {
        let inner: Vec<Option<BasicTxDetails>> = Vec::new();
        assert(optional_tx_models(inner@) =~= Seq::empty());
        let case = FailedInvariantCaseData::new(
            invariant_contract,
            invariant_config.shrink_run_limit,
            invariant_config.fail_on_revert,
            invariant_config.fail_on_assert,
            &invariant_run.inputs,
            outcome.revert_reason.as_str(),
            &inner,
        );
        invariant_test.set_error(
            FailureKey::new(target_name, invariant_contract.invariant_fn.name.as_str()),
            InvariantFuzzError::BrokenInvariant(case),
        );
    }
    outcome.success
}

/// The key of a failure tells which function of the contract failed.
proof fn keys_tell_functions_apart(contract_name: Seq<char>, a: Seq<char>, b: Seq<char>)
    requires
        failure_key(contract_name, a) == failure_key(contract_name, b),
    ensures
        a == b,
{
    let n = contract_name.len() as int;
    assert(failure_key(contract_name, a).skip(n + 1) =~= a);
    assert(failure_key(contract_name, b).skip(n + 1) =~= b);
}

/// What is recorded for an invariant that does not hold, where no later one that does not hold has its
/// name; and what is recorded in any case.
proof fn a_broken_invariant_is_recorded(
    failures: FailuresView,
    contract: InvariantContractView,
    config: InvariantConfig,
    inputs: Seq<BasicTxDetailsView>,
    outcomes: Seq<OutcomeView>,
    inner_sequence: Seq<Option<BasicTxDetailsView>>,
    target_name: Seq<char>,
    n: nat,
    i: int,
)
    requires
        0 <= i < n,
        !outcomes[i].success,
    ensures
        ({
            let after = with_broken_invariants(
                failures,
                contract,
                config,
                inputs,
                outcomes,
                inner_sequence,
                target_name,
                n,
            );
            let key = failure_key(target_name, contract.invariant_fns[i].0.name);
            &&& after.errors.dom().contains(key)
            &&& after.errors[key] matches ErrorView::BrokenInvariant(case)
            &&& case.sequence == inputs
            &&& case.inner_sequence == inner_sequence
            &&& case.addr == contract.address
            &&& case.calldata == contract.invariant_fn.selector().bytes@
            &&& case.return_reason.len() == 0
            &&& case.shrink_run_limit == config.shrink_run_limit
            &&& case.fail_on_assert == config.fail_on_assert
            &&& (forall|j: int|
                i < j < n && !(#[trigger] outcomes[j]).success ==> contract.invariant_fns[j].0.name
                    != contract.invariant_fns[i].0.name) ==> {
                &&& case.revert_reason == outcomes[i].revert_reason
                &&& case.reason == contract.invariant_fn.name + reason_separator() + outcomes[i].revert_reason
                &&& case.fail_on_revert == contract.invariant_fns[i].1
            }
        }),
    decreases n,
{
    if i < n - 1 {
        a_broken_invariant_is_recorded(
            failures,
            contract,
            config,
            inputs,
            outcomes,
            inner_sequence,
            target_name,
            (n - 1) as nat,
            i,
        );
        let last = contract.invariant_fns[n - 1].0.name;
        let name = contract.invariant_fns[i].0.name;
        if failure_key(target_name, last) == failure_key(target_name, name) {
            keys_tell_functions_apart(target_name, last, name);
        }
        assert(outcomes[n - 1].success || !outcomes[n - 1].success);
    }
}

/// Under keys of no invariant that does not hold nothing changes.
proof fn other_keys_are_kept_where_invariants_break(
    failures: FailuresView,
    contract: InvariantContractView,
    config: InvariantConfig,
    inputs: Seq<BasicTxDetailsView>,
    outcomes: Seq<OutcomeView>,
    inner_sequence: Seq<Option<BasicTxDetailsView>>,
    target_name: Seq<char>,
    n: nat,
    key: Seq<char>,
)
    requires
        forall|i: int|
            0 <= i < n && !(#[trigger] outcomes[i]).success ==> key != failure_key(
                target_name,
                contract.invariant_fns[i].0.name,
            ),
    ensures
        ({
            let after = with_broken_invariants(
                failures,
                contract,
                config,
                inputs,
                outcomes,
                inner_sequence,
                target_name,
                n,
            );
            &&& after.errors.dom().contains(key) == failures.errors.dom().contains(key)
            &&& failures.errors.dom().contains(key) ==> after.errors[key] == failures.errors[key]
        }),
    decreases n,
{
    if n > 0 {
        other_keys_are_kept_where_invariants_break(
            failures,
            contract,
            config,
            inputs,
            outcomes,
            inner_sequence,
            target_name,
            (n - 1) as nat,
            key,
        );
        assert(outcomes[n - 1].success || !outcomes[n - 1].success);
    }
}

/// The number of broken invariants is the number of outcomes without success.
proof fn broken_invariants_are_counted(outcomes: Seq<OutcomeView>, n: nat)
    requires
        n <= outcomes.len(),
    ensures
        broken_count(outcomes, n) == outcomes.take(n as int).filter(|outcome: OutcomeView| !outcome.success).len(),
    decreases n,
{
    reveal(Seq::filter);
    if n > 0 {
        broken_invariants_are_counted(outcomes, (n - 1) as nat);
        assert(outcomes.take(n as int).drop_last() =~= outcomes.take(n - 1));
    }
}

/// After a call that reaches the invariants, each invariant that does not hold is recorded under the
/// name of the test and its own name, as broken by the whole call sequence of the run, this call
/// included, and with the reason that its own call gave. As many failures are counted as invariants do
/// not hold, nothing changes under other keys, and neither the reverts nor the sequence of the run do.
pub proof fn broken_invariants_keep_the_sequence_that_broke_them<T>(
    contract: InvariantContractView,
    config: InvariantConfig,
    data: TestDataView<T>,
    run: RunView<T>,
    call: CallView<T>,
    checks: ChecksView,
    metric_key: Option<Seq<char>>,
    target_name: Seq<char>,
    i: int,
    other: Seq<char>,
)
    requires
        !contract.optimization,
        !config.fail_on_assert || !call.assert_failure && !checks.global_failure,
        !call.reverted,
        forall|k: int| 0 <= k < checks.handlers.len() ==> checks.handlers[k],
        checks.invariants.len() == contract.invariant_fns.len(),
        0 <= i < checks.invariants.len(),
    ensures
        ({
            let (after, kept) = checked_call(contract, config, data, run, call, checks, metric_key, target_name);
            let errors = after.failures.errors;
            let key = target_name + seq![':'] + contract.invariant_fns[i].0.name;
            &&& kept.inputs == run.inputs
            &&& after.failures.reverts == data.failures.reverts
            &&& after.failures.revert_reason == data.failures.revert_reason
            &&& after.failures.total_failures == data.failures.total_failures + checks.invariants.filter(
                |outcome: OutcomeView| !outcome.success,
            ).len()
            &&& !checks.invariants[i].success ==> {
                &&& errors.dom().contains(key)
                &&& errors[key] matches ErrorView::BrokenInvariant(case)
                &&& case.sequence == run.inputs
                &&& case.inner_sequence == checks.inner_sequence
                &&& case.addr == contract.address
                &&& case.calldata == contract.invariant_fn.selector().bytes@
                &&& case.return_reason.len() == 0
                &&& case.shrink_run_limit == config.shrink_run_limit
                &&& case.fail_on_assert == config.fail_on_assert
                &&& (forall|j: int|
                    i < j < checks.invariants.len() && !(#[trigger] checks.invariants[j]).success
                        ==> contract.invariant_fns[j].0.name != contract.invariant_fns[i].0.name) ==> {
                    &&& case.revert_reason == checks.invariants[i].revert_reason
                    &&& case.reason == contract.invariant_fn.name + ", reason: "@ + checks.invariants[i].revert_reason
                    &&& case.fail_on_revert == contract.invariant_fns[i].1
                }
            }
            &&& (forall|j: int|
                0 <= j < checks.invariants.len() && !(#[trigger] checks.invariants[j]).success ==> other != target_name
                    + seq![':'] + contract.invariant_fns[j].0.name) ==> {
                &&& errors.dom().contains(other) == data.failures.errors.dom().contains(other)
                &&& data.failures.errors.dom().contains(other) ==> errors[other] == data.failures.errors[other]
            }
        }),
{
    let n = contract.invariant_fns.len();
    reveal_strlit(", reason: ");
    assert(", reason: "@ =~= reason_separator());
    broken_invariants_are_recorded(
        data.failures,
        contract,
        config,
        run.inputs,
        checks.invariants,
        checks.inner_sequence,
        target_name,
        n,
    );
    broken_invariants_are_counted(checks.invariants, n);
    assert(checks.invariants.take(n as int) =~= checks.invariants);
    if !checks.invariants[i].success {
        a_broken_invariant_is_recorded(
            data.failures,
            contract,
            config,
            run.inputs,
            checks.invariants,
            checks.inner_sequence,
            target_name,
            n,
            i,
        );
    }
    if forall|j: int|
        0 <= j < checks.invariants.len() && !(#[trigger] checks.invariants[j]).success ==> other != target_name
            + seq![':'] + contract.invariant_fns[j].0.name {
        assert forall|j: int| 0 <= j < n && !(#[trigger] checks.invariants[j]).success implies other != failure_key(
            target_name,
            contract.invariant_fns[j].0.name,
        ) by {}
        other_keys_are_kept_where_invariants_break(
            data.failures,
            contract,
            config,
            run.inputs,
            checks.invariants,
            checks.inner_sequence,
            target_name,
            n,
            other,
        );
    }
}

/// What is recorded for an invariant that a revert breaks.
proof fn a_breaking_revert_is_recorded(
    failures: FailuresView,
    contract: InvariantContractView,
    config: InvariantConfig,
    inputs: Seq<BasicTxDetailsView>,
    revert_reason: Seq<char>,
    target_name: Seq<char>,
    n: nat,
    i: int,
)
    requires
        0 <= i < n,
        contract.invariant_fns[i].1,
    ensures
        ({
            let after = with_reverts(failures, contract, config, inputs, revert_reason, target_name, n);
            let key = failure_key(target_name, contract.invariant_fns[i].0.name);
            &&& after.errors.dom().contains(key)
            &&& after.errors[key] matches ErrorView::Revert(case)
            &&& case.sequence == inputs
            &&& case.inner_sequence.len() == 0
            &&& case.revert_reason == revert_reason
            &&& case.reason == contract.invariant_fn.name + reason_separator() + revert_reason
            &&& case.addr == contract.address
            &&& case.calldata == contract.invariant_fn.selector().bytes@
            &&& case.return_reason.len() == 0
            &&& case.shrink_run_limit == config.shrink_run_limit
            &&& case.fail_on_revert
            &&& case.fail_on_assert == config.fail_on_assert
        }),
    decreases n,
{
    if i < n - 1 {
        a_breaking_revert_is_recorded(
            failures,
            contract,
            config,
            inputs,
            revert_reason,
            target_name,
            (n - 1) as nat,
            i,
        );
    }
}

/// Under keys of no invariant that a revert breaks nothing changes.
proof fn other_keys_are_kept_where_calls_revert(
    failures: FailuresView,
    contract: InvariantContractView,
    config: InvariantConfig,
    inputs: Seq<BasicTxDetailsView>,
    revert_reason: Seq<char>,
    target_name: Seq<char>,
    n: nat,
    key: Seq<char>,
)
    requires
        forall|i: int|
            0 <= i < n && (#[trigger] contract.invariant_fns[i]).1 ==> key != failure_key(
                target_name,
                contract.invariant_fns[i].0.name,
            ),
    ensures
        ({
            let after = with_reverts(failures, contract, config, inputs, revert_reason, target_name, n);
            &&& after.errors.dom().contains(key) == failures.errors.dom().contains(key)
            &&& failures.errors.dom().contains(key) ==> after.errors[key] == failures.errors[key]
        }),
    decreases n,
{
    if n > 0 {
        other_keys_are_kept_where_calls_revert(
            failures,
            contract,
            config,
            inputs,
            revert_reason,
            target_name,
            (n - 1) as nat,
            key,
        );
        assert(contract.invariant_fns[n - 1].1 || !contract.invariant_fns[n - 1].1);
    }
}

/// The number of recorded reverts is the number of invariants that a revert breaks.
proof fn recorded_reverts_are_counted(contract: InvariantContractView, n: nat)
    requires
        n <= contract.invariant_fns.len(),
    ensures
        revert_count(contract, n) == contract.invariant_fns.take(n as int).filter(
            |entry: (AbiFunctionView, bool)| entry.1,
        ).len(),
    decreases n,
{
    reveal(Seq::filter);
    if n > 0 {
        recorded_reverts_are_counted(contract, (n - 1) as nat);
        assert(contract.invariant_fns.take(n as int).drop_last() =~= contract.invariant_fns.take(n - 1));
    }
}

/// After a checked call that reverts, or that some handler does not report success for, one revert more
/// is counted, and each invariant that a revert breaks is recorded under the name of the test and its
/// own name, as reverted by the whole call sequence of the run, which ends with this call. Only then
/// the call leaves the sequence, unless a value is maximized. Nothing changes under other keys.
pub proof fn reverts_keep_the_sequence_that_reverted<T>(
    contract: InvariantContractView,
    config: InvariantConfig,
    data: TestDataView<T>,
    run: RunView<T>,
    call: CallView<T>,
    checks: ChecksView,
    metric_key: Option<Seq<char>>,
    target_name: Seq<char>,
    i: int,
    other: Seq<char>,
)
    requires
        !config.fail_on_assert || !call.assert_failure && !checks.global_failure,
        call.reverted || exists|k: int| 0 <= k < checks.handlers.len() && !checks.handlers[k],
    ensures
        ({
            let (after, kept) = checked_call(contract, config, data, run, call, checks, metric_key, target_name);
            let errors = after.failures.errors;
            let key = target_name + seq![':'] + contract.invariant_fns[i].0.name;
            &&& after.failures.reverts == data.failures.reverts + 1
            &&& after.failures.revert_reason == data.failures.revert_reason
            &&& after.failures.total_failures == data.failures.total_failures + contract.invariant_fns.filter(
                |entry: (AbiFunctionView, bool)| entry.1,
            ).len()
            &&& kept.inputs == (if contract.optimization || run.inputs.len() == 0 {
                run.inputs
            } else {
                run.inputs.drop_last()
            })
            &&& kept.run_traces == run.run_traces
            &&& after.optimization_best_value == data.optimization_best_value
            &&& after.optimization_best_sequence == data.optimization_best_sequence
            &&& 0 <= i < contract.invariant_fns.len() && contract.invariant_fns[i].1 ==> {
                &&& errors.dom().contains(key)
                &&& errors[key] matches ErrorView::Revert(case)
                &&& case.sequence == run.inputs
                &&& case.inner_sequence.len() == 0
                &&& case.revert_reason == call.revert_reason
                &&& case.reason == contract.invariant_fn.name + ", reason: "@ + call.revert_reason
                &&& case.addr == contract.address
                &&& case.calldata == contract.invariant_fn.selector().bytes@
                &&& case.return_reason.len() == 0
                &&& case.shrink_run_limit == config.shrink_run_limit
                &&& case.fail_on_revert
                &&& case.fail_on_assert == config.fail_on_assert
            }
            &&& (forall|j: int|
                0 <= j < contract.invariant_fns.len() && (#[trigger] contract.invariant_fns[j]).1 ==> other
                    != target_name + seq![':'] + contract.invariant_fns[j].0.name) ==> {
                &&& errors.dom().contains(other) == data.failures.errors.dom().contains(other)
                &&& data.failures.errors.dom().contains(other) ==> errors[other] == data.failures.errors[other]
            }
        }),
{
    let n = contract.invariant_fns.len();
    let failures = data.failures.revert();
    reveal_strlit(", reason: ");
    assert(", reason: "@ =~= reason_separator());
    assert(!(!call.reverted && all_set(checks.handlers)));
    reverts_are_recorded(failures, contract, config, run.inputs, call.revert_reason, target_name, n);
    recorded_reverts_are_counted(contract, n);
    assert(contract.invariant_fns.take(n as int) =~= contract.invariant_fns);
    if 0 <= i < n && contract.invariant_fns[i].1 {
        a_breaking_revert_is_recorded(
            failures,
            contract,
            config,
            run.inputs,
            call.revert_reason,
            target_name,
            n,
            i,
        );
    }
    if forall|j: int|
        0 <= j < contract.invariant_fns.len() && (#[trigger] contract.invariant_fns[j]).1 ==> other != target_name
            + seq![':'] + contract.invariant_fns[j].0.name {
        other_keys_are_kept_where_calls_revert(
            failures,
            contract,
            config,
            run.inputs,
            call.revert_reason,
            target_name,
            n,
            other,
        );
    }
}

/// The key that a failed assertion of a handler is recorded under ends with what follows the last dot
/// of the metric key, or with `unknown` where there is no metric key.
pub proof fn failed_assertions_name_the_handler(prefix: Seq<char>, name: Seq<char>)
    requires
        !name.contains('.'),
    ensures
        handler_name(Some(prefix + seq!['.'] + name)) == name,
        handler_name(Some(name)) == name,
        handler_name(None) == "unknown"@,
{
    let key = prefix + seq!['.'] + name;
    let at = prefix.len() as int;
    key.index_of_last_ensures('.');
    assert(key[at] == '.');
    assert(key.contains('.'));
    let last = key.index_of_last('.')->0;
    assert(last == at) by {
        if last > at {
            assert(name[last - at - 1] == '.');
        }
    }
    assert(key.skip(at + 1) =~= name);
    name.index_of_last_ensures('.');
}

/// After a checked call that fails an assertion, where failed assertions are failures, the failure is
/// recorded under the name of the test and that of the handler, with the whole call sequence of the run,
/// which keeps the call. One revert and one failure more are counted, the reason is the latest one, and
/// nothing changes under other keys.
pub proof fn failed_assertions_keep_the_sequence_that_failed<T>(
    contract: InvariantContractView,
    config: InvariantConfig,
    data: TestDataView<T>,
    run: RunView<T>,
    call: CallView<T>,
    checks: ChecksView,
    metric_key: Option<Seq<char>>,
    target_name: Seq<char>,
    other: Seq<char>,
)
    requires
        config.fail_on_assert,
        call.assert_failure || checks.global_failure,
    ensures
        ({
            let (after, kept) = checked_call(contract, config, data, run, call, checks, metric_key, target_name);
            let errors = after.failures.errors;
            let key = target_name + seq![':'] + handler_name(metric_key);
            &&& kept == run
            &&& after.failures.reverts == data.failures.reverts + 1
            &&& after.failures.total_failures == data.failures.total_failures + 1
            &&& after.failures.revert_reason == Some(call.revert_reason)
            &&& after.optimization_best_value == data.optimization_best_value
            &&& other != key ==> errors.dom().contains(other) == data.failures.errors.dom().contains(other)
            &&& other != key && errors.dom().contains(other) ==> errors[other] == data.failures.errors[other]
            &&& errors.dom().contains(key)
            &&& errors[key] matches ErrorView::BrokenAssertion(case)
            &&& case.sequence == run.inputs
            &&& case.inner_sequence.len() == 0
            &&& case.revert_reason == call.revert_reason
            &&& case.reason == contract.invariant_fn.name + ", reason: "@ + call.revert_reason
            &&& case.addr == contract.address
            &&& case.calldata == contract.invariant_fn.selector().bytes@
            &&& case.return_reason.len() == 0
            &&& case.shrink_run_limit == config.shrink_run_limit
            &&& case.fail_on_revert == config.fail_on_revert
            &&& case.fail_on_assert
        }),
{
    reveal_strlit(", reason: ");
    assert(", reason: "@ =~= reason_separator());
}

/// Where a value is maximized, a call that reaches the invariant keeps the first 32 bytes that the
/// invariant returned as the best value, with the whole call sequence of the run, if the invariant held
/// and they are larger than the best value so far, or there is none. Otherwise the best value and its
/// sequence stay. Nothing else of the data changes, and neither does the sequence of the run.
pub proof fn the_largest_returned_value_is_kept<T>(
    contract: InvariantContractView,
    config: InvariantConfig,
    data: TestDataView<T>,
    run: RunView<T>,
    call: CallView<T>,
    checks: ChecksView,
    metric_key: Option<Seq<char>>,
    target_name: Seq<char>,
    value: Word,
)
    requires
        contract.optimization,
        !config.fail_on_assert || !call.assert_failure && !checks.global_failure,
        !call.reverted,
        forall|k: int| 0 <= k < checks.handlers.len() ==> checks.handlers[k],
        checks.invariants.len() == 1,
        checks.invariants[0].result.len() >= 32 ==> value.bytes@ == checks.invariants[0].result.take(32),
    ensures
        ({
            let (after, kept) = checked_call(contract, config, data, run, call, checks, metric_key, target_name);
            let returned = checks.invariants[0].success && checks.invariants[0].result.len() >= 32;
            &&& kept.inputs == run.inputs
            &&& after == (TestDataView {
                optimization_best_value: after.optimization_best_value,
                optimization_best_sequence: after.optimization_best_sequence,
                ..data
            })
            &&& if returned && (data.optimization_best_value matches Some(best) ==> value.signed_value()
                > best.signed_value()) {
                after.optimization_best_value == Some(value) && after.optimization_best_sequence == run.inputs
            } else {
                after.optimization_best_value == data.optimization_best_value && after.optimization_best_sequence
                    == data.optimization_best_sequence
            }
        }),
{
    word_of_its_bytes(value);
}

/// The trace of a call, where one was taken, joins those of the run exactly where the invariants are
/// called.
pub proof fn traces_are_kept_where_invariants_are_called<T>(
    contract: InvariantContractView,
    config: InvariantConfig,
    data: TestDataView<T>,
    run: RunView<T>,
    call: CallView<T>,
    checks: ChecksView,
    metric_key: Option<Seq<char>>,
    target_name: Seq<char>,
)
    ensures
        ({
            let kept = checked_call(contract, config, data, run, call, checks, metric_key, target_name).1;
            let called = (!config.fail_on_assert || !call.assert_failure && !checks.global_failure) && !call.reverted
                && forall|k: int| 0 <= k < checks.handlers.len() ==> checks.handlers[k];
            &&& called && call.traces is Some ==> kept.run_traces == run.run_traces.push(call.traces->0)
            &&& !called || call.traces is None ==> kept.run_traces == run.run_traces
            &&& kept.depth == run.depth
            &&& kept.rejects == run.rejects
            &&& kept.fuzz_runs == run.fuzz_runs
            &&& kept.created_contracts == run.created_contracts
            &&& kept.new_coverage == run.new_coverage
        }),
{
}

/// A call whose invariants are not checked still has its failed assertion recorded, under the name of the
/// test and that of the handler and with the whole call sequence; and where reverts fail the campaign, a
/// revert is recorded for each invariant that a revert breaks, with the whole call sequence, which then
/// keeps the call. Where they do not, the reverted call leaves the sequence, unless a value is maximized.
/// Every revert is counted, and a call that neither fails an assertion nor reverts changes nothing.
pub proof fn unchecked_failures_keep_the_sequence_that_failed<T>(
    contract: InvariantContractView,
    config: InvariantConfig,
    data: TestDataView<T>,
    run: RunView<T>,
    call: CallView<T>,
    global_failure: bool,
    metric_key: Option<Seq<char>>,
    target_name: Seq<char>,
    i: int,
)
    ensures
        ({
            let (after, kept) = unchecked_call(
                contract,
                config,
                data,
                run,
                call,
                global_failure,
                metric_key,
                target_name,
            );
            let errors = after.failures.errors;
            let asserted = config.fail_on_assert && (call.assert_failure || global_failure);
            let recorded = call.reverted && config.fail_on_revert;
            let key = target_name + seq![':'] + contract.invariant_fns[i].0.name;
            let handler = target_name + seq![':'] + handler_name(metric_key);
            let breaking = contract.invariant_fns.filter(|entry: (AbiFunctionView, bool)| entry.1).len();
            &&& after == (TestDataView { failures: after.failures, ..data })
            &&& kept == (RunView { inputs: kept.inputs, ..run })
            &&& kept.inputs == (if call.reverted && !config.fail_on_revert && !contract.optimization
                && run.inputs.len() > 0 {
                run.inputs.drop_last()
            } else {
                run.inputs
            })
            &&& after.failures.reverts == data.failures.reverts + if call.reverted {
                1int
            } else {
                0int
            }
            &&& after.failures.total_failures == data.failures.total_failures + (if asserted {
                1int
            } else {
                0int
            }) + if recorded {
                breaking as int
            } else {
                0int
            }
            &&& after.failures.revert_reason == (if asserted {
                Some(call.revert_reason)
            } else {
                data.failures.revert_reason
            })
            &&& !asserted && !recorded ==> errors == data.failures.errors
            &&& recorded && 0 <= i < contract.invariant_fns.len() && contract.invariant_fns[i].1 ==> {
                &&& errors.dom().contains(key)
                &&& errors[key] matches ErrorView::Revert(case)
                &&& case.sequence == run.inputs
                &&& case.revert_reason == call.revert_reason
                &&& case.fail_on_revert
            }
            &&& asserted && (recorded ==> forall|j: int|
                0 <= j < contract.invariant_fns.len() && (#[trigger] contract.invariant_fns[j]).1 ==> handler
                    != target_name + seq![':'] + contract.invariant_fns[j].0.name) ==> {
                &&& errors.dom().contains(handler)
                &&& errors[handler] matches ErrorView::BrokenAssertion(case)
                &&& case.sequence == run.inputs
                &&& case.revert_reason == call.revert_reason
                &&& case.fail_on_revert == config.fail_on_revert
                &&& case.fail_on_assert
            }
        }),
{
    let n = contract.invariant_fns.len();
    let asserted = if assertion_broken(config, call.assert_failure, global_failure) {
        with_broken_assertion(
            data.failures,
            contract,
            config,
            run.inputs,
            call.revert_reason,
            target_name,
            handler_name(metric_key),
        )
    } else {
        data.failures
    };
    let handler = failure_key(target_name, handler_name(metric_key));
    reverts_are_recorded(asserted.revert(), contract, config, run.inputs, call.revert_reason, target_name, n);
    recorded_reverts_are_counted(contract, n);
    assert(contract.invariant_fns.take(n as int) =~= contract.invariant_fns);
    if 0 <= i < n && contract.invariant_fns[i].1 {
        a_breaking_revert_is_recorded(
            asserted.revert(),
            contract,
            config,
            run.inputs,
            call.revert_reason,
            target_name,
            n,
            i,
        );
    }
    if forall|j: int|
        0 <= j < contract.invariant_fns.len() && (#[trigger] contract.invariant_fns[j]).1 ==> handler != target_name
            + seq![':'] + contract.invariant_fns[j].0.name {
        other_keys_are_kept_where_calls_revert(
            asserted.revert(),
            contract,
            config,
            run.inputs,
            call.revert_reason,
            target_name,
            n,
            handler,
        );
    }
}

/// A check outside the sequence that fails is recorded under the name of the test and that of the
/// invariant that names the campaign, as a broken invariant with the given call sequence. One that
/// succeeds changes nothing.
pub proof fn failed_checks_keep_the_sequence_that_failed(
    failures: FailuresView,
    contract: InvariantContractView,
    config: InvariantConfig,
    inputs: Seq<BasicTxDetailsView>,
    outcome: OutcomeView,
    inner_sequence: Seq<Option<BasicTxDetailsView>>,
    target_name: Seq<char>,
    other: Seq<char>,
)
    ensures
        ({
            let after = with_failed_check(failures, contract, config, inputs, outcome, inner_sequence, target_name);
            let key = target_name + seq![':'] + contract.invariant_fn.name;
            &&& outcome.success ==> after == failures
            &&& after.reverts == failures.reverts
            &&& !outcome.success ==> {
                &&& after.total_failures == failures.total_failures + 1
                &&& other != key ==> after.errors.dom().contains(other) == failures.errors.dom().contains(other)
                &&& other != key && after.errors.dom().contains(other) ==> after.errors[other] == failures.errors[other]
                &&& after.errors.dom().contains(key)
                &&& after.errors[key] matches ErrorView::BrokenInvariant(case)
                &&& case.sequence == inputs
                &&& case.inner_sequence == inner_sequence
                &&& case.revert_reason == outcome.revert_reason
                &&& case.reason == contract.invariant_fn.name + ", reason: "@ + outcome.revert_reason
                &&& case.addr == contract.address
                &&& case.calldata == contract.invariant_fn.selector().bytes@
                &&& case.shrink_run_limit == config.shrink_run_limit
                &&& case.fail_on_revert == config.fail_on_revert
                &&& case.fail_on_assert == config.fail_on_assert
            }
        }),
{
    reveal_strlit(", reason: ");
    assert(", reason: "@ =~= reason_separator());
}

/// What a checked call means for the test, from what was asked: a failed assertion, a broken invariant and
/// a revert that breaks an invariant stop it, and nothing else does. What the last invariant returned is
/// told only where all of them hold, and where a value is maximized, what the invariant returned where it
/// holds.
pub proof fn only_failures_stop_the_test<T>(
    contract: InvariantContractView,
    config: InvariantConfig,
    call: CallView<T>,
    checks: ChecksView,
)
    requires
        contract.optimization ==> checks.invariants.len() == 1,
    ensures
        ({
            let told = verdict(contract, config, call, checks);
            let asserted = config.fail_on_assert && (call.assert_failure || checks.global_failure);
            let failed = call.reverted || exists|k: int| 0 <= k < checks.handlers.len() && !checks.handlers[k];
            let broken = exists|k: int| 0 <= k < checks.invariants.len() && !(#[trigger] checks.invariants[k]).success;
            let breaks = exists|k: int|
                0 <= k < contract.invariant_fns.len() && (#[trigger] contract.invariant_fns[k]).1;
            &&& asserted ==> !told.can_continue && told.call_result is None
            &&& !asserted && failed ==> told.can_continue == !breaks && told.call_result is None
            &&& !asserted && !failed && contract.optimization ==> told.can_continue && told.call_result == (
            if broken {
                None
            } else {
                Some(checks.invariants[0].result)
            })
            &&& !asserted && !failed && !contract.optimization ==> told.can_continue == !broken && told.call_result == (
            if broken || checks.invariants.len() == 0 {
                None
            } else {
                Some(checks.invariants[checks.invariants.len() - 1].result)
            })
        }),
{
}

/// What the chain answered is known by all of its parts: the outcomes of invariants one by one, in order.
pub proof fn answers_are_known_by_their_parts<T>(call: CallOutcome<T>, checks: CheckOutcomes, verdict: CallVerdict, i: int)
    ensures
        call@.reverted == call.reverted,
        call@.assert_failure == call.assert_failure,
        call@.result == call.result@,
        call@.revert_reason == call.revert_reason@,
        call@.gas_used == call.gas_used,
        call@.stipend == call.stipend,
        call@.traces == call.traces,
        checks@.global_failure == checks.global_failure,
        checks@.handlers == checks.handlers@,
        checks@.invariants.len() == checks.invariants@.len(),
        0 <= i < checks.invariants@.len() ==> {
            &&& checks@.invariants[i].success == checks.invariants@[i].success
            &&& checks@.invariants[i].result == checks.invariants@[i].result@
            &&& checks@.invariants[i].revert_reason == checks.invariants@[i].revert_reason@
        },
        checks@.inner_sequence == optional_tx_models(checks.inner_sequence@),
        verdict@.can_continue == verdict.can_continue,
        verdict@.call_result is Some == verdict.call_result is Some,
        verdict.call_result matches Some(bytes) ==> verdict@.call_result == Some(bytes@),
{
}

/// The handlers are asked exactly where no assertion failed and the call did not revert, and the invariants are
/// called exactly where moreover all handlers report success: the one to maximize, or each to check.
pub proof fn invariants_are_called_after_the_handlers<T>(
    contract: InvariantContractView,
    config: InvariantConfig,
    call: CallView<T>,
    checks: ChecksView,
)
    ensures
        ({
            let asserted = config.fail_on_assert && (call.assert_failure || checks.global_failure);
            let refused = exists|k: int| 0 <= k < checks.handlers.len() && !checks.handlers[k];
            &&& reaches_handlers(config, call, checks) == (!asserted && !call.reverted)
            &&& reaches_invariants(config, call, checks) == (!asserted && !call.reverted && !refused)
            &&& contract.optimization ==> invariant_calls(contract) == 1
            &&& !contract.optimization ==> invariant_calls(contract) == contract.invariant_fns.len()
        }),
{
}

/// What an invariant returned is read from its first 32 bytes, and only where it held and returned as many.
pub proof fn returned_values_are_read_from_the_first_bytes(outcome: OutcomeView)
    ensures
        returned_value(outcome) is Some == (outcome.success && outcome.result.len() >= 32),
        returned_value(outcome) matches Some(value) ==> value.bytes@ == outcome.result.take(32),
{
    if outcome.result.len() >= 32 {
        word_of_has_the_bytes(outcome.result.take(32));
    }
}

} // verus!
