//! Failures of an invariant campaign and the keys that tell them apart.

use vstd::prelude::*;
use vstd::string::*;

use crate::config::{InvariantContract, InvariantContractView};
use crate::fixed::Address;
use crate::ordered::{aligned_entries, OrderedKey, OrderedMap};
use crate::text::{
    after_last, before_first, concat3, decimal, decimal_text, ends_with, same_text, text_after_last, text_before_first,
};
use crate::tx::{
    clone_optional_txs, clone_txs, optional_tx_models, tx_models, BasicTxDetails, BasicTxDetailsView,
};

verus! {

/// The key of a failure, in the form `ContractName:function_name`.
#[derive(Debug)]
pub struct FailureKey {
    key: String,
}

impl View for FailureKey {
    type V = Seq<char>;

    closed spec fn view(&self) -> Seq<char> {
        self.key@
    }
}

/// The key of a failure of the function `fn_name` of the contract `contract_name`.
pub open spec fn failure_key(contract_name: Seq<char>, fn_name: Seq<char>) -> Seq<char> {
    contract_name + seq![':'] + fn_name
}

impl Clone for FailureKey {
    fn clone(&self) -> (r: Self)
        ensures
            r@ == self@,
    {
        FailureKey { key: self.key.clone() }
    }
}

impl PartialEq for FailureKey {
    fn eq(&self, other: &Self) -> (r: bool) {
        same_text(self.key.as_str(), other.key.as_str())
    }
}

impl Eq for FailureKey {

}

impl vstd::std_specs::cmp::PartialEqSpecImpl for FailureKey {
    open spec fn obeys_eq_spec() -> bool {
        true
    }

    open spec fn eq_spec(&self, other: &Self) -> bool {
        self@ == other@
    }
}

impl FailureKey {
    /// The key of a failure of the function `fn_name` of the contract `contract_name`.
    pub fn new(contract_name: &str, fn_name: &str) -> (r: FailureKey)
        ensures
            r@ == failure_key(contract_name@, fn_name@),
    {
        proof {
            reveal_strlit(":");
            assert(":"@ =~= seq![':']);
        }
        FailureKey { key: concat3(contract_name, ":", fn_name) }
    }

    /// The name of the contract: the part before the first `:`.
    pub fn contract_name(&self) -> (r: &str)
        ensures
            r@ == before_first(self@, ':'),
    {
        text_before_first(self.key.as_str(), ':')
    }

    /// The name of the function: the part after the last `:`.
    pub fn function_name(&self) -> (r: &str)
        ensures
            r@ == after_last(self@, ':'),
    {
        text_after_last(self.key.as_str(), ':')
    }

    /// Whether the key ends with `:` and the given function name.
    pub fn has_function(&self, fn_name: &str) -> (r: bool)
        ensures
            r == (seq![':'] + fn_name@).is_suffix_of(self@),
    {
        proof {
            reveal_strlit(":");
            reveal_strlit("");
            assert(":"@ + fn_name@ + ""@ =~= seq![':'] + fn_name@);
        }
        let suffix = concat3(":", fn_name, "");
        ends_with(self.key.as_str(), suffix.as_str())
    }

    /// The whole key.
    pub fn as_str(&self) -> (r: &str)
        ensures
            r@ == self@,
    {
        self.key.as_str()
    }

    /// The whole key, as a string of its own.
    pub fn into_string(self) -> (r: String)
        ensures
            r@ == self@,
    {
        self.key
    }
}

/// A key gives back the function name it was made with, if that name holds no `:`.
pub proof fn key_gives_back_function(contract_name: Seq<char>, fn_name: Seq<char>)
    requires
        !fn_name.contains(':'),
    ensures
        after_last(failure_key(contract_name, fn_name), ':') == fn_name,
{
    let key = failure_key(contract_name, fn_name);
    let at = contract_name.len() as int;
    key.index_of_last_ensures(':');
    assert(key[at] == ':');
    assert(key.contains(':'));
    let last = key.index_of_last(':')->0;
    assert(last == at) by {
        if last > at {
            assert(fn_name[last - at - 1] == ':');
        }
    }
    assert(key.skip(at + 1) =~= fn_name);
}

/// A key gives back the contract name it was made with, if that name holds no `:`.
pub proof fn key_gives_back_contract(contract_name: Seq<char>, fn_name: Seq<char>)
    requires
        !contract_name.contains(':'),
    ensures
        before_first(failure_key(contract_name, fn_name), ':') == contract_name,
{
    let key = failure_key(contract_name, fn_name);
    let at = contract_name.len() as int;
    key.index_of_first_ensures(':');
    assert(key[at] == ':');
    assert(key.contains(':'));
    let first = key.index_of_first(':')->0;
    assert(first == at) by {
        if first < at {
            assert(contract_name[first] == ':');
        }
    }
    assert(key.take(at) =~= contract_name);
}

/// A key always has the function it was made with.
pub proof fn key_has_its_function(contract_name: Seq<char>, fn_name: Seq<char>)
    ensures
        (seq![':'] + fn_name).is_suffix_of(failure_key(contract_name, fn_name)),
{
    let key = failure_key(contract_name, fn_name);
    let suffix = seq![':'] + fn_name;
    assert(suffix =~= key.subrange(key.len() - suffix.len(), key.len() as int));
}

/// A failed test case: why it failed and the call sequence that made it fail.
#[derive(Debug)]
pub struct TestFailure {
    pub reason: String,
    pub sequence: Vec<BasicTxDetails>,
}

/// The data of a failed invariant.
#[derive(Debug)]
pub struct FailedInvariantCaseData {
    /// The failed test case.
    pub test_error: TestFailure,
    /// The return reason of the offending call.
    pub return_reason: String,
    /// The revert string of the offending call.
    pub revert_reason: String,
    /// Address of the invariant asserter.
    pub addr: Address,
    /// Calldata of the invariant check.
    pub calldata: Vec<u8>,
    /// The calls that were generated in place of external calls.
    pub inner_sequence: Vec<Option<BasicTxDetails>>,
    /// The number of attempts to shrink the sequence.
    pub shrink_run_limit: u32,
    /// Whether a revert is a failure when the sequence is checked again.
    pub fail_on_revert: bool,
    /// Whether a failed assertion is a failure when the sequence is checked again.
    pub fail_on_assert: bool,
}

/// The model of [`FailedInvariantCaseData`].
pub struct CaseDataView {
    pub reason: Seq<char>,
    pub sequence: Seq<BasicTxDetailsView>,
    pub return_reason: Seq<char>,
    pub revert_reason: Seq<char>,
    pub addr: Address,
    pub calldata: Seq<u8>,
    pub inner_sequence: Seq<Option<BasicTxDetailsView>>,
    pub shrink_run_limit: u32,
    pub fail_on_revert: bool,
    pub fail_on_assert: bool,
}

impl View for FailedInvariantCaseData {
    type V = CaseDataView;

    open spec fn view(&self) -> CaseDataView {
        CaseDataView {
            reason: self.test_error.reason@,
            sequence: tx_models(self.test_error.sequence@),
            return_reason: self.return_reason@,
            revert_reason: self.revert_reason@,
            addr: self.addr,
            calldata: self.calldata@,
            inner_sequence: optional_tx_models(self.inner_sequence@),
            shrink_run_limit: self.shrink_run_limit,
            fail_on_revert: self.fail_on_revert,
            fail_on_assert: self.fail_on_assert,
        }
    }
}

/// `, reason: `.
pub open spec fn reason_separator() -> Seq<char> {
    seq![',', ' ', 'r', 'e', 'a', 's', 'o', 'n', ':', ' ']
}

/// The data of a failure of `contract` on `sequence`, whose offending call reverted with
/// `revert_reason`.
pub open spec fn case_data(
    contract: InvariantContractView,
    shrink_run_limit: u32,
    fail_on_revert: bool,
    fail_on_assert: bool,
    sequence: Seq<BasicTxDetailsView>,
    revert_reason: Seq<char>,
    inner_sequence: Seq<Option<BasicTxDetailsView>>,
) -> CaseDataView {
    CaseDataView {
        reason: contract.invariant_fn.name + reason_separator() + revert_reason,
        sequence,
        return_reason: Seq::empty(),
        revert_reason,
        addr: contract.address,
        calldata: contract.invariant_fn.selector().bytes@,
        inner_sequence,
        shrink_run_limit,
        fail_on_revert,
        fail_on_assert,
    }
}

impl FailedInvariantCaseData {
    /// The data of a failure on `sequence`. `revert_reason` is the decoded revert data of the
    /// offending call. The invariant takes no inputs.
    pub fn new(
        invariant_contract: &InvariantContract,
        shrink_run_limit: u32,
        fail_on_revert: bool,
        fail_on_assert: bool,
        sequence: &Vec<BasicTxDetails>,
        revert_reason: &str,
        inner_sequence: &Vec<Option<BasicTxDetails>>,
    ) -> (r: FailedInvariantCaseData)
        requires
            invariant_contract@.invariant_fn.inputs.len() == 0,
        ensures
            r@ == case_data(
                invariant_contract@,
                shrink_run_limit,
                fail_on_revert,
                fail_on_assert,
                tx_models(sequence@),
                revert_reason@,
                optional_tx_models(inner_sequence@),
            ),
    {
        proof {
            reveal_strlit(", reason: ");
            assert(", reason: "@ =~= reason_separator());
        }
        let reason = concat3(invariant_contract.invariant_fn.name.as_str(), ", reason: ", revert_reason);
        FailedInvariantCaseData {
            test_error: TestFailure { reason, sequence: clone_txs(sequence) },
            return_reason: String::new(),
            revert_reason: revert_reason.to_owned(),
            addr: invariant_contract.address,
            calldata: invariant_contract.invariant_fn.selector().to_vec(),
            inner_sequence: clone_optional_txs(inner_sequence),
            shrink_run_limit,
            fail_on_revert,
            fail_on_assert,
        }
    }
}

impl Clone for FailedInvariantCaseData {
    fn clone(&self) -> (r: Self)
        ensures
            r@ == self@,
    {
        FailedInvariantCaseData {
            test_error: TestFailure {
                reason: self.test_error.reason.clone(),
                sequence: clone_txs(&self.test_error.sequence),
            },
            return_reason: self.return_reason.clone(),
            revert_reason: self.revert_reason.clone(),
            addr: self.addr,
            calldata: self.calldata.clone(),
            inner_sequence: clone_optional_txs(&self.inner_sequence),
            shrink_run_limit: self.shrink_run_limit,
            fail_on_revert: self.fail_on_revert,
            fail_on_assert: self.fail_on_assert,
        }
    }
}

/// Why an invariant campaign failed.
#[derive(Debug)]
pub enum InvariantFuzzError {
    /// A call reverted where reverts are failures.
    Revert(FailedInvariantCaseData),
    /// An invariant does not hold.
    BrokenInvariant(FailedInvariantCaseData),
    /// An assertion of a handler failed.
    BrokenAssertion(FailedInvariantCaseData),
    /// More calls were rejected by assumptions than the given number.
    MaxAssumeRejects(u32),
}

/// The model of an [`InvariantFuzzError`].
pub enum ErrorView {
    Revert(CaseDataView),
    BrokenInvariant(CaseDataView),
    BrokenAssertion(CaseDataView),
    MaxAssumeRejects(u32),
}

impl View for InvariantFuzzError {
    type V = ErrorView;

    open spec fn view(&self) -> ErrorView {
        match self {
            InvariantFuzzError::Revert(data) => ErrorView::Revert(data@),
            InvariantFuzzError::BrokenInvariant(data) => ErrorView::BrokenInvariant(data@),
            InvariantFuzzError::BrokenAssertion(data) => ErrorView::BrokenAssertion(data@),
            InvariantFuzzError::MaxAssumeRejects(n) => ErrorView::MaxAssumeRejects(*n),
        }
    }
}

impl Clone for InvariantFuzzError {
    fn clone(&self) -> (r: Self)
        ensures
            r@ == self@,
    {
        match self {
            InvariantFuzzError::Revert(data) => InvariantFuzzError::Revert(data.clone()),
            InvariantFuzzError::BrokenInvariant(data) => InvariantFuzzError::BrokenInvariant(data.clone()),
            InvariantFuzzError::BrokenAssertion(data) => InvariantFuzzError::BrokenAssertion(data.clone()),
            InvariantFuzzError::MaxAssumeRejects(n) => InvariantFuzzError::MaxAssumeRejects(*n),
        }
    }
}

impl ErrorView {
    /// The reason to show for the failure, if there is one.
    pub open spec fn revert_reason(self) -> Option<Seq<char>> {
        match self {
            ErrorView::Revert(data)
            | ErrorView::BrokenInvariant(data)
            | ErrorView::BrokenAssertion(data) => if data.revert_reason.len() == 0 {
                None
            } else {
                Some(data.revert_reason)
            },
            ErrorView::MaxAssumeRejects(n) => Some(
                "`vm.assume` rejected too many inputs ("@ + decimal(n as nat) + " allowed)"@,
            ),
        }
    }

    /// The kind of the failure.
    pub open spec fn failure_type(self) -> Seq<char> {
        match self {
            ErrorView::BrokenInvariant(_) => "invariant"@,
            ErrorView::BrokenAssertion(_) => "assertion"@,
            ErrorView::Revert(_) => "revert"@,
            ErrorView::MaxAssumeRejects(_) => "assume_rejects"@,
        }
    }
}

impl InvariantFuzzError {
    /// The reason to show for the failure: the revert string where it is not empty, or how many
    /// rejected inputs were allowed.
    pub fn revert_reason(&self) -> (r: Option<String>)
        ensures
            r is Some == self@.revert_reason() is Some,
            r matches Some(text) ==> self@.revert_reason() == Some(text@),
    {
        match self {
            InvariantFuzzError::BrokenInvariant(case_data)
            | InvariantFuzzError::BrokenAssertion(case_data)
            | InvariantFuzzError::Revert(case_data) => {
                if case_data.revert_reason.as_str().is_empty() {
                    None
                } else {
                    Some(case_data.revert_reason.clone())
                }
            },
            InvariantFuzzError::MaxAssumeRejects(allowed) => {
                let count = decimal_text(*allowed as usize);
                Some(concat3("`vm.assume` rejected too many inputs (", count.as_str(), " allowed)"))
            },
        }
    }

    /// The kind of the failure.
    pub fn failure_type(&self) -> (r: &'static str)
        ensures
            r@ == self@.failure_type(),
    {
        match self {
            InvariantFuzzError::BrokenInvariant(_) => "invariant",
            InvariantFuzzError::BrokenAssertion(_) => "assertion",
            InvariantFuzzError::Revert(_) => "revert",
            InvariantFuzzError::MaxAssumeRejects(_) => "assume_rejects",
        }
    }
}

/// Failures and reverts of an invariant campaign.
pub struct InvariantFailures {
    /// The number of reverts.
    pub reverts: usize,
    /// The latest revert reason of a run.
    pub revert_reason: Option<String>,
    /// What failed under each key; a later failure takes the place of an earlier one.
    pub errors: OrderedMap<String, InvariantFuzzError>,
    /// The number of failures, repeated ones counted.
    pub total_failures: usize,
}

/// The model of [`InvariantFailures`].
pub struct FailuresView {
    pub reverts: nat,
    pub revert_reason: Option<Seq<char>>,
    pub errors: Map<Seq<char>, ErrorView>,
    pub total_failures: nat,
}

/// The texts of an optional string.
pub open spec fn optional_text(s: Option<String>) -> Option<Seq<char>> {
    match s {
        Some(s) => Some(s@),
        None => None,
    }
}

/// A copy of an optional string.
pub fn clone_optional_text(s: &Option<String>) -> (r: Option<String>)
    ensures
        optional_text(r) == optional_text(*s),
{
    match s {
        Some(s) => Some(s.clone()),
        None => None,
    }
}

/// The models of the errors of a map.
pub open spec fn error_models(errors: Map<Seq<char>, InvariantFuzzError>) -> Map<Seq<char>, ErrorView> {
    errors.map_values(|e: InvariantFuzzError| e@)
}

impl View for InvariantFailures {
    type V = FailuresView;

    open spec fn view(&self) -> FailuresView {
        FailuresView {
            reverts: self.reverts as nat,
            revert_reason: optional_text(self.revert_reason),
            errors: error_models(self.errors@),
            total_failures: self.total_failures as nat,
        }
    }
}

impl FailuresView {
    /// No failures.
    pub open spec fn none() -> FailuresView {
        FailuresView { reverts: 0, revert_reason: None, errors: Map::empty(), total_failures: 0 }
    }

    /// The failures with one more under `key`.
    pub open spec fn record(self, key: Seq<char>, error: ErrorView) -> FailuresView {
        FailuresView {
            errors: self.errors.insert(key, error),
            total_failures: self.total_failures + 1,
            ..self
        }
    }

    /// The failures with one more revert.
    pub open spec fn revert(self) -> FailuresView {
        FailuresView { reverts: self.reverts + 1, ..self }
    }

    /// No key has more failures than were counted.
    pub open spec fn consistent(self) -> bool {
        &&& self.errors.dom().finite()
        &&& self.errors.dom().len() <= self.total_failures
    }
}

/// There are never more keys than failures: that holds at the start and each recorded failure
/// keeps it.
pub proof fn keys_do_not_outnumber_failures(failures: FailuresView, key: Seq<char>, error: ErrorView)
    requires
        failures.consistent(),
    ensures
        FailuresView::none().consistent(),
        failures.record(key, error).consistent(),
{
    assert(failures.record(key, error).errors.dom() =~= failures.errors.dom().insert(key));
}

/// Failures under one key count once: the later takes the place of the earlier.
pub proof fn repeated_failures_share_a_key(
    failures: FailuresView,
    key: Seq<char>,
    first: ErrorView,
    second: ErrorView,
)
    ensures
        failures.record(key, first).record(key, second).errors == failures.record(key, second).errors,
        failures.record(key, first).record(key, second).total_failures == failures.total_failures + 2,
{
    assert(failures.errors.insert(key, first).insert(key, second) =~= failures.errors.insert(key, second));
}

impl Clone for InvariantFailures {
    fn clone(&self) -> (r: Self)
        ensures
            self.wf() ==> r.wf() && r@ == self@,
    {
        let mut entries: Vec<(String, InvariantFuzzError)> = Vec::new();
        let mut i: usize = 0;
        while i < self.errors.entries.len()
            invariant
                i <= self.errors.entries@.len(),
                entries@.len() == i,
                forall|j: int|
                    0 <= j < i ==> {
                        &&& (#[trigger] entries@[j]).0.model() == self.errors.entries@[j].0.model()
                        &&& entries@[j].1@ == self.errors.entries@[j].1@
                    },
            decreases self.errors.entries@.len() - i,
        {
            entries.push((self.errors.entries[i].0.clone(), self.errors.entries[i].1.clone()));
            i += 1;
        }
        let r = InvariantFailures {
            reverts: self.reverts,
            revert_reason: clone_optional_text(&self.revert_reason),
            errors: OrderedMap { entries },
            total_failures: self.total_failures,
        };
        proof {
            if self.wf() {
                aligned_entries(self.errors.entries@, entries@);
                assert(r@.errors =~= self@.errors) by {
                    assert forall|key: Seq<char>| self@.errors.dom().contains(key) implies r@.errors[key]
                        == self@.errors[key] by {
                        let j = choose|j: int|
                            0 <= j < self.errors.entries@.len() && #[trigger] self.errors.entries@[j].0.model() == key;
                        assert(entries@[j].1@ == self.errors.entries@[j].1@);
                    }
                }
            }
        }
        r
    }
}

impl InvariantFailures {
    /// The keys are in order.
    pub open spec fn wf(self) -> bool {
        self.errors.wf()
    }

    /// No failures.
    pub fn new() -> (r: InvariantFailures)
        ensures
            r.wf(),
            r@ == FailuresView::none(),
    {
        let r = InvariantFailures {
            reverts: 0,
            revert_reason: None,
            errors: OrderedMap::new(),
            total_failures: 0,
        };
        assert(r@.errors =~= Map::empty());
        r
    }

    /// The number of reverts and the errors.
    pub fn into_inner(self) -> (r: (usize, OrderedMap<String, InvariantFuzzError>))
        ensures
            r.0 == self@.reverts,
            r.1 == self.errors,
            error_models(r.1@) == self@.errors,
    {
        (self.reverts, self.errors)
    }

    /// Records a failure under `key`, in place of an earlier one under it.
    pub fn record_failure(&mut self, key: FailureKey, failure: InvariantFuzzError)
        requires
            old(self).wf(),
            old(self).total_failures < usize::MAX,
        ensures
            final(self).wf(),
            final(self)@ == old(self)@.record(key@, failure@),
    {
        self.total_failures += 1;
        self.errors.insert(key.into_string(), failure);
        assert(self@.errors =~= old(self)@.errors.insert(key@, failure@));
    }

    /// The number of keys with a failure.
    pub fn unique_failures(&self) -> (r: usize)
        requires
            self.wf(),
        ensures
            r == self@.errors.dom().len(),
    {
        assert(self@.errors.dom() =~= self.errors@.dom());
        self.errors.len()
    }

    /// One line that tells how many failures there are, and how many under different keys.
    pub fn summary(&self) -> (r: String)
        requires
            self.wf(),
        ensures
            r@ == "\n      Failures: "@ + decimal(self@.total_failures) + " (unique: "@ + decimal(
                self@.errors.dom().len(),
            ) + ")\n"@,
    {
        let total = decimal_text(self.total_failures);
        let unique = decimal_text(self.unique_failures());
        let mut out = concat3("\n      Failures: ", total.as_str(), " (unique: ");
        out.append(unique.as_str());
        out.append(")\n");
        out
    }
}

/// A recorded failure stands under its key, and counts once; failures under other keys, the reverts and the
/// latest reason stay as they are.
pub proof fn recorded_failures_stand_under_their_keys(
    failures: FailuresView,
    key: Seq<char>,
    error: ErrorView,
    other: Seq<char>,
)
    ensures
        ({
            let after = failures.record(key, error);
            &&& after.errors.dom().contains(key)
            &&& after.errors[key] == error
            &&& other != key ==> after.errors.dom().contains(other) == failures.errors.dom().contains(other)
            &&& other != key && failures.errors.dom().contains(other) ==> after.errors[other] == failures.errors[other]
            &&& after.total_failures == failures.total_failures + 1
            &&& after.reverts == failures.reverts
            &&& after.revert_reason == failures.revert_reason
        }),
{
}

/// A revert counts as one revert and changes nothing else, and at the start there is nothing.
pub proof fn reverts_count_once(failures: FailuresView)
    ensures
        failures.revert().reverts == failures.reverts + 1,
        failures.revert().errors == failures.errors,
        failures.revert().total_failures == failures.total_failures,
        failures.revert().revert_reason == failures.revert_reason,
        FailuresView::none().reverts == 0,
        FailuresView::none().total_failures == 0,
        FailuresView::none().revert_reason is None,
        forall|key: Seq<char>| !(#[trigger] FailuresView::none().errors.dom().contains(key)),
{
}

/// The data of a failure hold the sequence and the inner calls that led to it, unchanged; the contract and the
/// selector that are checked again; and a reason that starts with the name of the invariant and ends with what
/// the offending call reverted with.
pub proof fn failures_keep_what_led_to_them(
    contract: InvariantContractView,
    shrink_run_limit: u32,
    fail_on_revert: bool,
    fail_on_assert: bool,
    sequence: Seq<BasicTxDetailsView>,
    revert_reason: Seq<char>,
    inner_sequence: Seq<Option<BasicTxDetailsView>>,
)
    ensures
        ({
            let data = case_data(
                contract,
                shrink_run_limit,
                fail_on_revert,
                fail_on_assert,
                sequence,
                revert_reason,
                inner_sequence,
            );
            &&& data.sequence == sequence
            &&& data.inner_sequence == inner_sequence
            &&& data.revert_reason == revert_reason
            &&& data.return_reason.len() == 0
            &&& data.reason == contract.invariant_fn.name + ", reason: "@ + revert_reason
            &&& data.addr == contract.address
            &&& data.calldata == contract.invariant_fn.selector().bytes@
            &&& data.shrink_run_limit == shrink_run_limit
            &&& data.fail_on_revert == fail_on_revert
            &&& data.fail_on_assert == fail_on_assert
        }),
{
    reveal_strlit(", reason: ");
    assert(", reason: "@ =~= reason_separator());
}

/// The reason to show is what the offending call reverted with, whatever the kind of the failure, and there is
/// none where that is empty. Too many rejected inputs are told with the number that is allowed.
pub proof fn shown_reasons_are_those_of_the_call(data: CaseDataView, n: u32)
    ensures
        data.revert_reason.len() > 0 ==> {
            &&& ErrorView::Revert(data).revert_reason() == Some(data.revert_reason)
            &&& ErrorView::BrokenInvariant(data).revert_reason() == Some(data.revert_reason)
            &&& ErrorView::BrokenAssertion(data).revert_reason() == Some(data.revert_reason)
        },
        data.revert_reason.len() == 0 ==> {
            &&& ErrorView::Revert(data).revert_reason() is None
            &&& ErrorView::BrokenInvariant(data).revert_reason() is None
            &&& ErrorView::BrokenAssertion(data).revert_reason() is None
        },
        ErrorView::MaxAssumeRejects(n).revert_reason() == Some(
            "`vm.assume` rejected too many inputs ("@ + decimal(n as nat) + " allowed)"@,
        ),
{
}

/// Failures of different kinds are told apart by the names of their kinds.
pub proof fn kinds_have_names_of_their_own(a: ErrorView, b: ErrorView)
    ensures
        a.failure_type() == b.failure_type() <==> {
            &&& a is BrokenInvariant == b is BrokenInvariant
            &&& a is BrokenAssertion == b is BrokenAssertion
            &&& a is Revert == b is Revert
        },
        a is BrokenInvariant ==> a.failure_type() == "invariant"@,
        a is BrokenAssertion ==> a.failure_type() == "assertion"@,
        a is Revert ==> a.failure_type() == "revert"@,
        a is MaxAssumeRejects ==> a.failure_type() == "assume_rejects"@,
{
    reveal_strlit("invariant");
    reveal_strlit("assertion");
    reveal_strlit("revert");
    reveal_strlit("assume_rejects");
    assert("invariant"@[0] == 'i' && "assertion"@[0] == 'a' && "revert"@[0] == 'r' && "assume_rejects"@[0] == 'a');
    assert("assertion"@.len() == 9 && "assume_rejects"@.len() == 14);
}

/// Failures are known by all of their parts, and each error under its key.
pub proof fn failures_are_known_by_their_parts(
    data: FailedInvariantCaseData,
    failures: InvariantFailures,
    key: Seq<char>,
)
    ensures
        data@.reason == data.test_error.reason@,
        data@.sequence == tx_models(data.test_error.sequence@),
        data@.return_reason == data.return_reason@,
        data@.revert_reason == data.revert_reason@,
        data@.addr == data.addr,
        data@.calldata == data.calldata@,
        data@.inner_sequence == optional_tx_models(data.inner_sequence@),
        data@.shrink_run_limit == data.shrink_run_limit,
        data@.fail_on_revert == data.fail_on_revert,
        data@.fail_on_assert == data.fail_on_assert,
        InvariantFuzzError::Revert(data)@ == ErrorView::Revert(data@),
        InvariantFuzzError::BrokenInvariant(data)@ == ErrorView::BrokenInvariant(data@),
        InvariantFuzzError::BrokenAssertion(data)@ == ErrorView::BrokenAssertion(data@),
        failures@.reverts == failures.reverts,
        failures@.total_failures == failures.total_failures,
        failures@.revert_reason is Some == failures.revert_reason is Some,
        failures.revert_reason matches Some(reason) ==> failures@.revert_reason == Some(reason@),
        failures@.errors.dom().contains(key) == failures.errors@.dom().contains(key),
        failures.errors@.dom().contains(key) ==> failures@.errors[key] == failures.errors@[key]@,
{
}

} // verus!
