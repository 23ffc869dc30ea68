//! A campaign from its start to its result.

use vstd::prelude::*;
use vstd::string::*;

use crate::aggregate::{
    aggregate_invariant_results, aggregated, sums_fit, worker_reports, InvariantFuzzTestResult,
};
use crate::config::InvariantContract;
use crate::executor::{share_of_runs, InvariantExecutor, SelectionError, SelectionErrorView};
use crate::failure::{failure_key, FailuresView, InvariantFailures};
use crate::filters::SenderFilters;
use crate::fixed::Address;
use crate::ordered::{sorted_entries_count, sorted_entry_is_mapped, OrderedKey};
use crate::result::{invariant_preflight_check, InvariantOutcome};
use crate::run::TestDataView;
use crate::shared::{InvariantWorkerState, WorkerCounters};
use crate::targets::{FuzzRunIdentifiedContracts, TargetView, TargetedContracts};
use crate::tx::{tx_models, BasicTxDetails};
use crate::worker::{InvariantWorker, PhaseView, WorkerView};

verus! {

/// Why a campaign gave no result.
#[derive(Debug)]
pub enum CampaignError {
    /// The invariant has inputs.
    HasInputs,
    /// The campaign cannot be set up.
    Selection(SelectionError),
    /// The invariant does not hold in the initial state, for this reason.
    BrokenAtStart(String),
    /// A worker gave up, for this reason.
    Worker(String),
}

/// The model of a [`CampaignError`].
pub enum CampaignErrorView {
    HasInputs,
    Selection(SelectionErrorView),
    BrokenAtStart(Seq<char>),
    Worker(Seq<char>),
}

impl View for CampaignError {
    type V = CampaignErrorView;

    open spec fn view(&self) -> CampaignErrorView {
        match *self {
            CampaignError::HasInputs => CampaignErrorView::HasInputs,
            CampaignError::Selection(error) => CampaignErrorView::Selection(error@),
            CampaignError::BrokenAtStart(reason) => CampaignErrorView::BrokenAtStart(reason@),
            CampaignError::Worker(reason) => CampaignErrorView::Worker(reason@),
        }
    }
}

impl CampaignErrorView {
    /// The error in words.
    pub open spec fn message(self) -> Seq<char> {
        match self {
            CampaignErrorView::HasInputs => "Invariant test function should have no inputs"@,
            CampaignErrorView::Selection(error) => error.message(),
            CampaignErrorView::BrokenAtStart(reason) => reason,
            CampaignErrorView::Worker(reason) => reason,
        }
    }
}

impl CampaignError {
    /// The error in words.
    pub fn message(&self) -> (r: String)
        ensures
            r@ == self@.message(),
    {
        match self {
            CampaignError::HasInputs => "Invariant test function should have no inputs".to_owned(),
            CampaignError::Selection(error) => error.message(),
            CampaignError::BrokenAtStart(reason) => reason.clone(),
            CampaignError::Worker(reason) => reason.clone(),
        }
    }
}

/// What each worker starts with.
pub struct Prepared {
    /// Which senders to use.
    pub senders: SenderFilters,
    /// The contracts to call.
    pub contracts: FuzzRunIdentifiedContracts,
    /// The failures so far.
    pub failures: InvariantFailures,
}

/// Some target has a known storage layout.
pub open spec fn has_storage_layout(targets: Map<Address, TargetView>) -> bool {
    exists|address: Address| #[trigger] targets.dom().contains(address) && targets[address].storage_layout
}

/// Whether the slots of mappings are recorded: where some target has a known storage layout.
pub fn records_mapping_slots(targets: &TargetedContracts) -> (r: bool)
    requires
        targets.wf(),
    ensures
        r == has_storage_layout(targets@),
{
    let ghost entries = targets.inner.entries@;
    let mut i: usize = 0;
    while i < targets.inner.entries.len()
        invariant
            i <= entries.len(),
            targets.wf(),
            entries == targets.inner.entries@,
            forall|j: int| 0 <= j < i ==> !(#[trigger] entries[j]).1.storage_layout,
        decreases entries.len() - i,
    {
        if targets.inner.entries[i].1.storage_layout {
            proof {
                sorted_entry_is_mapped(entries, i as int);
                assert(targets@.dom().contains(entries[i as int].0));
            }
            return true;
        }
        i += 1;
    }
    proof {
        if has_storage_layout(targets@) {
            let address = choose|address: Address| #[trigger]
                targets@.dom().contains(address) && targets@[address].storage_layout;
            assert(targets.inner@.dom().contains(address));
            let k = choose|k: int| 0 <= k < entries.len() && #[trigger] entries[k].0.model() == address;
            sorted_entry_is_mapped(entries, k);
            assert(!entries[k].1.storage_layout);
        }
    }
    false
}

impl InvariantExecutor {
    /// Makes sure that the invariant that names the campaign has no inputs.
    pub fn check_invariant(&self, invariant_contract: &InvariantContract) -> (r: Result<(), CampaignError>)
        ensures
            r is Ok == (invariant_contract@.invariant_fn.inputs.len() == 0),
            r matches Err(e) ==> e@ == CampaignErrorView::HasInputs,
    {
        if invariant_contract.invariant_fn.inputs.len() != 0 {
            Err(CampaignError::HasInputs)
        } else {
            Ok(())
        }
    }

    /// What each worker starts with. `selection` is what
    /// [`InvariantExecutor::select_contracts_and_senders`] gave, and `outcome` what a call of the
    /// invariant gave in the initial state: where it does not hold there, the campaign does not
    /// start.
    pub fn prepare_test(
        &self,
        invariant_contract: &InvariantContract,
        selection: Result<(SenderFilters, FuzzRunIdentifiedContracts), SelectionError>,
        outcome: &InvariantOutcome,
        inner_sequence: &Vec<Option<BasicTxDetails>>,
    ) -> (r: Result<Prepared, CampaignError>)
        requires
            invariant_contract@.invariant_fn.inputs.len() == 0,
            selection matches Ok((_, contracts)) ==> contracts.targets.wf(),
        ensures
            match selection {
                Err(error) => r matches Err(e) && e@ == CampaignErrorView::Selection(error@),
                Ok((senders, contracts)) => if outcome.success {
                    r matches Ok(prepared) && {
                        &&& prepared.senders == senders
                        &&& prepared.contracts == contracts
                        &&& prepared.failures.wf()
                        &&& prepared.failures@ == FailuresView::none()
                    }
                } else {
                    r matches Err(e) && e@ == CampaignErrorView::BrokenAtStart(outcome.revert_reason@)
                },
            },
    {
        let (senders, contracts) = match selection {
            Ok(selected) => selected,
            Err(error) => {
                return Err(CampaignError::Selection(error));
            },
        };
        let mut failures = InvariantFailures::new();
        let no_calls: Vec<BasicTxDetails> = Vec::new();
        assert(tx_models(no_calls@) =~= Seq::empty());
        let held = invariant_preflight_check(
            invariant_contract,
            &self.config,
            outcome,
            &no_calls,
            inner_sequence,
            &mut failures,
            "",
        );
        proof {
            assert(failures@.errors.dom() =~= failures.errors@.dom());
            sorted_entries_count(failures.errors.entries@);
            if !outcome.success {
                let key = failure_key(""@, invariant_contract@.invariant_fn.name);
                assert(failures@.errors.dom() =~= Set::empty().insert(key));
            } else {
                assert(failures@.errors.dom() =~= Set::empty());
            }
        }
        if held.is_err() {
            let error = &failures.errors.entries[0].1;
            proof {
                sorted_entry_is_mapped(failures.errors.entries@, 0);
                let key = failure_key(""@, invariant_contract@.invariant_fn.name);
                assert(failures@.errors.dom().contains(failures.errors.entries@[0].0@));
                assert(failures.errors.entries@[0].0@ == key);
                assert(error@ == failures@.errors[key]);
            }
            let reason = match error.revert_reason() {
                Some(reason) => reason,
                None => String::new(),
            };
            assert(reason@ =~= outcome.revert_reason@);
            return Err(CampaignError::BrokenAtStart(reason));
        }
        Ok(Prepared { senders, contracts, failures })
    }

    /// The worker with number `worker_id`, with its share of the runs. Each worker has targets,
    /// senders and failures of its own.
    pub fn start_worker<T>(
        &self,
        worker_id: usize,
        invariant_contract: InvariantContract,
        prepared: &Prepared,
        target_name: String,
        magic_assume: Vec<u8>,
    ) -> (r: InvariantWorker<T>)
        requires
            self.wf(),
            worker_id < self.num_workers,
            invariant_contract@.invariant_fn.inputs.len() == 0,
            prepared.contracts.targets.wf(),
            prepared.failures.wf(),
            prepared.failures@.consistent(),
        ensures
            r.wf(),
            r@ == (WorkerView {
                id: worker_id as nat,
                config: self.config,
                contract: invariant_contract@,
                target_name: target_name@,
                magic_assume: magic_assume@,
                targeted_senders: prepared.senders.targeted@,
                excluded_senders: prepared.senders.excluded@,
                worker_runs: share_of_runs(self.config.runs as nat, self.num_workers as nat, worker_id as nat),
                runs: 0,
                data: TestDataView::<T>::start(prepared.failures@),
                targets: prepared.contracts.targets@,
                is_updatable: prepared.contracts.is_updatable,
                edges: Seq::empty(),
                counters: WorkerCounters { calls: 0, gas: 0, failures: 0 },
                phase: PhaseView::Idle,
            }),
    {
        InvariantWorker::new(
            worker_id,
            self.config,
            invariant_contract,
            target_name,
            magic_assume,
            self.runs_per_worker(worker_id),
            prepared.contracts.clone(),
            prepared.senders.clone(),
            prepared.failures.clone(),
        )
    }

    /// The result of a campaign. `workers` is what its workers handed over, or why one of them gave
    /// up. A campaign whose invariant has inputs has no result.
    pub fn invariant_fuzz<T>(
        &self,
        invariant_contract: &InvariantContract,
        workers: Result<Vec<InvariantWorkerState<T>>, String>,
    ) -> (r: Result<InvariantFuzzTestResult<T>, CampaignError>)
        requires
            workers matches Ok(workers) ==> {
                &&& forall|i: int| 0 <= i < workers@.len() ==> (#[trigger] workers@[i]).wf()
                &&& sums_fit(worker_reports(workers@))
            },
        ensures
            if invariant_contract@.invariant_fn.inputs.len() != 0 {
                r matches Err(e) && e@ == CampaignErrorView::HasInputs
            } else {
                match workers {
                    Ok(workers) => r matches Ok(result) && result.wf() && result@ == aggregated(
                        worker_reports(workers@),
                    ),
                    Err(reason) => r matches Err(e) && e@ == CampaignErrorView::Worker(reason@),
                }
            },
    {
        match self.check_invariant(invariant_contract) {
            Ok(()) => {},
            Err(error) => {
                return Err(error);
            },
        }
        match workers {
            Ok(workers) => Ok(aggregate_invariant_results(workers)),
            Err(reason) => Err(CampaignError::Worker(reason)),
        }
    }
}

/// A campaign that gave no result says why in the words of its cause.
pub proof fn campaigns_say_why_they_gave_no_result(selection: SelectionErrorView, reason: Seq<char>)
    ensures
        CampaignErrorView::HasInputs.message() == "Invariant test function should have no inputs"@,
        CampaignErrorView::Selection(selection).message() == selection.message(),
        CampaignErrorView::BrokenAtStart(reason).message() == reason,
        CampaignErrorView::Worker(reason).message() == reason,
{
}

/// One target with a known storage layout is enough for slots of mappings to be recorded, and without any they
/// are not.
pub proof fn one_storage_layout_is_enough(targets: Map<Address, TargetView>, address: Address)
    ensures
        targets.dom().contains(address) && targets[address].storage_layout ==> has_storage_layout(targets),
        (forall|a: Address| #[trigger] targets.dom().contains(a) ==> !targets[a].storage_layout)
            ==> !has_storage_layout(targets),
{
}

/// Errors of a campaign are known by their causes.
pub proof fn campaign_errors_are_known_by_their_causes(error: CampaignError)
    ensures
        error is HasInputs ==> error@ is HasInputs,
        error matches CampaignError::Selection(cause) ==> error@ == CampaignErrorView::Selection(cause@),
        error matches CampaignError::BrokenAtStart(reason) ==> error@ == CampaignErrorView::BrokenAtStart(reason@),
        error matches CampaignError::Worker(reason) ==> error@ == CampaignErrorView::Worker(reason@),
{
}

} // verus!
