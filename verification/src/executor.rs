//! The set-up of a campaign: how many workers it has, and which contracts, functions and senders
//! they use.

use vstd::prelude::*;
use vstd::string::*;

use crate::abi::{Abi, AbiView};
use crate::config::InvariantConfig;
use crate::filters::{ArtifactFilters, ArtifactFiltersView};
use crate::fixed::{Address, Selector};
use crate::ordered::OrderedMap;
use crate::text::{concat3, hex, hex_text};

verus! {

/// The number of runs that makes one worker more worth while.
pub const MIN_RUNS_PER_WORKER: u32 = 1000;

/// A contract that was deployed before the campaign.
pub struct SetupContract {
    /// The identifier of its artifact.
    pub identifier: String,
    /// Its interface.
    pub abi: Abi,
    /// Whether its storage layout is known.
    pub storage_layout: bool,
}

/// The model of a [`SetupContract`].
pub struct SetupView {
    pub identifier: Seq<char>,
    pub abi: AbiView,
    pub storage_layout: bool,
}

impl View for SetupContract {
    type V = SetupView;

    open spec fn view(&self) -> SetupView {
        SetupView { identifier: self.identifier@, abi: self.abi@, storage_layout: self.storage_layout }
    }
}

/// The models of deployed contracts.
pub open spec fn setup_models(contracts: Map<Address, SetupContract>) -> Map<Address, SetupView> {
    contracts.map_values(|contract: SetupContract| contract@)
}

/// A contract of the project, deployed or not.
pub struct ProjectContract {
    /// The name of the contract.
    pub name: String,
    /// The identifier of its artifact, the path and the name.
    pub identifier: String,
    /// Its interface.
    pub abi: Abi,
    /// Whether its storage layout is known.
    pub storage_layout: bool,
}

/// The model of a [`ProjectContract`].
pub struct ProjectView {
    pub name: Seq<char>,
    pub identifier: Seq<char>,
    pub abi: AbiView,
    pub storage_layout: bool,
}

impl View for ProjectContract {
    type V = ProjectView;

    open spec fn view(&self) -> ProjectView {
        ProjectView {
            name: self.name@,
            identifier: self.identifier@,
            abi: self.abi@,
            storage_layout: self.storage_layout,
        }
    }
}

/// The models of the contracts of a project.
pub open spec fn project_models(contracts: Seq<ProjectContract>) -> Seq<ProjectView> {
    Seq::new(contracts.len(), |i: int| contracts[i]@)
}

/// Why a campaign cannot be set up.
#[derive(Debug)]
pub enum SelectionError {
    /// The project could not be searched for an artifact.
    Lookup(String),
    /// The project has no such artifact.
    NotFound(String),
    /// An artifact has no function with the selector.
    NoSelector { artifact: String, selector: Selector },
    /// There is no contract at the address whose functions are chosen or excluded.
    NoContract { address: Address, should_exclude: bool },
    /// A contract has no function with the selector.
    UnknownFunction { identifier: String, selector: Selector },
    /// There is no contract to call.
    NoContracts,
}

/// The model of a [`SelectionError`].
pub enum SelectionErrorView {
    Lookup(Seq<char>),
    NotFound(Seq<char>),
    NoSelector { artifact: Seq<char>, selector: Selector },
    NoContract { address: Address, should_exclude: bool },
    UnknownFunction { identifier: Seq<char>, selector: Selector },
    NoContracts,
}

impl View for SelectionError {
    type V = SelectionErrorView;

    open spec fn view(&self) -> SelectionErrorView {
        match *self {
            SelectionError::Lookup(reason) => SelectionErrorView::Lookup(reason@),
            SelectionError::NotFound(artifact) => SelectionErrorView::NotFound(artifact@),
            SelectionError::NoSelector { artifact, selector } => {
                SelectionErrorView::NoSelector { artifact: artifact@, selector }
            },
            SelectionError::NoContract { address, should_exclude } => {
                SelectionErrorView::NoContract { address, should_exclude }
            },
            SelectionError::UnknownFunction { identifier, selector } => {
                SelectionErrorView::UnknownFunction { identifier: identifier@, selector }
            },
            SelectionError::NoContracts => SelectionErrorView::NoContracts,
        }
    }
}

/// An address in hexadecimal, with the capital letters that make up its checksum.
pub uninterp spec fn checksummed(address: Address) -> Seq<char>;

/// `alloy_primitives::Address::to_checksum`, without a chain: the address in hexadecimal with
/// its checksum.
#[verifier::external_body]
fn checksum_text(address: Address) -> (r: String)
    ensures
        r@ == checksummed(address),
{
    alloy_primitives::Address::from(address.bytes).to_checksum(None)
}

impl SelectionErrorView {
    /// The error in words.
    pub open spec fn message(self) -> Seq<char> {
        match self {
            SelectionErrorView::Lookup(reason) => reason,
            SelectionErrorView::NotFound(artifact) => artifact
                + " not found in the project. Allowed format: `contract_name` or `contract_path:contract_name`."@,
            SelectionErrorView::NoSelector { artifact, selector } => artifact + " does not have the selector "@ + (
            "0x"@ + hex(selector.bytes@)),
            SelectionErrorView::NoContract { address, should_exclude } => (if should_exclude {
                "[excludeSelectors] address does not have an associated contract: "@
            } else {
                "[targetSelectors] address does not have an associated contract: "@
            }) + checksummed(address),
            SelectionErrorView::UnknownFunction { identifier, selector } => identifier
                + " does not have the selector "@ + ("0x"@ + hex(selector.bytes@)),
            SelectionErrorView::NoContracts => "No contracts to fuzz."@,
        }
    }
}

impl SelectionError {
    /// The error in words.
    pub fn message(&self) -> (r: String)
        ensures
            r@ == self@.message(),
    {
        match self {
            SelectionError::Lookup(reason) => reason.clone(),
            SelectionError::NotFound(artifact) => {
                let mut out = artifact.clone();
                out.append(
                    " not found in the project. Allowed format: `contract_name` or `contract_path:contract_name`.",
                );
                out
            },
            SelectionError::NoSelector { artifact, selector } => {
                let digits = hex_text(&selector.to_vec());
                concat3(artifact.as_str(), " does not have the selector ", digits.as_str())
            },
            SelectionError::NoContract { address, should_exclude } => {
                let mut out = if *should_exclude {
                    "[excludeSelectors] address does not have an associated contract: ".to_owned()
                } else {
                    "[targetSelectors] address does not have an associated contract: ".to_owned()
                };
                let digits = checksum_text(*address);
                out.append(digits.as_str());
                out
            },
            SelectionError::UnknownFunction { identifier, selector } => {
                let digits = hex_text(&selector.to_vec());
                concat3(identifier.as_str(), " does not have the selector ", digits.as_str())
            },
            SelectionError::NoContracts => "No contracts to fuzz.".to_owned(),
        }
    }
}

/// The error of a result, if it is one.
pub open spec fn error_of<A>(result: Result<A, SelectionError>) -> Option<SelectionErrorView> {
    match result {
        Ok(_) => None,
        Err(error) => Some(error@),
    }
}

/// The larger of two numbers.
pub open spec fn larger(a: nat, b: nat) -> nat {
    if a >= b {
        a
    } else {
        b
    }
}

/// The number of workers of a campaign of `runs` runs: as many as there are threads for each of
/// the campaigns that run at once, but no more than there are runs for.
pub open spec fn workers_for(runs: nat, threads: nat, campaigns: nat) -> nat {
    let available = larger(1, threads / larger(1, campaigns));
    let wanted = if runs == 0 {
        0
    } else {
        larger(1, runs / MIN_RUNS_PER_WORKER as nat)
    };
    if available <= wanted {
        available
    } else {
        wanted
    }
}

/// The number of workers of a campaign.
pub fn worker_count(runs: u32, threads: usize, campaigns: usize) -> (r: usize)
    ensures
        r == workers_for(runs as nat, threads as nat, campaigns as nat),
{
    let shared = if campaigns > 1 {
        campaigns
    } else {
        1
    };
    let available = if threads / shared > 1 {
        threads / shared
    } else {
        1
    };
    let wanted: u32 = if runs == 0 {
        0
    } else if runs / MIN_RUNS_PER_WORKER > 1 {
        runs / MIN_RUNS_PER_WORKER
    } else {
        1
    };
    if available <= wanted as usize {
        available
    } else {
        wanted as usize
    }
}

/// A campaign with runs has a worker, one without has none; and where there are several workers
/// there are enough runs for each of them.
pub proof fn workers_have_enough_runs(runs: nat, threads: nat, campaigns: nat)
    ensures
        workers_for(runs, threads, campaigns) == 0 <==> runs == 0,
        workers_for(runs, threads, campaigns) <= runs,
        workers_for(runs, threads, campaigns) > 1 ==> MIN_RUNS_PER_WORKER * workers_for(runs, threads, campaigns)
            <= runs,
{
    let n = workers_for(runs, threads, campaigns);
    if n > 1 {
        assert(MIN_RUNS_PER_WORKER * n <= runs) by {
            assert(n <= runs / 1000);
        }
    }
}

/// The number of runs of a worker: an even share, and one run more for the first workers where
/// the runs do not divide evenly.
pub open spec fn share_of_runs(runs: nat, workers: nat, worker_id: nat) -> nat {
    runs / workers + if worker_id < runs % workers {
        1nat
    } else {
        0nat
    }
}

/// The runs of the first `n` workers together.
pub open spec fn runs_of_first(runs: nat, workers: nat, n: nat) -> nat
    decreases n,
{
    if n == 0 {
        0
    } else {
        runs_of_first(runs, workers, (n - 1) as nat) + share_of_runs(runs, workers, (n - 1) as nat)
    }
}

/// The workers make all runs of the campaign together, and no two of them differ by more than one
/// run.
pub proof fn workers_share_all_runs(runs: nat, workers: nat, a: nat, b: nat)
    requires
        workers > 0,
    ensures
        runs_of_first(runs, workers, workers) == runs,
        share_of_runs(runs, workers, a) <= share_of_runs(runs, workers, b) + 1,
{
    first_shares(runs, workers, workers);
    assert(workers * (runs / workers) + runs % workers == runs) by {
        vstd::arithmetic::div_mod::lemma_fundamental_div_mod(runs as int, workers as int);
    }
}

/// The runs of the first `n` workers together, in closed form.
proof fn first_shares(runs: nat, workers: nat, n: nat)
    requires
        workers > 0,
        n <= workers,
    ensures
        runs_of_first(runs, workers, n) == n * (runs / workers) + (if n <= runs % workers {
            n
        } else {
            runs % workers
        }),
    decreases n,
{
    if n > 0 {
        first_shares(runs, workers, (n - 1) as nat);
        let q = runs / workers;
        assert(n * q == (n - 1) * q + q) by (nonlinear_arith);
    } else {
        assert(0 * (runs / workers) == 0) by (nonlinear_arith);
    }
}

/// `rayon::current_num_threads`: the number of threads of the current pool. It depends on the machine,
/// so nothing is stated of it.
#[verifier::external_body]
fn current_num_threads() -> (r: usize) {
    rayon::current_num_threads()
}

/// The set-up of a campaign.
pub struct InvariantExecutor {
    /// The configuration of the campaign.
    pub config: InvariantConfig,
    /// The contracts that were deployed before the campaign.
    pub setup_contracts: OrderedMap<Address, SetupContract>,
    /// The contracts of the project.
    pub project_contracts: Vec<ProjectContract>,
    /// Which artifacts are fuzzed.
    pub artifact_filters: ArtifactFilters,
    /// The number of workers.
    pub num_workers: usize,
}

impl InvariantExecutor {
    /// All maps are in the order of their keys.
    pub open spec fn wf(self) -> bool {
        &&& self.setup_contracts.wf()
        &&& forall|i: int|
            0 <= i < self.setup_contracts.entries@.len() ==> (#[trigger] self.setup_contracts.entries@[i]).1.abi.wf()
        &&& forall|i: int| 0 <= i < self.project_contracts@.len() ==> (#[trigger] self.project_contracts@[i]).abi.wf()
        &&& self.artifact_filters.wf()
        &&& self.num_workers <= u32::MAX
    }

    /// The deployed contracts.
    pub open spec fn setup(self) -> Map<Address, SetupView> {
        setup_models(self.setup_contracts@)
    }

    /// The contracts of the project.
    pub open spec fn project(self) -> Seq<ProjectView> {
        project_models(self.project_contracts@)
    }

    /// The set-up of one of `num_invariant_contracts` campaigns that share the threads of the
    /// machine.
    pub fn new(
        config: InvariantConfig,
        setup_contracts: OrderedMap<Address, SetupContract>,
        project_contracts: Vec<ProjectContract>,
        num_invariant_contracts: usize,
    ) -> (r: InvariantExecutor)
        requires
            setup_contracts.wf(),
            forall|i: int| 0 <= i < setup_contracts.entries@.len() ==> (#[trigger] setup_contracts.entries@[i]).1.abi.wf(),
            forall|i: int| 0 <= i < project_contracts@.len() ==> (#[trigger] project_contracts@[i]).abi.wf(),
        ensures
            r.wf(),
            r.config == config,
            r.setup_contracts == setup_contracts,
            r.project_contracts == project_contracts,
            r.artifact_filters@ == ArtifactFiltersView::none(),
            exists|threads: nat|
                r.num_workers == #[trigger] workers_for(config.runs as nat, threads, num_invariant_contracts as nat),
    {
        let threads = current_num_threads();
        let num_workers = worker_count(config.runs, threads, num_invariant_contracts);
        proof {
            workers_have_enough_runs(config.runs as nat, threads as nat, num_invariant_contracts as nat);
        }
        InvariantExecutor {
            config,
            setup_contracts,
            project_contracts,
            artifact_filters: ArtifactFilters::new(),
            num_workers,
        }
    }

    /// Whether all maps are in the order of their keys, and the number of workers is representable.
    pub fn is_valid(&self) -> (r: bool)
        ensures
            r == self.wf(),
    {
        let mut i: usize = 0;
        while i < self.setup_contracts.entries.len()
            invariant
                i <= self.setup_contracts.entries@.len(),
                forall|j: int| 0 <= j < i ==> (#[trigger] self.setup_contracts.entries@[j]).1.abi.wf(),
            decreases self.setup_contracts.entries@.len() - i,
        {
            if !self.setup_contracts.entries[i].1.abi.is_valid() {
                assert(!self.setup_contracts.entries@[i as int].1.abi.wf());
                return false;
            }
            i += 1;
        }
        let mut k: usize = 0;
        while k < self.project_contracts.len()
            invariant
                k <= self.project_contracts@.len(),
                forall|j: int| 0 <= j < k ==> (#[trigger] self.project_contracts@[j]).abi.wf(),
            decreases self.project_contracts@.len() - k,
        {
            if !self.project_contracts[k].abi.is_valid() {
                assert(!self.project_contracts@[k as int].abi.wf());
                return false;
            }
            k += 1;
        }
        self.setup_contracts.is_sorted() && self.artifact_filters.targeted.is_sorted() && self.num_workers
            <= u32::MAX as usize
    }

    /// The configuration of the campaign.
    pub fn config(self) -> (r: InvariantConfig)
        ensures
            r == self.config,
    {
        self.config
    }

    /// The number of runs of a worker.
    pub fn runs_per_worker(&self, worker_id: usize) -> (r: u32)
        requires
            0 < self.num_workers <= u32::MAX,
            worker_id <= u32::MAX,
        ensures
            r == share_of_runs(self.config.runs as nat, self.num_workers as nat, worker_id as nat),
    {
        let worker_id = worker_id as u32;
        let total_runs = self.config.runs;
        let n = self.num_workers as u32;
        let runs = total_runs / n;
        let remainder = total_runs % n;
        if worker_id < remainder {
            proof {
                assert(n > 1);
                assert(total_runs > 0) by {
                    if total_runs == 0 {
                        vstd::arithmetic::div_mod::lemma_small_mod(0, n as nat);
                    }
                }
                assert(runs < total_runs) by (nonlinear_arith)
                    requires
                        n > 1,
                        runs == total_runs / n,
                        total_runs > 0,
                ;
            }
            runs + 1
        } else {
            runs
        }
    }
}

/// There are no more workers than threads for each campaign, but for one that there always is; and no more than
/// one for each thousand runs, but for the first. There are as many as that allows.
pub proof fn there_are_as_many_workers_as_allowed(runs: nat, threads: nat, campaigns: nat)
    requires
        runs > 0,
    ensures
        ({
            let workers = workers_for(runs, threads, campaigns);
            &&& workers > 1 ==> workers * 1000 <= runs
            &&& campaigns > 0 && workers > 1 ==> workers * campaigns <= threads
            &&& campaigns == 0 && workers > 1 ==> workers <= threads
            &&& campaigns > 0 ==> (workers + 1) * 1000 > runs || (workers + 1) * campaigns > threads
            &&& campaigns == 0 ==> (workers + 1) * 1000 > runs || workers + 1 > threads
        }),
{
    let each = larger(1, campaigns);
    let workers = workers_for(runs, threads, campaigns);
    let q = threads / each;
    let r = runs / 1000;
    vstd::arithmetic::div_mod::lemma_fundamental_div_mod(threads as int, each as int);
    vstd::arithmetic::div_mod::lemma_fundamental_div_mod(runs as int, 1000);
    assert(q * each <= threads < (q + 1) * each) by (nonlinear_arith)
        requires
            threads as int == each as int * (threads as int / each as int) + threads as int % each as int,
            0 <= threads as int % each as int,
            (threads as int % each as int) < each,
            q as int == threads as int / each as int,
    ;
    if workers <= q {
        assert(workers * each <= q * each) by (nonlinear_arith)
            requires
                workers <= q,
        ;
    }
    if workers >= q {
        assert((workers + 1) * each >= (q + 1) * each) by (nonlinear_arith)
            requires
                workers >= q,
        ;
    }
    assert(workers * 1 == workers);
}

/// Each worker makes an even share of the runs, rounded down or up; and a worker never makes fewer than one with
/// a larger number.
pub proof fn earlier_workers_make_no_fewer_runs(runs: nat, workers: nat, a: nat, b: nat)
    requires
        workers > 0,
        a <= b,
    ensures
        share_of_runs(runs, workers, a) >= share_of_runs(runs, workers, b),
        share_of_runs(runs, workers, a) * workers + workers > runs,
        share_of_runs(runs, workers, a) * workers < runs + workers,
{
    vstd::arithmetic::div_mod::lemma_fundamental_div_mod(runs as int, workers as int);
    let q = runs / workers;
    let share = share_of_runs(runs, workers, a);
    assert(share * workers + workers > runs) by (nonlinear_arith)
        requires
            runs as int == workers as int * (runs as int / workers as int) + runs as int % workers as int,
            (runs as int % workers as int) < workers,
            q as int == runs as int / workers as int,
            share >= q,
    ;
    assert(share * workers < runs + workers) by (nonlinear_arith)
        requires
            runs as int == workers as int * (runs as int / workers as int) + runs as int % workers as int,
            0 <= runs as int % workers as int,
            workers > 0,
            q as int == runs as int / workers as int,
            share == q || share == q + 1 && runs as int % workers as int > 0,
    ;
}

/// The words of an error tell what it is about: the artifact or the contract, the address with its checksum, and
/// the selector in hexadecimal.
pub proof fn errors_tell_what_they_are_about(text: Seq<char>, selector: Selector, address: Address)
    ensures
        SelectionErrorView::Lookup(text).message() == text,
        SelectionErrorView::NotFound(text).message() == text
            + " not found in the project. Allowed format: `contract_name` or `contract_path:contract_name`."@,
        (SelectionErrorView::NoSelector { artifact: text, selector }).message() == text
            + " does not have the selector "@ + ("0x"@ + hex(selector.bytes@)),
        (SelectionErrorView::UnknownFunction { identifier: text, selector }).message() == text
            + " does not have the selector "@ + ("0x"@ + hex(selector.bytes@)),
        (SelectionErrorView::NoContract { address, should_exclude: true }).message()
            == "[excludeSelectors] address does not have an associated contract: "@ + checksummed(address),
        (SelectionErrorView::NoContract { address, should_exclude: false }).message()
            == "[targetSelectors] address does not have an associated contract: "@ + checksummed(address),
        SelectionErrorView::NoContracts.message() == "No contracts to fuzz."@,
{
}

/// Contracts are known by all of their parts: deployed ones at their addresses, those of the project in their
/// order.
pub proof fn known_contracts_are_known_by_their_parts(
    deployed: Map<Address, SetupContract>,
    project: Seq<ProjectContract>,
    address: Address,
    i: int,
)
    ensures
        setup_models(deployed).dom().contains(address) == deployed.dom().contains(address),
        deployed.dom().contains(address) ==> {
            &&& setup_models(deployed)[address].identifier == deployed[address].identifier@
            &&& setup_models(deployed)[address].abi == deployed[address].abi@
            &&& setup_models(deployed)[address].storage_layout == deployed[address].storage_layout
        },
        project_models(project).len() == project.len(),
        0 <= i < project.len() ==> {
            &&& project_models(project)[i].name == project[i].name@
            &&& project_models(project)[i].identifier == project[i].identifier@
            &&& project_models(project)[i].abi == project[i].abi@
            &&& project_models(project)[i].storage_layout == project[i].storage_layout
        },
{
}

/// Errors are known by what they are about.
pub proof fn errors_are_known_by_what_they_are_about(error: SelectionError)
    ensures
        error matches SelectionError::Lookup(text) ==> error@ == SelectionErrorView::Lookup(text@),
        error matches SelectionError::NotFound(text) ==> error@ == SelectionErrorView::NotFound(text@),
        error matches SelectionError::NoSelector { artifact, selector } ==> error@ == (SelectionErrorView::NoSelector {
            artifact: artifact@,
            selector,
        }),
        error matches SelectionError::NoContract { address, should_exclude } ==> error@
            == (SelectionErrorView::NoContract { address, should_exclude }),
        error matches SelectionError::UnknownFunction { identifier, selector } ==> error@
            == (SelectionErrorView::UnknownFunction { identifier: identifier@, selector }),
        error is NoContracts ==> error@ is NoContracts,
        error_of(Err::<(), SelectionError>(error)) == Some(error@),
        error_of(Ok::<(), SelectionError>(())) is None,
{
}

} // verus!
