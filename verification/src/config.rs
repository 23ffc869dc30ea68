//! What an invariant campaign is configured with and what it checks.

use vstd::prelude::*;

use crate::abi::{AbiFunction, AbiFunctionView};
use crate::fixed::Address;

verus! {

/// The configuration of an invariant campaign.
#[derive(Clone, Copy, Debug, PartialEq, Eq, Structural)]
pub struct InvariantConfig {
    /// The number of runs.
    pub runs: u32,
    /// The number of calls in one run.
    pub depth: u32,
    /// Whether a revert fails the campaign.
    pub fail_on_revert: bool,
    /// Whether a failed Solidity assertion fails the campaign.
    pub fail_on_assert: bool,
    /// Whether calls to handlers are overridden with generated calls.
    pub call_override: bool,
    /// The share, in percent, of senders that come from the dictionary.
    pub dictionary_weight: u32,
    /// The number of attempts to shrink a failing sequence.
    pub shrink_run_limit: u32,
    /// The number of calls of one run that may be rejected by an assumption.
    pub max_assume_rejects: u32,
    /// The number of runs whose traces are kept for the gas report.
    pub gas_report_samples: u32,
    /// The largest time, in seconds, between two blocks, if time passes at all.
    pub max_time_delay: Option<u32>,
    /// The largest number of blocks between two calls, if blocks pass at all.
    pub max_block_delay: Option<u32>,
    /// How often invariants are checked: every so many calls; zero for the last call only.
    pub check_interval: u32,
    /// Whether metrics are kept per selector.
    pub show_metrics: bool,
}

/// The contract whose invariants are checked.
pub struct InvariantContract {
    /// Its address.
    pub address: Address,
    /// The invariant that names the campaign.
    pub invariant_fn: AbiFunction,
    /// The invariants to check; each with whether a revert of any call breaks it.
    pub invariant_fns: Vec<(AbiFunction, bool)>,
    /// Whether the contract declares `afterInvariant`.
    pub call_after_invariant: bool,
    /// Whether the invariant returns an integer that the campaign maximizes.
    pub optimization: bool,
}

/// The model of an [`InvariantContract`].
pub struct InvariantContractView {
    pub address: Address,
    pub invariant_fn: AbiFunctionView,
    pub invariant_fns: Seq<(AbiFunctionView, bool)>,
    pub call_after_invariant: bool,
    pub optimization: bool,
}

impl View for InvariantContract {
    type V = InvariantContractView;

    open spec fn view(&self) -> InvariantContractView {
        InvariantContractView {
            address: self.address,
            invariant_fn: self.invariant_fn@,
            invariant_fns: Seq::new(
                self.invariant_fns@.len(),
                |i: int| (self.invariant_fns@[i].0@, self.invariant_fns@[i].1),
            ),
            call_after_invariant: self.call_after_invariant,
            optimization: self.optimization,
        }
    }
}

impl Clone for InvariantContract {
    fn clone(&self) -> (r: Self)
        ensures
            r@ == self@,
    {
        let mut invariant_fns: Vec<(AbiFunction, bool)> = Vec::new();
        let mut i: usize = 0;
        while i < self.invariant_fns.len()
            invariant
                i <= self.invariant_fns@.len(),
                invariant_fns@.len() == i,
                forall|j: int|
                    0 <= j < i ==> {
                        &&& (#[trigger] invariant_fns@[j]).0@ == self.invariant_fns@[j].0@
                        &&& invariant_fns@[j].1 == self.invariant_fns@[j].1
                    },
            decreases self.invariant_fns@.len() - i,
        {
            invariant_fns.push((self.invariant_fns[i].0.clone(), self.invariant_fns[i].1));
            i += 1;
        }
        let r = InvariantContract {
            address: self.address,
            invariant_fn: self.invariant_fn.clone(),
            invariant_fns,
            call_after_invariant: self.call_after_invariant,
            optimization: self.optimization,
        };
        assert(r@.invariant_fns =~= self@.invariant_fns);
        r
    }
}

impl InvariantContract {
    /// Whether the campaign maximizes a value in place of checking invariants.
    pub fn is_optimization(&self) -> (r: bool)
        ensures
            r == self@.optimization,
    {
        self.optimization
    }
}

/// A contract is known by its address, what names the campaign, and each of its invariants in order, with
/// whether a revert breaks it.
pub proof fn contracts_are_known_by_their_parts(contract: InvariantContract, i: int)
    ensures
        contract@.address == contract.address,
        contract@.invariant_fn == contract.invariant_fn@,
        contract@.invariant_fns.len() == contract.invariant_fns@.len(),
        0 <= i < contract.invariant_fns@.len() ==> contract@.invariant_fns[i].0 == contract.invariant_fns@[i].0@
            && contract@.invariant_fns[i].1 == contract.invariant_fns@[i].1,
        contract@.call_after_invariant == contract.call_after_invariant,
        contract@.optimization == contract.optimization,
{
}

} // verus!
