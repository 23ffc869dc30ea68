//! Calls that are made in place of external calls, to try reentrancy.

use proptest::test_runner::TestRunner;
use rand::rngs::StdRng;
use vstd::prelude::*;

use crate::abi::AbiFunction;
use crate::filters::contains_address;
use crate::fixed::Address;
use crate::random::random_ratio;
use crate::strategy::{is_override, override_call_strat, OverrideTarget};
use crate::tx::{
    clone_optional_tx, optional_tx_model, optional_tx_models, BasicTxDetails, BasicTxDetailsView, CallDetails,
    CallDetailsView,
};

verus! {

/// Gives the calls that are made in place of external calls to handlers, or replays those that were.
pub struct RandomCallGenerator {
    /// The address of the test contract.
    pub test_address: Address,
    /// The contracts whose calls are replaced.
    pub handler_addresses: Vec<Address>,
    /// The contract that calls are mostly made to.
    pub target_reference: Address,
    /// How deep in replaced calls the execution is.
    pub override_depth: usize,
    /// Whether calls are replayed.
    pub replay: bool,
    /// The calls that were given, or those to be replayed, the next one last.
    pub last_sequence: Vec<Option<BasicTxDetails>>,
}

/// The model of a [`RandomCallGenerator`].
pub struct GeneratorView {
    pub test_address: Address,
    pub handler_addresses: Seq<Address>,
    pub target_reference: Address,
    pub override_depth: nat,
    pub replay: bool,
    pub last_sequence: Seq<Option<BasicTxDetailsView>>,
}

impl View for RandomCallGenerator {
    type V = GeneratorView;

    open spec fn view(&self) -> GeneratorView {
        GeneratorView {
            test_address: self.test_address,
            handler_addresses: self.handler_addresses@,
            target_reference: self.target_reference,
            override_depth: self.override_depth as nat,
            replay: self.replay,
            last_sequence: optional_tx_models(self.last_sequence@),
        }
    }
}

/// The transaction that makes a call in place of another one: its sender is the contract that was
/// called.
pub open spec fn override_tx(call: Option<CallDetailsView>, original_target: Address) -> Option<BasicTxDetailsView> {
    match call {
        Some(call_details) => Some(
            BasicTxDetailsView { warp: None, roll: None, deal: None, sender: original_target, call_details },
        ),
        None => None,
    }
}

/// The model of an optional call.
pub open spec fn optional_call(call: Option<CallDetails>) -> Option<CallDetailsView> {
    match call {
        Some(call) => Some(call@),
        None => None,
    }
}

impl GeneratorView {
    /// The generator after replay was switched.
    pub open spec fn switched(self, status: bool) -> GeneratorView {
        GeneratorView {
            replay: status,
            last_sequence: if status {
                self.last_sequence.reverse()
            } else {
                self.last_sequence
            },
            ..self
        }
    }

    /// The next call, and the generator after it. A replayed call is the last of the sequence, and
    /// leaves it. Any other is what was chosen, which joins the sequence.
    pub open spec fn stepped(
        self,
        original_caller: Address,
        original_target: Address,
        chosen: Option<CallDetailsView>,
    ) -> (GeneratorView, Option<BasicTxDetailsView>) {
        if self.replay {
            (GeneratorView { last_sequence: self.last_sequence.drop_last(), ..self }, self.last_sequence.last())
        } else {
            let choice = override_tx(chosen, original_target);
            (
                GeneratorView {
                    target_reference: original_caller,
                    last_sequence: self.last_sequence.push(choice),
                    ..self
                },
                choice,
            )
        }
    }
}

impl RandomCallGenerator {
    /// A generator that has not given a call.
    pub fn new(test_address: Address, handler_addresses: Vec<Address>, target_reference: Address) -> (r:
        RandomCallGenerator)
        ensures
            r@ == (GeneratorView {
                test_address,
                handler_addresses: handler_addresses@,
                target_reference,
                override_depth: 0,
                replay: false,
                last_sequence: Seq::empty(),
            }),
    {
        let r = RandomCallGenerator {
            test_address,
            handler_addresses,
            target_reference,
            override_depth: 0,
            replay: false,
            last_sequence: Vec::new(),
        };
        assert(optional_tx_models(r.last_sequence@) =~= Seq::empty());
        r
    }

    /// Whether calls to `address` are replaced.
    pub fn is_handler(&self, address: Address) -> (r: bool)
        ensures
            r == self@.handler_addresses.contains(address),
    {
        contains_address(&self.handler_addresses, address)
    }

    /// Switches replay. Where it is switched on, the calls that were given are replayed from the first
    /// one on.
    pub fn set_replay(&mut self, status: bool)
        ensures
            final(self)@ == old(self)@.switched(status),
    {
        self.replay = status;
        if status {
            let ghost before = self.last_sequence@;
            let n = self.last_sequence.len();
            let mut reversed: Vec<Option<BasicTxDetails>> = Vec::new();
            let mut i: usize = 0;
            while i < n
                invariant
                    i <= n,
                    n == before.len(),
                    self.last_sequence@ == before.take(n - i),
                    reversed@.len() == i,
                    forall|j: int| 0 <= j < i ==> #[trigger] reversed@[j] == before[n - 1 - j],
                    self.test_address == old(self).test_address,
                    self.handler_addresses == old(self).handler_addresses,
                    self.target_reference == old(self).target_reference,
                    self.override_depth == old(self).override_depth,
                    self.replay == status,
                decreases n - i,
            {
                if let Some(last) = self.last_sequence.pop() {
                    reversed.push(last);
                }
                assert(self.last_sequence@ =~= before.take(n - i - 1));
                i += 1;
            }
            self.last_sequence = reversed;
            assert(optional_tx_models(self.last_sequence@) =~= optional_tx_models(before).reverse());
        }
    }

    /// The contract and the function of the next call, as [`override_call_strat`] draws them: mostly those
    /// of the contract that made the external call. There is a contract, and each has a function. Nothing
    /// is drawn while calls are replayed.
    pub fn draw_target(
        &mut self,
        original_caller: Address,
        contracts: &Vec<OverrideTarget>,
        runner: &mut TestRunner,
    ) -> (r: (Address, AbiFunction))
        requires
            !old(self)@.replay,
            contracts@.len() > 0,
            forall|i: int| 0 <= i < contracts@.len() ==> (#[trigger] contracts@[i]).functions@.len() > 0,
        ensures
            final(self)@ == (GeneratorView { target_reference: original_caller, ..old(self)@ }),
            exists|preferred: bool, place: int, other: int, function: int| #[trigger]
                is_override(contracts@, original_caller, preferred, place, other, function, r.0, r.1@),
    {
        self.target_reference = original_caller;
        override_call_strat(contracts, self.target_reference, runner)
    }

    /// The next call, where `chosen` is what was chosen to be called if calls are not replayed. A
    /// replayed sequence is not used up.
    pub fn next_with(
        &mut self,
        original_caller: Address,
        original_target: Address,
        chosen: Option<CallDetails>,
    ) -> (r: Option<BasicTxDetails>)
        requires
            old(self)@.replay ==> old(self)@.last_sequence.len() > 0,
        ensures
            (final(self)@, optional_tx_model(r)) == old(self)@.stepped(
                original_caller,
                original_target,
                optional_call(chosen),
            ),
    {
        let ghost before = self.last_sequence@;
        if self.replay {
            assert(before.len() == self@.last_sequence.len());
            let last = match self.last_sequence.pop() {
                Some(last) => last,
                None => None,
            };
            assert(optional_tx_models(self.last_sequence@) =~= optional_tx_models(before).drop_last());
            last
        } else {
            self.target_reference = original_caller;
            let choice = match chosen {
                Some(call_details) => Some(
                    BasicTxDetails { warp: None, roll: None, deal: None, sender: original_target, call_details },
                ),
                None => None,
            };
            let kept = clone_optional_tx(&choice);
            self.last_sequence.push(kept);
            assert(optional_tx_models(self.last_sequence@) =~= optional_tx_models(before).push(
                optional_tx_model(choice),
            ));
            choice
        }
    }

    /// The next call: replayed, or in nine of ten cases `call`, and else none. `call` is a call of what
    /// [`RandomCallGenerator::draw_target`] gave for the caller. A replayed sequence is not used up, and
    /// nothing is drawn for it.
    pub fn next(
        &mut self,
        original_caller: Address,
        original_target: Address,
        call: CallDetails,
        rng: &mut StdRng,
    ) -> (r: Option<BasicTxDetails>)
        requires
            old(self)@.replay ==> old(self)@.last_sequence.len() > 0,
        ensures
            ({
                let after = (final(self)@, optional_tx_model(r));
                ||| after == old(self)@.stepped(original_caller, original_target, Some(call@))
                ||| after == old(self)@.stepped(original_caller, original_target, None)
            }),
            old(self)@.replay ==> *final(rng) == *old(rng),
    {
        let (share, cases) = override_share();
        let chosen = if !self.replay && random_ratio(rng, share, cases) {
            Some(call)
        } else {
            None
        };
        self.next_with(original_caller, original_target, chosen)
    }
}

/// How many cases of how many replace an external call.
pub fn override_share() -> (r: (u32, u32))
    ensures
        r == (9u32, 10u32),
{
    (9, 10)
}

/// The generator after `n` calls that were replayed.
pub open spec fn after_replaying(generator: GeneratorView, n: nat) -> GeneratorView
    decreases n,
{
    if n == 0 {
        generator
    } else {
        let before = after_replaying(generator, (n - 1) as nat);
        GeneratorView { last_sequence: before.last_sequence.drop_last(), ..before }
    }
}

/// A replay gives the calls that were given before, in their order: after replay was switched on, the
/// call with number `n` is the one that was given as number `n`, whatever is asked for.
pub proof fn replay_gives_the_same_calls(
    generator: GeneratorView,
    n: nat,
    caller: Address,
    target: Address,
    chosen: Option<CallDetailsView>,
)
    requires
        n < generator.last_sequence.len(),
    ensures
        ({
            let replaying = after_replaying(generator.switched(true), n);
            &&& replaying.replay
            &&& replaying.last_sequence.len() == generator.last_sequence.len() - n
            &&& replaying.stepped(caller, target, chosen).1 == generator.last_sequence[n as int]
            &&& replaying.stepped(caller, target, chosen).0 == after_replaying(generator.switched(true), n + 1)
        }),
    decreases n,
{
    replayed_prefix(generator, n);
}

/// What is left of a replayed sequence.
proof fn replayed_prefix(generator: GeneratorView, n: nat)
    requires
        n <= generator.last_sequence.len(),
    ensures
        after_replaying(generator.switched(true), n).replay,
        after_replaying(generator.switched(true), n).last_sequence == generator.last_sequence.reverse().take(
            generator.last_sequence.len() - n,
        ),
    decreases n,
{
    let all = generator.last_sequence.reverse();
    if n == 0 {
        assert(all.take(generator.last_sequence.len() as int) =~= all);
    } else {
        replayed_prefix(generator, (n - 1) as nat);
        assert(all.take(generator.last_sequence.len() - n + 1).drop_last() =~= all.take(
            generator.last_sequence.len() - n,
        ));
    }
}

/// A call that is given joins the sequence behind those given before, and is sent by the contract that was
/// called, without delays and without being dealt anything; what was chosen is called as it is. Where nothing was
/// chosen no call is given, and that joins the sequence, too. The contract that made the external call is the
/// one that further calls are mostly made to.
pub proof fn given_calls_join_the_sequence(
    generator: GeneratorView,
    caller: Address,
    target: Address,
    chosen: Option<CallDetailsView>,
    i: int,
)
    requires
        !generator.replay,
    ensures
        ({
            let (after, given) = generator.stepped(caller, target, chosen);
            &&& given is Some == chosen is Some
            &&& given matches Some(tx) ==> {
                &&& tx.sender == target
                &&& tx.call_details == chosen->0
                &&& tx.warp is None
                &&& tx.roll is None
                &&& tx.deal is None
            }
            &&& after.last_sequence.len() == generator.last_sequence.len() + 1
            &&& after.last_sequence.last() == given
            &&& 0 <= i < generator.last_sequence.len() ==> after.last_sequence[i] == generator.last_sequence[i]
            &&& after.target_reference == caller
            &&& after.test_address == generator.test_address
            &&& after.handler_addresses == generator.handler_addresses
            &&& after.override_depth == generator.override_depth
            &&& !after.replay
        }),
{
}

/// A replayed call is the last of the sequence and leaves it; nothing that is asked for matters, and nothing else
/// changes.
pub proof fn replayed_calls_leave_the_sequence(
    generator: GeneratorView,
    caller: Address,
    target: Address,
    chosen: Option<CallDetailsView>,
    i: int,
)
    requires
        generator.replay,
        generator.last_sequence.len() > 0,
    ensures
        ({
            let (after, given) = generator.stepped(caller, target, chosen);
            &&& given == generator.last_sequence[generator.last_sequence.len() - 1]
            &&& after.last_sequence.len() == generator.last_sequence.len() - 1
            &&& 0 <= i < generator.last_sequence.len() - 1 ==> after.last_sequence[i] == generator.last_sequence[i]
            &&& after.target_reference == generator.target_reference
            &&& after.test_address == generator.test_address
            &&& after.handler_addresses == generator.handler_addresses
            &&& after.override_depth == generator.override_depth
            &&& after.replay
        }),
{
}

/// Switching replay on turns the sequence round, so that the first call stands last; switching it off leaves the
/// sequence alone. Nothing else changes.
pub proof fn switching_replay_turns_the_sequence_round(generator: GeneratorView, i: int)
    ensures
        generator.switched(true).replay,
        !generator.switched(false).replay,
        generator.switched(true).last_sequence.len() == generator.last_sequence.len(),
        0 <= i < generator.last_sequence.len() ==> generator.switched(true).last_sequence[i]
            == generator.last_sequence[generator.last_sequence.len() - 1 - i],
        generator.switched(false).last_sequence == generator.last_sequence,
        forall|status: bool|
            {
                &&& (#[trigger] generator.switched(status)).target_reference == generator.target_reference
                &&& generator.switched(status).test_address == generator.test_address
                &&& generator.switched(status).handler_addresses == generator.handler_addresses
                &&& generator.switched(status).override_depth == generator.override_depth
            },
{
}

/// A generator is known by all of its parts, and so is a call that may be missing.
pub proof fn generators_are_known_by_their_parts(generator: RandomCallGenerator, call: Option<CallDetails>)
    ensures
        generator@.test_address == generator.test_address,
        generator@.handler_addresses == generator.handler_addresses@,
        generator@.target_reference == generator.target_reference,
        generator@.override_depth == generator.override_depth,
        generator@.replay == generator.replay,
        generator@.last_sequence == optional_tx_models(generator.last_sequence@),
        optional_call(call) is Some == call is Some,
        call matches Some(details) ==> optional_call(call) == Some(details@),
{
}

} // verus!
