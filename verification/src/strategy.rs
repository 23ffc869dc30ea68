//! The next call of a run: which contract and function, from which sender, and with what.

use proptest::test_runner::TestRunner;
use rand::rngs::StdRng;
use vstd::prelude::*;

use crate::abi::{
    encoded_values, function_models, inputs_match, sol_type_named, AbiFunction, AbiFunctionView, StateMutability,
};
use crate::calldata::{
    fixtures_of, try_calldata, try_calldata_from_state, values_fit, values_from_state, CalldataStrategy, FuzzFixtures,
};
use crate::config::InvariantConfig;
use crate::dictionary::{samples_for, FuzzDictionary, SampleDraws, WordType};
use crate::filters::SenderFilters;
use crate::fixed::{word_from_u64, word_rem, Address, Word};
use crate::param::{
    drawn_values_are_bounded, drawn_values_may_be_any_up_to_an_ether, from_state, fuzz_msg_value, fuzz_param,
    fuzz_param_from_state, is_msg_value, tidied, tidied_from_state, ONE_ETH,
};
use crate::random::{any_word, avoid, choose_place, index_place, select_place, weighted};
use crate::sol::{type_matches, value_models, SolType, SolTypeView, SolValue, SolValueView};
use crate::targets::TargetedContract;
use crate::tx::{BasicTxDetails, CallDetails, CallDetailsView};

verus! {

/// What is called of a contract.
pub enum TargetCall {
    Function(AbiFunction),
    Fallback { payable: bool },
    Receive,
}

/// The model of a [`TargetCall`].
pub enum TargetCallView {
    Function(AbiFunctionView),
    Fallback { payable: bool },
    Receive,
}

impl View for TargetCall {
    type V = TargetCallView;

    open spec fn view(&self) -> TargetCallView {
        match *self {
            TargetCall::Function(function) => TargetCallView::Function(function@),
            TargetCall::Fallback { payable } => TargetCallView::Fallback { payable },
            TargetCall::Receive => TargetCallView::Receive,
        }
    }
}

impl Clone for TargetCall {
    fn clone(&self) -> (r: Self)
        ensures
            r@ == self@,
    {
        match self {
            TargetCall::Function(function) => TargetCall::Function(function.clone()),
            TargetCall::Fallback { payable } => TargetCall::Fallback { payable: *payable },
            TargetCall::Receive => TargetCall::Receive,
        }
    }
}

/// What may be called of a contract.
pub struct CallTarget {
    /// The address of the contract.
    pub address: Address,
    /// The functions that are fuzzed.
    pub functions: Vec<AbiFunction>,
    /// Whether they were chosen, so that nothing else is called.
    pub targeted: bool,
    /// Whether the contract receives plain transfers.
    pub receive: bool,
    /// How the fallback function may touch state, if there is one.
    pub fallback: Option<StateMutability>,
}

/// The calls of `functions` of the contract at `address`.
pub open spec fn function_calls(address: Address, functions: Seq<AbiFunctionView>) -> Seq<(Address, TargetCallView)> {
    Seq::new(functions.len(), |i: int| (address, TargetCallView::Function(functions[i])))
}

/// The calls of a contract: of its functions, and, unless functions were chosen, plain transfers and
/// calls of the fallback function.
pub open spec fn calls_of(target: CallTarget) -> Seq<(Address, TargetCallView)> {
    let functions = function_calls(target.address, function_models(target.functions@));
    let transfers = if !target.targeted && target.receive {
        seq![(target.address, TargetCallView::Receive)]
    } else {
        Seq::empty()
    };
    let fallbacks = if !target.targeted && target.fallback is Some {
        seq![
            (
                target.address,
                TargetCallView::Fallback { payable: target.fallback == Some(StateMutability::Payable) },
            ),
        ]
    } else {
        Seq::empty()
    };
    functions + transfers + fallbacks
}

/// The calls of all contracts.
pub open spec fn all_calls(targets: Seq<CallTarget>) -> Seq<(Address, TargetCallView)>
    decreases targets.len(),
{
    if targets.len() == 0 {
        Seq::empty()
    } else {
        all_calls(targets.drop_last()) + calls_of(targets.last())
    }
}

/// The models of calls.
pub open spec fn call_models(calls: Seq<(Address, TargetCall)>) -> Seq<(Address, TargetCallView)> {
    Seq::new(calls.len(), |i: int| (calls[i].0, calls[i].1@))
}

impl CallTarget {
    /// What may be called of a targeted contract. `functions` are those that are fuzzed.
    pub fn new(address: Address, contract: &TargetedContract, functions: Vec<AbiFunction>) -> (r: CallTarget)
        ensures
            r.address == address,
            r.functions == functions,
            r.targeted == (contract@.targeted_functions.len() > 0),
            r.receive == contract@.abi.receive,
            r.fallback == contract@.abi.fallback,
    {
        CallTarget {
            address,
            functions,
            targeted: contract.targeted_functions.len() > 0,
            receive: contract.abi.receive,
            fallback: contract.abi.fallback,
        }
    }
}

/// Adds the calls of a contract.
fn add_calls(calls: &mut Vec<(Address, TargetCall)>, target: &CallTarget)
    ensures
        call_models(final(calls)@) == call_models(old(calls)@) + calls_of(*target),
{
    let ghost before = call_models(calls@);
    let ghost functions = function_calls(target.address, function_models(target.functions@));
    let mut i: usize = 0;
    assert(before =~= before + functions.take(0));
    while i < target.functions.len()
        invariant
            i <= target.functions@.len(),
            functions == function_calls(target.address, function_models(target.functions@)),
            call_models(calls@) == before + functions.take(i as int),
        decreases target.functions@.len() - i,
    {
        let ghost so_far = calls@;
        let function = target.functions[i].clone();
        calls.push((target.address, TargetCall::Function(function)));
        proof {
            assert(functions[i as int] == (target.address, TargetCallView::Function(function@)));
            assert(call_models(calls@) =~= call_models(so_far).push(functions[i as int]));
            assert(call_models(calls@) =~= before + functions.take(i + 1));
        }
        i += 1;
    }
    assert(functions.take(i as int) =~= functions);
    if !target.targeted {
        if target.receive {
            let ghost so_far = calls@;
            calls.push((target.address, TargetCall::Receive));
            assert(call_models(calls@) =~= call_models(so_far).push((target.address, TargetCallView::Receive)));
        }
        if let Some(mutability) = target.fallback {
            let ghost so_far = calls@;
            let payable = mutability == StateMutability::Payable;
            calls.push((target.address, TargetCall::Fallback { payable }));
            assert(call_models(calls@) =~= call_models(so_far).push(
                (target.address, TargetCallView::Fallback { payable }),
            ));
        }
    }
    assert(call_models(calls@) =~= before + calls_of(*target));
}

/// The calls of all contracts.
pub fn possible_calls(targets: &Vec<CallTarget>) -> (r: Vec<(Address, TargetCall)>)
    ensures
        call_models(r@) == all_calls(targets@),
{
    let mut calls: Vec<(Address, TargetCall)> = Vec::new();
    let mut i: usize = 0;
    assert(call_models(calls@) =~= all_calls(targets@.take(0)));
    while i < targets.len()
        invariant
            i <= targets@.len(),
            call_models(calls@) == all_calls(targets@.take(i as int)),
        decreases targets@.len() - i,
    {
        assert(targets@.take(i + 1).drop_last() =~= targets@.take(i as int));
        assert(targets@.take(i + 1).last() == targets@[i as int]);
        add_calls(&mut calls, &targets[i]);
        i += 1;
    }
    assert(targets@.take(i as int) =~= targets@);
    calls
}

/// The call at a place among those of the contracts.
pub fn call_at(targets: &Vec<CallTarget>, place: usize) -> (r: (Address, TargetCall))
    requires
        place < all_calls(targets@).len(),
    ensures
        (r.0, r.1@) == all_calls(targets@)[place as int],
{
    let calls = possible_calls(targets);
    assert(call_models(calls@)[place as int] == (calls@[place as int].0, calls@[place as int].1@));
    let call = &calls[place];
    (call.0, call.1.clone())
}

/// Some call of the contracts. There is one.
pub fn select_call(targets: &Vec<CallTarget>, runner: &mut TestRunner) -> (r: (Address, TargetCall))
    requires
        all_calls(targets@).len() > 0,
    ensures
        all_calls(targets@).contains((r.0, r.1@)),
{
    let count = possible_calls(targets).len();
    let place = select_place(runner, count);
    call_at(targets, place)
}

/// Where functions of a contract were chosen, neither plain transfers nor its fallback function are
/// called.
pub proof fn chosen_functions_leave_out_special_calls(target: CallTarget, i: int)
    requires
        target.targeted,
        0 <= i < calls_of(target).len(),
    ensures
        calls_of(target)[i].1 is Function,
{
}

/// The weights of a made-up sender and of one from the dictionary.
pub fn sender_weights(dictionary_weight: u32) -> (r: (u32, u32))
    requires
        dictionary_weight <= 100,
    ensures
        r.0 == 100 - dictionary_weight,
        r.1 == dictionary_weight,
{
    (100 - dictionary_weight, dictionary_weight)
}

/// `candidate` is what a sender is drawn as: the generated address where it is made up, and else one
/// from the dictionary.
pub open spec fn is_candidate(
    dictionary: FuzzDictionary,
    made_up: bool,
    generated: Address,
    candidate: Address,
) -> bool {
    if made_up {
        candidate == generated
    } else {
        tidied_from_state(
            dictionary,
            SolTypeView::Address,
            SolValueView::Address(generated),
            SolValueView::Address(candidate),
        )
    }
}

/// What a sender is drawn as: the generated address where it is made up, and else one from the
/// dictionary.
pub fn sender_candidate(
    dictionary: &FuzzDictionary,
    made_up: bool,
    generated: Address,
    rng: &mut StdRng,
) -> (r: Address)
    ensures
        is_candidate(*dictionary, made_up, generated, r),
{
    let value = if made_up {
        fuzz_param(&SolType::Address).generate(rng, SolValue::Address(generated))
    } else {
        fuzz_param_from_state(&SolType::Address, dictionary, SolValue::Address(generated), rng)
    };
    match value {
        SolValue::Address(address) => address,
        _ => generated,
    }
}

/// `sender` is the sender of a call with these draws: the targeted sender at a place, if there are any;
/// and else a candidate, or where that is excluded some address that is not.
pub open spec fn is_sender(
    dictionary: FuzzDictionary,
    targeted: Seq<Address>,
    excluded: Seq<Address>,
    made_up: bool,
    place: int,
    generated: Address,
    sender: Address,
) -> bool {
    if targeted.len() > 0 {
        sender == targeted[place]
    } else {
        &&& !excluded.contains(sender)
        &&& exists|candidate: Address| #[trigger]
            is_candidate(dictionary, made_up, generated, candidate) && (!excluded.contains(candidate) ==> sender
                == candidate)
    }
}

/// The sender of a call with these draws: the targeted sender at a place, if there are any; and else the
/// generated address or one from the dictionary, but none that is excluded.
pub fn sender_with(
    dictionary: &FuzzDictionary,
    senders: &SenderFilters,
    made_up: bool,
    place: usize,
    generated: Address,
    rng: &mut StdRng,
) -> (r: Address)
    requires
        senders.targeted@.len() > 0 ==> place < senders.targeted@.len(),
    ensures
        is_sender(*dictionary, senders.targeted@, senders.excluded@, made_up, place as int, generated, r),
{
    if senders.targeted.len() > 0 {
        return senders.targeted[place];
    }
    let candidate = sender_candidate(dictionary, made_up, generated, rng);
    assert(is_candidate(*dictionary, made_up, generated, candidate));
    avoid(candidate, &senders.excluded)
}

/// `sender` may be the sender of a call: what some draws give. A made-up sender and one from the
/// dictionary are drawn only where they have weight.
pub open spec fn may_send(
    dictionary: FuzzDictionary,
    targeted: Seq<Address>,
    excluded: Seq<Address>,
    dictionary_weight: u32,
    generated: Address,
    sender: Address,
) -> bool {
    exists|made_up: bool, place: int|
        {
            &&& targeted.len() > 0 ==> 0 <= place < targeted.len()
            &&& targeted.len() == 0 && dictionary_weight == 0 ==> made_up
            &&& targeted.len() == 0 && dictionary_weight == 100 ==> !made_up
            &&& #[trigger] is_sender(dictionary, targeted, excluded, made_up, place, generated, sender)
        }
}

/// A sender: one of the targeted senders, if there are any; and else the generated address or one
/// from the dictionary, by its weight, but none that is excluded.
pub fn select_random_sender(
    dictionary: &FuzzDictionary,
    senders: &SenderFilters,
    dictionary_weight: u32,
    generated: Address,
    runner: &mut TestRunner,
    rng: &mut StdRng,
) -> (r: Address)
    requires
        senders.targeted@.len() == 0 ==> dictionary_weight <= 100,
    ensures
        may_send(*dictionary, senders.targeted@, senders.excluded@, dictionary_weight, generated, r),
{
    let mut place: usize = 0;
    let mut made_up: bool = true;
    if senders.targeted.len() > 0 {
        place = index_place(runner, senders.targeted.len());
    } else {
        let weights = sender_weights(dictionary_weight);
        made_up = weighted(runner, weights.0, weights.1);
    }
    let r = sender_with(dictionary, senders, made_up, place, generated, rng);
    assert(is_sender(*dictionary, senders.targeted@, senders.excluded@, made_up, place as int, generated, r));
    r
}

/// Where there are targeted senders the sender is one of them, and else it is not excluded.
pub proof fn senders_are_allowed(
    dictionary: FuzzDictionary,
    targeted: Seq<Address>,
    excluded: Seq<Address>,
    dictionary_weight: u32,
    generated: Address,
    sender: Address,
)
    requires
        may_send(dictionary, targeted, excluded, dictionary_weight, generated, sender),
    ensures
        targeted.len() > 0 ==> targeted.contains(sender),
        targeted.len() == 0 ==> !excluded.contains(sender),
{
}

/// `delay` is a delay below the largest one, if there is one.
pub open spec fn is_delay(max: Option<u32>, delay: Option<Word>) -> bool {
    match max {
        Some(max) => delay matches Some(word) && word.value() < max,
        None => delay is None,
    }
}

/// The delay that a draw gives: what is left of it modulo the largest one, if there is one.
pub fn delay_for(max: Option<u32>, draw: Word) -> (r: Option<Word>)
    requires
        max != Some(0u32),
    ensures
        r is Some == max is Some,
        r matches Some(word) ==> word.value() == draw.value() % (max->0 as nat),
        is_delay(max, r),
{
    match max {
        Some(max) => {
            proof {
                vstd::arithmetic::div_mod::lemma_mod_bound(draw.value() as int, max as int);
            }
            Some(word_rem(draw, word_from_u64(max as u64)))
        },
        None => None,
    }
}

/// Values that a generator which the host brings along has made for the parameters of a function.
pub struct GeneratedInputs {
    /// As the strategies of the parameters ask for.
    pub for_fixtures: Vec<SolValue>,
    /// For the dictionary to be consulted at every leaf.
    pub for_state: Vec<SolValue>,
}

impl GeneratedInputs {
    /// The values are for the parameters of a function.
    pub open spec fn fit(self, func: AbiFunctionView) -> bool {
        &&& inputs_match(func.types(), value_models(self.for_fixtures@))
        &&& inputs_match(func.types(), value_models(self.for_state@))
    }
}

/// The weights of calldata with fixtures and of calldata with the dictionary consulted.
pub fn calldata_weights() -> (r: (u32, u32))
    ensures
        r == (60u32, 40u32),
{
    (60, 40)
}

/// `values` are values of the parameters of a function: from fixtures and generated values, or with the
/// dictionary consulted.
pub open spec fn are_values(
    dictionary: FuzzDictionary,
    fixtures: Map<Seq<char>, SolValueView>,
    func: AbiFunctionView,
    generated: GeneratedInputs,
    with_fixtures: bool,
    values: Seq<SolValueView>,
) -> bool {
    if with_fixtures {
        exists|strategy: CalldataStrategy, places: Seq<Option<usize>>|
            strategy.wf() && strategy.func@ == func && strategy.uses(fixtures) && strategy.has_places(places) && values
                == #[trigger] strategy.values(places, value_models(generated.for_fixtures@))
    } else {
        values_from_state(dictionary, func, value_models(generated.for_state@), values)
    }
}

/// `details` is a call of a function with these draws: its calldata is the selector and encoded values,
/// one for each parameter and of its type, from fixtures or with the dictionary consulted; and it sends
/// the drawn value if the function is payable, and else none.
pub open spec fn is_call(
    dictionary: FuzzDictionary,
    fixtures: Map<Seq<char>, SolValueView>,
    target: Address,
    func: AbiFunctionView,
    generated: GeneratedInputs,
    with_fixtures: bool,
    drawn: Option<Word>,
    details: CallDetailsView,
) -> bool {
    &&& details.target == target
    &&& exists|values: Seq<SolValueView>| #[trigger]
        are_values(dictionary, fixtures, func, generated, with_fixtures, values) && inputs_match(func.types(), values)
            && details.calldata == func.selector().bytes@ + encoded_values(values)
    &&& details.value == (if func.state_mutability == StateMutability::Payable {
        drawn
    } else {
        None
    })
}

/// `details` may be a call of a function: what some draws give.
pub open spec fn may_call(
    dictionary: FuzzDictionary,
    fixtures: Map<Seq<char>, SolValueView>,
    target: Address,
    func: AbiFunctionView,
    generated: GeneratedInputs,
    details: CallDetailsView,
) -> bool {
    exists|with_fixtures: bool, drawn: Option<Word>|
        is_msg_value(drawn) && #[trigger] is_call(
            dictionary,
            fixtures,
            target,
            func,
            generated,
            with_fixtures,
            drawn,
            details,
        )
}

/// The call of a function with these draws: with fixtures and generated values, or with the dictionary
/// consulted; and with the drawn value, if the function is payable. There is a generated value for each
/// parameter, of its type.
pub fn contract_call_with(
    dictionary: &FuzzDictionary,
    fuzz_fixtures: &FuzzFixtures,
    target: Address,
    func: &AbiFunction,
    generated: &GeneratedInputs,
    with_fixtures: bool,
    drawn: Option<Word>,
    rng: &mut StdRng,
) -> (r: CallDetails)
    requires
        fuzz_fixtures.wf(),
        generated.fit(func@),
    ensures
        is_call(*dictionary, fuzz_fixtures@, target, func@, *generated, with_fixtures, drawn, r@),
{
    let made = if with_fixtures {
        try_calldata(func, fuzz_fixtures, &generated.for_fixtures, rng)
    } else {
        try_calldata_from_state(func, dictionary, &generated.for_state, rng)
    };
    let ghost values: Seq<SolValueView> = if with_fixtures {
        let (strategy, places) = choose|strategy: CalldataStrategy, places: Seq<Option<usize>>|
            strategy.wf() && strategy.func@ == func@ && strategy.uses(fuzz_fixtures@) && strategy.has_places(places)
                && made->0@ == func@.selector().bytes@ + encoded_values(
                #[trigger] strategy.values(places, value_models(generated.for_fixtures@)),
            ) && inputs_match(func@.types(), strategy.values(places, value_models(generated.for_fixtures@)));
        strategy.values(places, value_models(generated.for_fixtures@))
    } else {
        choose|values: Seq<SolValueView>| #[trigger]
            values_from_state(*dictionary, func@, value_models(generated.for_state@), values) && inputs_match(
                func@.types(),
                values,
            ) && made->0@ == func@.selector().bytes@ + encoded_values(values)
    };
    assert(are_values(*dictionary, fuzz_fixtures@, func@, *generated, with_fixtures, values));
    let calldata = match made {
        Some(calldata) => calldata,
        None => Vec::new(),
    };
    let value = if func.state_mutability == StateMutability::Payable {
        drawn
    } else {
        None
    };
    CallDetails { target, calldata, value }
}

/// A call of a function: in 60 of 100 cases with fixtures and generated values, and in 40 with the
/// dictionary consulted; with a drawn value, if the function is payable. There is a generated value for
/// each parameter, of its type.
pub fn fuzz_contract_with_calldata(
    dictionary: &FuzzDictionary,
    fuzz_fixtures: &FuzzFixtures,
    target: Address,
    func: &AbiFunction,
    generated: &GeneratedInputs,
    runner: &mut TestRunner,
    rng: &mut StdRng,
) -> (r: CallDetails)
    requires
        fuzz_fixtures.wf(),
        generated.fit(func@),
    ensures
        may_call(*dictionary, fuzz_fixtures@, target, func@, *generated, r@),
{
    let weights = calldata_weights();
    let with_fixtures = weighted(runner, weights.0, weights.1);
    let drawn = fuzz_msg_value(rng);
    let r = contract_call_with(dictionary, fuzz_fixtures, target, func, generated, with_fixtures, drawn, rng);
    assert(is_call(*dictionary, fuzz_fixtures@, target, func@, *generated, with_fixtures, drawn, r@));
    r
}

/// A call of a function, as [`fuzz_contract_with_calldata`] makes it, if there is a generated value
/// for each parameter, of its type.
pub fn try_fuzz_contract_with_calldata(
    dictionary: &FuzzDictionary,
    fuzz_fixtures: &FuzzFixtures,
    target: Address,
    func: &AbiFunction,
    generated: &GeneratedInputs,
    runner: &mut TestRunner,
    rng: &mut StdRng,
) -> (r: Option<CallDetails>)
    requires
        fuzz_fixtures.wf(),
    ensures
        r is Some == generated.fit(func@),
        r matches Some(details) ==> may_call(*dictionary, fuzz_fixtures@, target, func@, *generated, details@),
{
    if values_fit(func, &generated.for_fixtures) && values_fit(func, &generated.for_state) {
        Some(fuzz_contract_with_calldata(dictionary, fuzz_fixtures, target, func, generated, runner, rng))
    } else {
        None
    }
}

/// The generated values are for the parameters of what is called.
pub open spec fn inputs_fit(call: TargetCallView, generated: GeneratedInputs) -> bool {
    call matches TargetCallView::Function(func) ==> generated.fit(func)
}

/// `details` is a call of a contract with these draws: of a function, of its fallback function with one
/// zero byte, or a plain transfer. The drawn value is sent to what is payable, and else none.
pub open spec fn are_details(
    dictionary: FuzzDictionary,
    fixtures: Map<Seq<char>, SolValueView>,
    target: Address,
    call: TargetCallView,
    generated: GeneratedInputs,
    with_fixtures: bool,
    drawn: Option<Word>,
    details: CallDetailsView,
) -> bool {
    match call {
        TargetCallView::Function(func) => is_call(
            dictionary,
            fixtures,
            target,
            func,
            generated,
            with_fixtures,
            drawn,
            details,
        ),
        TargetCallView::Fallback { payable } => details == (CallDetailsView {
            target,
            calldata: seq![0u8],
            value: if payable {
                drawn
            } else {
                None
            },
        }),
        TargetCallView::Receive => details == (CallDetailsView { target, calldata: Seq::empty(), value: drawn }),
    }
}

/// `details` may be a call of a contract: what some draws give.
pub open spec fn may_be_details(
    dictionary: FuzzDictionary,
    fixtures: Map<Seq<char>, SolValueView>,
    target: Address,
    call: TargetCallView,
    generated: GeneratedInputs,
    details: CallDetailsView,
) -> bool {
    exists|with_fixtures: bool, drawn: Option<Word>|
        is_msg_value(drawn) && #[trigger] are_details(
            dictionary,
            fixtures,
            target,
            call,
            generated,
            with_fixtures,
            drawn,
            details,
        )
}

/// The call of a contract with these draws. There is none where the generated values are not for the
/// parameters of the function.
pub fn call_details_with(
    dictionary: &FuzzDictionary,
    fuzz_fixtures: &FuzzFixtures,
    target: Address,
    call: &TargetCall,
    generated: &GeneratedInputs,
    with_fixtures: bool,
    drawn: Option<Word>,
    rng: &mut StdRng,
) -> (r: Option<CallDetails>)
    requires
        fuzz_fixtures.wf(),
    ensures
        r is Some == inputs_fit(call@, *generated),
        r matches Some(details) ==> are_details(
            *dictionary,
            fuzz_fixtures@,
            target,
            call@,
            *generated,
            with_fixtures,
            drawn,
            details@,
        ),
{
    match call {
        TargetCall::Function(func) => {
            if !values_fit(func, &generated.for_fixtures) || !values_fit(func, &generated.for_state) {
                return None;
            }
            Some(
                contract_call_with(dictionary, fuzz_fixtures, target, func, generated, with_fixtures, drawn, rng),
            )
        },
        TargetCall::Fallback { payable } => {
            let mut calldata: Vec<u8> = Vec::new();
            calldata.push(0);
            assert(calldata@ =~= seq![0u8]);
            let value = if *payable {
                drawn
            } else {
                None
            };
            Some(CallDetails { target, calldata, value })
        },
        TargetCall::Receive => {
            let calldata: Vec<u8> = Vec::new();
            assert(calldata@ =~= Seq::empty());
            Some(CallDetails { target, calldata, value: drawn })
        },
    }
}

/// Value is sent only to what is payable, and never more than 1 ETH.
pub proof fn value_is_sent_only_to_what_is_payable(
    dictionary: FuzzDictionary,
    fixtures: Map<Seq<char>, SolValueView>,
    target: Address,
    call: TargetCallView,
    generated: GeneratedInputs,
    details: CallDetailsView,
)
    requires
        may_be_details(dictionary, fixtures, target, call, generated, details),
    ensures
        details.target == target,
        details.value matches Some(value) ==> {
            &&& value.value() <= ONE_ETH
            &&& match call {
                TargetCallView::Function(func) => func.state_mutability == StateMutability::Payable,
                TargetCallView::Fallback { payable } => payable,
                TargetCallView::Receive => true,
            }
        },
{
    if let Some(value) = details.value {
        drawn_values_are_bounded(value);
    }
}

/// The next transaction of a run, which makes a call that [`select_call`] gave. There is none where
/// the generated values are not for the parameters of the function.
pub fn invariant_strat(
    dictionary: &FuzzDictionary,
    senders: &SenderFilters,
    config: &InvariantConfig,
    fuzz_fixtures: &FuzzFixtures,
    target: Address,
    call: &TargetCall,
    generated: &GeneratedInputs,
    generated_sender: Address,
    runner: &mut TestRunner,
    rng: &mut StdRng,
) -> (r: Option<BasicTxDetails>)
    requires
        fuzz_fixtures.wf(),
        senders.targeted@.len() == 0 ==> config.dictionary_weight <= 100,
        config.max_time_delay != Some(0u32),
        config.max_block_delay != Some(0u32),
    ensures
        r is Some == inputs_fit(call@, *generated),
        r matches Some(tx) ==> {
            &&& is_delay(config.max_time_delay, tx.warp)
            &&& is_delay(config.max_block_delay, tx.roll)
            &&& tx.deal is None
            &&& may_send(
                *dictionary,
                senders.targeted@,
                senders.excluded@,
                config.dictionary_weight,
                generated_sender,
                tx.sender,
            )
            &&& may_be_details(*dictionary, fuzz_fixtures@, target, call@, *generated, tx@.call_details)
        },
{
    let sender = select_random_sender(
        dictionary,
        senders,
        config.dictionary_weight,
        generated_sender,
        runner,
        rng,
    );
    let weights = calldata_weights();
    let with_fixtures = weighted(runner, weights.0, weights.1);
    let drawn = fuzz_msg_value(rng);
    let call_details = match call_details_with(
        dictionary,
        fuzz_fixtures,
        target,
        call,
        generated,
        with_fixtures,
        drawn,
        rng,
    ) {
        Some(details) => details,
        None => {
            return None;
        },
    };
    assert(are_details(
        *dictionary,
        fuzz_fixtures@,
        target,
        call@,
        *generated,
        with_fixtures,
        drawn,
        call_details@,
    ));
    let warp = delay_for(config.max_time_delay, any_word(runner));
    let roll = delay_for(config.max_block_delay, any_word(runner));
    Some(BasicTxDetails { warp, roll, deal: None, sender, call_details })
}

/// A contract whose functions may be called in place of an external call.
pub struct OverrideTarget {
    pub address: Address,
    pub functions: Vec<AbiFunction>,
}

/// The place of the first contract at `address`.
pub open spec fn place_of(contracts: Seq<OverrideTarget>, address: Address) -> Option<int>
    decreases contracts.len(),
{
    if contracts.len() == 0 {
        None
    } else {
        match place_of(contracts.drop_last(), address) {
            Some(place) => Some(place),
            None => if contracts.last().address == address {
                Some(contracts.len() - 1)
            } else {
                None
            },
        }
    }
}

/// The place of the contract that is called for an address: of the first one there, or else of the
/// one at another place.
pub open spec fn override_place(contracts: Seq<OverrideTarget>, address: Address, other: int) -> int {
    match place_of(contracts, address) {
        Some(place) => place,
        None => other,
    }
}

/// A found place is one of the places, with the address.
pub proof fn found_place_has_the_address(contracts: Seq<OverrideTarget>, address: Address)
    ensures
        place_of(contracts, address) matches Some(place) ==> 0 <= place < contracts.len() && contracts[place].address
            == address,
        place_of(contracts, address) is None ==> forall|i: int|
            0 <= i < contracts.len() ==> (#[trigger] contracts[i]).address != address,
    decreases contracts.len(),
{
    if contracts.len() > 0 {
        let front = contracts.drop_last();
        found_place_has_the_address(front, address);
        if place_of(contracts, address) is None {
            assert forall|i: int| 0 <= i < contracts.len() implies (#[trigger] contracts[i]).address != address by {
                if i < front.len() {
                    assert(front[i] == contracts[i]);
                }
            }
        }
    }
}

/// The place of the first contract at `address`.
pub fn find_place(contracts: &Vec<OverrideTarget>, address: Address) -> (r: Option<usize>)
    ensures
        r is Some == place_of(contracts@, address) is Some,
        r matches Some(place) ==> place_of(contracts@, address) == Some(place as int) && place < contracts@.len(),
{
    let mut i: usize = 0;
    while i < contracts.len()
        invariant
            i <= contracts@.len(),
            place_of(contracts@.take(i as int), address) is None,
        decreases contracts@.len() - i,
    {
        assert(contracts@.take(i + 1).drop_last() =~= contracts@.take(i as int));
        if contracts[i].address == address {
            proof {
                place_stays(contracts@, address, i + 1);
            }
            return Some(i);
        }
        i += 1;
    }
    assert(contracts@.take(i as int) =~= contracts@);
    None
}

/// What is found among the first contracts is what is found.
proof fn place_stays(contracts: Seq<OverrideTarget>, address: Address, n: int)
    requires
        0 <= n <= contracts.len(),
        place_of(contracts.take(n), address) is Some,
    ensures
        place_of(contracts, address) == place_of(contracts.take(n), address),
    decreases contracts.len(),
{
    if n < contracts.len() {
        assert(contracts.drop_last().take(n) =~= contracts.take(n));
        place_stays(contracts.drop_last(), address, n);
    } else {
        assert(contracts.take(n) =~= contracts);
    }
}

/// The weights of the given target and of some contract, for a call in place of an external call.
pub fn override_weights() -> (r: (u32, u32))
    ensures
        r == (80u32, 20u32),
{
    (80, 20)
}

/// The place of the contract that is called in place of an external call, with these draws: of the
/// contract at `target` where that is preferred, and else of the one at `place`. Where there is no
/// contract at `target`, it is `other`.
pub fn override_contract(
    contracts: &Vec<OverrideTarget>,
    target: Address,
    preferred: bool,
    place: usize,
    other: usize,
) -> (r: usize)
    requires
        !preferred ==> place < contracts@.len(),
        other < contracts@.len(),
    ensures
        r == override_place(
            contracts@,
            if preferred {
                target
            } else {
                contracts@[place as int].address
            },
            other as int,
        ),
        r < contracts@.len(),
{
    let address = if preferred {
        target
    } else {
        contracts[place].address
    };
    match find_place(contracts, address) {
        Some(found) => found,
        None => other,
    }
}

/// The function `called` of the contract at `at` is called in place of an external call, with these
/// draws: `preferred` tells whether the contract at `target` is to be called or the one at `place`,
/// `other` is the place of the contract that is called where there is none at `target`, and `function`
/// is the place of the function.
pub open spec fn is_override(
    contracts: Seq<OverrideTarget>,
    target: Address,
    preferred: bool,
    place: int,
    other: int,
    function: int,
    at: Address,
    called: AbiFunctionView,
) -> bool {
    let address = if preferred {
        target
    } else {
        contracts[place].address
    };
    let contract = contracts[override_place(contracts, address, other)];
    &&& 0 <= place < contracts.len()
    &&& 0 <= other < contracts.len()
    &&& 0 <= function < contract.functions@.len()
    &&& at == contract.address
    &&& called == contract.functions@[function]@
}

/// Where the target is preferred and is among the contracts, it is the one that is called.
pub proof fn a_preferred_target_is_called(
    contracts: Seq<OverrideTarget>,
    target: Address,
    place: int,
    other: int,
    function: int,
    at: Address,
    called: AbiFunctionView,
    known: int,
)
    requires
        is_override(contracts, target, true, place, other, function, at, called),
        0 <= known < contracts.len(),
        contracts[known].address == target,
    ensures
        at == target,
{
    found_place_has_the_address(contracts, target);
}

/// The contract and the function to call in place of an external call: in 80 of 100 cases of the
/// contract at `target`, and else of some contract. Where there is no contract at `target`, some
/// contract is taken. There is a contract, and each has a function.
pub fn override_call_strat(
    contracts: &Vec<OverrideTarget>,
    target: Address,
    runner: &mut TestRunner,
) -> (r: (Address, AbiFunction))
    requires
        contracts@.len() > 0,
        forall|i: int| 0 <= i < contracts@.len() ==> (#[trigger] contracts@[i]).functions@.len() > 0,
    ensures
        exists|preferred: bool, place: int, other: int, function: int| #[trigger]
            is_override(contracts@, target, preferred, place, other, function, r.0, r.1@),
{
    let weights = override_weights();
    let preferred = weighted(runner, weights.0, weights.1);
    let place = select_place(runner, contracts.len());
    let other = choose_place(contracts.len());
    let taken = override_contract(contracts, target, preferred, place, other);
    let contract = &contracts[taken];
    let function = index_place(runner, contract.functions.len());
    let r = (contract.address, contract.functions[function].clone());
    assert(is_override(
        contracts@,
        target,
        preferred,
        place as int,
        other as int,
        function as int,
        r.0,
        r.1@,
    ));
    r
}

/// The calls of one contract: of each of its functions, in their order; behind them, unless functions were
/// chosen, a plain transfer where the contract receives them and a call of its fallback function where it has
/// one, with value where that is payable.
proof fn calls_of_a_contract(target: CallTarget)
    ensures
        ({
            let calls = calls_of(target);
            let n = target.functions@.len() as int;
            let transfer: int = if !target.targeted && target.receive {
                1
            } else {
                0
            };
            let fallback: int = if !target.targeted && target.fallback is Some {
                1
            } else {
                0
            };
            &&& calls.len() == n + transfer + fallback
            &&& forall|f: int|
                0 <= f < n ==> calls[f] == (
                    target.address,
                    TargetCallView::Function((#[trigger] target.functions@[f])@),
                )
            &&& transfer == 1 ==> calls[n] == (target.address, TargetCallView::Receive)
            &&& fallback == 1 ==> calls[n + transfer] == (
                target.address,
                TargetCallView::Fallback { payable: target.fallback == Some(StateMutability::Payable) },
            )
        }),
{
    let calls = calls_of(target);
    assert forall|f: int| 0 <= f < target.functions@.len() implies calls[f] == (
        target.address,
        TargetCallView::Function((#[trigger] target.functions@[f])@),
    ) by {
        assert(function_models(target.functions@)[f] == target.functions@[f]@);
    }
}

/// The calls of a contract stand behind those of the contracts before it.
proof fn calls_stand_one_behind_the_other(targets: Seq<CallTarget>, t: int)
    requires
        0 <= t < targets.len(),
    ensures
        all_calls(targets.take(t)).len() + calls_of(targets[t]).len() <= all_calls(targets).len(),
        forall|k: int|
            0 <= k < calls_of(targets[t]).len() ==> all_calls(targets)[all_calls(targets.take(t)).len() + k]
                == #[trigger] calls_of(targets[t])[k],
    decreases targets.len(),
{
    let front = targets.drop_last();
    if t < front.len() {
        calls_stand_one_behind_the_other(front, t);
        assert(front.take(t) =~= targets.take(t));
        assert(front[t] == targets[t]);
        let before = all_calls(targets.take(t)).len() as int;
        assert forall|k: int| 0 <= k < calls_of(targets[t]).len() implies all_calls(targets)[before + k]
            == #[trigger] calls_of(targets[t])[k] by {
            assert(all_calls(front)[before + k] == calls_of(front[t])[k]);
        }
    } else {
        assert(targets.take(t) =~= front);
    }
}

/// Every function that is fuzzed of every contract is among the calls to choose from, at its contract; and
/// where no functions were chosen of a contract, so are plain transfers, if it receives them, and calls of its
/// fallback function, if it has one.
pub proof fn every_function_may_be_called(targets: Seq<CallTarget>, t: int, f: int)
    requires
        0 <= t < targets.len(),
    ensures
        0 <= f < targets[t].functions@.len() ==> all_calls(targets).contains(
            (targets[t].address, TargetCallView::Function(targets[t].functions@[f]@)),
        ),
        !targets[t].targeted && targets[t].receive ==> all_calls(targets).contains(
            (targets[t].address, TargetCallView::Receive),
        ),
        !targets[t].targeted && targets[t].fallback is Some ==> all_calls(targets).contains(
            (
                targets[t].address,
                TargetCallView::Fallback { payable: targets[t].fallback == Some(StateMutability::Payable) },
            ),
        ),
{
    let target = targets[t];
    let calls = all_calls(targets);
    let before = all_calls(targets.take(t)).len() as int;
    let n = target.functions@.len() as int;
    calls_of_a_contract(target);
    calls_stand_one_behind_the_other(targets, t);
    if 0 <= f < n {
        assert(calls_of(target)[f] == (target.address, TargetCallView::Function(target.functions@[f]@)));
        assert(calls[before + f] == calls_of(target)[f]);
    }
    if !target.targeted && target.receive {
        assert(calls[before + n] == calls_of(target)[n]);
    }
    if !target.targeted && target.fallback is Some {
        let k = n + if target.receive {
            1int
        } else {
            0
        };
        assert(calls[before + k] == calls_of(target)[k]);
    }
}

/// Nothing else may be called: each call to choose from is of a function that is fuzzed of the contract at its
/// address, or a plain transfer or a call of the fallback function of one of which no functions were chosen and
/// that takes them.
pub proof fn nothing_else_may_be_called(targets: Seq<CallTarget>, place: int)
    requires
        0 <= place < all_calls(targets).len(),
    ensures
        exists|t: int|
            {
                let call = all_calls(targets)[place];
                &&& 0 <= t < targets.len()
                &&& call.0 == (#[trigger] targets[t]).address
                &&& match call.1 {
                    TargetCallView::Function(function) => exists|f: int|
                        0 <= f < targets[t].functions@.len() && function == (#[trigger] targets[t].functions@[f])@,
                    TargetCallView::Receive => !targets[t].targeted && targets[t].receive,
                    TargetCallView::Fallback { payable } => {
                        &&& !targets[t].targeted
                        &&& targets[t].fallback is Some
                        &&& payable == (targets[t].fallback == Some(StateMutability::Payable))
                    },
                }
            },
    decreases targets.len(),
{
    let front = targets.drop_last();
    let last = targets[targets.len() - 1];
    let before = all_calls(front);
    let call = all_calls(targets)[place];
    if place < before.len() {
        nothing_else_may_be_called(front, place);
        let t = choose|t: int|
            {
                &&& 0 <= t < front.len()
                &&& call.0 == (#[trigger] front[t]).address
                &&& match call.1 {
                    TargetCallView::Function(function) => exists|f: int|
                        0 <= f < front[t].functions@.len() && function == (#[trigger] front[t].functions@[f])@,
                    TargetCallView::Receive => !front[t].targeted && front[t].receive,
                    TargetCallView::Fallback { payable } => {
                        &&& !front[t].targeted
                        &&& front[t].fallback is Some
                        &&& payable == (front[t].fallback == Some(StateMutability::Payable))
                    },
                }
            };
        assert(targets[t] == front[t]);
    } else {
        calls_of_a_contract(last);
        let k = place - before.len();
        assert(call == calls_of(last)[k]);
        if k < last.functions@.len() {
            assert(call.1 == TargetCallView::Function(last.functions@[k]@));
        }
        assert(targets[targets.len() - 1] == last);
    }
}

/// Where no two contracts have one address and no contract has a function twice, no call is to choose from
/// twice: each is as likely as any other.
pub proof fn no_call_is_preferred(targets: Seq<CallTarget>)
    requires
        forall|a: int, b: int|
            0 <= a < b < targets.len() ==> (#[trigger] targets[a]).address != (#[trigger] targets[b]).address,
        forall|t: int, f: int, g: int|
            #![trigger targets[t].functions@[f], targets[t].functions@[g]]
            0 <= t < targets.len() && 0 <= f < g < targets[t].functions@.len() ==> targets[t].functions@[f]@
                != targets[t].functions@[g]@,
    ensures
        all_calls(targets).no_duplicates(),
    decreases targets.len(),
{
    if targets.len() > 0 {
        let front = targets.drop_last();
        let last = targets[targets.len() - 1];
        let before = all_calls(front);
        let calls = calls_of(last);
        let all = all_calls(targets);
        assert forall|a: int, b: int| 0 <= a < b < front.len() implies (#[trigger] front[a]).address != (
        #[trigger] front[b]).address by {
            assert(targets[a].address != targets[b].address);
        }
        assert forall|t: int, f: int, g: int|
            #![trigger front[t].functions@[f], front[t].functions@[g]]
            0 <= t < front.len() && 0 <= f < g < front[t].functions@.len() implies front[t].functions@[f]@
            != front[t].functions@[g]@ by {
            assert(targets[t].functions@[f]@ != targets[t].functions@[g]@);
        }
        no_call_is_preferred(front);
        calls_of_a_contract(last);
        assert forall|a: int, b: int| 0 <= a < all.len() && 0 <= b < all.len() && a != b implies all[a] != all[b] by {
            let (x, y) = if a < b {
                (a, b)
            } else {
                (b, a)
            };
            if y < before.len() {
                assert(before[x] != before[y]);
            } else {
                let k = y - before.len();
                assert(all[y] == calls[k]);
                assert(calls[k].0 == last.address) by {
                    if k < last.functions@.len() {
                        assert(last.functions@[k] == last.functions@[k]);
                    }
                }
                if x < before.len() {
                    nothing_else_may_be_called(front, x);
                    let t = choose|t: int| 0 <= t < front.len() && before[x].0 == (#[trigger] front[t]).address;
                    assert(targets[t] == front[t]);
                    assert(targets[t].address != targets[targets.len() - 1].address);
                } else {
                    let j = x - before.len();
                    assert(all[x] == calls[j]);
                    if j < last.functions@.len() {
                        assert(calls[j].1 == TargetCallView::Function(last.functions@[j]@));
                    }
                    if k < last.functions@.len() {
                        assert(calls[k].1 == TargetCallView::Function(last.functions@[k]@));
                        assert(targets[targets.len() - 1].functions@[j]@ != targets[targets.len() - 1].functions@[k]@);
                    }
                }
            }
        }
    }
}

/// A sender is drawn from the targeted ones where there are any, at the drawn place. Where there are none it is
/// the generated address if it is made up and that is not excluded; in no case is it an excluded one.
pub proof fn senders_are_what_was_drawn(
    dictionary: FuzzDictionary,
    targeted: Seq<Address>,
    excluded: Seq<Address>,
    made_up: bool,
    place: int,
    generated: Address,
    sender: Address,
)
    requires
        is_sender(dictionary, targeted, excluded, made_up, place, generated, sender),
    ensures
        targeted.len() > 0 ==> sender == targeted[place],
        targeted.len() == 0 ==> !excluded.contains(sender),
        targeted.len() == 0 && made_up && !excluded.contains(generated) ==> sender == generated,
{
}

/// A sender that is not made up is the generated address or what the dictionary gives for an address, unless
/// that is excluded. Where there is nothing in the dictionary it is the generated address.
pub proof fn other_senders_come_from_the_dictionary(
    dictionary: FuzzDictionary,
    excluded: Seq<Address>,
    place: int,
    generated: Address,
    sender: Address,
)
    requires
        is_sender(dictionary, Seq::empty(), excluded, false, place, generated, sender),
    ensures
        ({
            ||| sender == generated
            ||| dictionary.may_sample(SolTypeView::Address, Some(SolValueView::Address(sender)))
            ||| excluded.contains(generated)
            ||| exists|candidate: Address| #[trigger]
                excluded.contains(candidate) && dictionary.may_sample(
                    SolTypeView::Address,
                    Some(SolValueView::Address(candidate)),
                )
        }),
        dictionary.values@.len() == 0 && dictionary.samples@.len() == 0 && !excluded.contains(generated) ==> sender
            == generated,
{
    let candidate = choose|candidate: Address| #[trigger]
        is_candidate(dictionary, false, generated, candidate) && (!excluded.contains(candidate) ==> sender
            == candidate);
    let value = SolValueView::Address(candidate);
    let found = choose|found: SolValueView| #[trigger]
        from_state(dictionary, SolTypeView::Address, SolValueView::Address(generated), found) && value == tidied(found);
    assert(found == value);
    if dictionary.values@.len() == 0 && dictionary.samples@.len() == 0 {
        if dictionary.may_sample(SolTypeView::Address, Some(value)) {
            let draws = choose|draws: SampleDraws|
                dictionary.fits(SolTypeView::Address, draws) && #[trigger] dictionary.gives(
                    SolTypeView::Address,
                    draws,
                    Some(value),
                );
            assert(samples_for(dictionary.samples@, WordType::Address) is None);
            assert(dictionary.pool(WordType::Address, draws.typed).len() == 0);
        }
    }
}

/// There is one value for each parameter of a function, of its type.
pub open spec fn one_of_each_type(function: AbiFunctionView, values: Seq<SolValueView>) -> bool {
    &&& values.len() == function.inputs.len()
    &&& forall|i: int|
        0 <= i < values.len() ==> {
            &&& sol_type_named((#[trigger] function.inputs[i]).selector_type) is Some
            &&& type_matches(sol_type_named(function.inputs[i].selector_type)->0, values[i])
        }
}

/// A call that is made for draws goes to the contract that was selected. A call of a function starts with its
/// selector and sends the drawn value exactly where the function is payable; a call of the fallback function is
/// one zero byte and sends the drawn value exactly where that is payable; and a plain transfer has no data and
/// sends the drawn value.
pub proof fn calls_are_what_was_drawn(
    dictionary: FuzzDictionary,
    fixtures: Map<Seq<char>, SolValueView>,
    target: Address,
    call: TargetCallView,
    generated: GeneratedInputs,
    with_fixtures: bool,
    drawn: Option<Word>,
    details: CallDetailsView,
)
    requires
        are_details(dictionary, fixtures, target, call, generated, with_fixtures, drawn, details),
    ensures
        details.target == target,
        match call {
            TargetCallView::Function(function) => {
                &&& details.calldata.take(4) == function.selector().bytes@
                &&& function.state_mutability == StateMutability::Payable ==> details.value == drawn
                &&& function.state_mutability != StateMutability::Payable ==> details.value is None
                &&& exists|values: Seq<SolValueView>|
                    details.calldata.skip(4) == #[trigger] encoded_values(values) && one_of_each_type(function, values)
            },
            TargetCallView::Fallback { payable } => {
                &&& details.calldata.len() == 1
                &&& details.calldata[0] == 0
                &&& payable ==> details.value == drawn
                &&& !payable ==> details.value is None
            },
            TargetCallView::Receive => details.calldata.len() == 0 && details.value == drawn,
        },
{
    if let TargetCallView::Function(function) = call {
        let values = choose|values: Seq<SolValueView>| #[trigger]
            are_values(dictionary, fixtures, function, generated, with_fixtures, values) && inputs_match(
                function.types(),
                values,
            ) && details.calldata == function.selector().bytes@ + encoded_values(values);
        assert(details.calldata.take(4) =~= function.selector().bytes@);
        assert(function.types().len() == function.inputs.len());
        assert(one_of_each_type(function, values)) by {
            assert forall|i: int| 0 <= i < values.len() implies {
                &&& sol_type_named((#[trigger] function.inputs[i]).selector_type) is Some
                &&& type_matches(sol_type_named(function.inputs[i].selector_type)->0, values[i])
            } by {
                assert(function.types()[i] == function.inputs[i].selector_type);
                assert(sol_type_named(function.types()[i]) is Some);
            }
        }
        assert(details.calldata.skip(4) =~= encoded_values(values));
    }
}

/// Where calldata is made with fixtures, each value is a fixture of the parameter, or else the value that was
/// generated for it; and where it is not, each value is what the dictionary makes of the value that was
/// generated for that. Strings are cleaned either way.
pub proof fn values_come_from_where_was_drawn(
    dictionary: FuzzDictionary,
    fixtures: Map<Seq<char>, SolValueView>,
    function: AbiFunctionView,
    generated: GeneratedInputs,
    with_fixtures: bool,
    values: Seq<SolValueView>,
    i: int,
)
    requires
        are_values(dictionary, fixtures, function, generated, with_fixtures, values),
        0 <= i < values.len(),
        i < function.inputs.len(),
    ensures
        with_fixtures ==> {
            ||| values[i] == tidied(value_models(generated.for_fixtures@)[i])
            ||| fixtures_of(fixtures, function.inputs[i].name) matches Some(known) && exists|k: int|
                0 <= k < known.len() && values[i] == tidied(#[trigger] known[k])
        },
        !with_fixtures ==> exists|found: SolValueView| #[trigger]
            from_state(
                dictionary,
                sol_type_named(function.inputs[i].selector_type)->0,
                value_models(generated.for_state@)[i],
                found,
            ) && values[i] == tidied(found),
{
    if with_fixtures {
        let (strategy, places) = choose|strategy: CalldataStrategy, places: Seq<Option<usize>>|
            strategy.wf() && strategy.func@ == function && strategy.uses(fixtures) && strategy.has_places(places)
                && values == #[trigger] strategy.values(places, value_models(generated.for_fixtures@));
        let param = strategy.params@[i];
        assert(param.has_fixture(places[i]));
        assert(values[i] == param.chosen(places[i], value_models(generated.for_fixtures@)[i]));
        if let Some(k) = places[i] {
            assert(param.is_for(param.param@, fixtures_of(fixtures, function.inputs[i].name)));
            let known = fixtures_of(fixtures, function.inputs[i].name)->0;
            assert(value_models(param.fixtures->0@) == known);
            assert(known[k as int] == param.fixtures->0@[k as int]@);
        }
    } else {
        assert(function.types()[i] == function.inputs[i].selector_type);
        assert(tidied_from_state(
            dictionary,
            sol_type_named(function.types()[i])->0,
            value_models(generated.for_state@)[i],
            values[i],
        ));
    }
}

/// A call in place of an external call is of a function of one of the contracts, at its address. Where the
/// given target is not preferred, it is at the address that was drawn; where it is preferred but there is no
/// contract there, it is the other contract that was drawn.
pub proof fn overrides_call_a_listed_function(
    contracts: Seq<OverrideTarget>,
    target: Address,
    preferred: bool,
    place: int,
    other: int,
    function: int,
    at: Address,
    called: AbiFunctionView,
)
    requires
        is_override(contracts, target, preferred, place, other, function, at, called),
    ensures
        exists|c: int|
            {
                &&& 0 <= c < contracts.len()
                &&& (#[trigger] contracts[c]).address == at
                &&& 0 <= function < contracts[c].functions@.len()
                &&& called == contracts[c].functions@[function]@
            },
        !preferred ==> at == contracts[place].address,
        preferred && (forall|c: int| 0 <= c < contracts.len() ==> (#[trigger] contracts[c]).address != target) ==> {
            &&& at == contracts[other].address
            &&& called == contracts[other].functions@[function]@
        },
        preferred && (exists|c: int| 0 <= c < contracts.len() && (#[trigger] contracts[c]).address == target) ==> at
            == target,
{
    let address = if preferred {
        target
    } else {
        contracts[place].address
    };
    found_place_has_the_address(contracts, address);
    let c = override_place(contracts, address, other);
    assert(contracts[c].address == at);
}

/// A transaction has a delay exactly where a largest one is set, and it is below that.
pub proof fn delays_are_below_the_largest(max: Option<u32>, delay: Option<Word>)
    requires
        is_delay(max, delay),
    ensures
        max is None ==> delay is None,
        max matches Some(largest) ==> delay matches Some(word) && 0 <= word.value() < largest,
{
}

/// Calls are known by what is called, one by one, in order.
pub proof fn calls_are_known_one_by_one(calls: Seq<(Address, TargetCall)>, i: int)
    ensures
        call_models(calls).len() == calls.len(),
        0 <= i < calls.len() ==> {
            &&& call_models(calls)[i].0 == calls[i].0
            &&& match calls[i].1 {
                TargetCall::Function(function) => call_models(calls)[i].1 == TargetCallView::Function(function@),
                TargetCall::Fallback { payable } => call_models(calls)[i].1 == (TargetCallView::Fallback { payable }),
                TargetCall::Receive => call_models(calls)[i].1 is Receive,
            }
        },
{
}

/// The contract at an address is the first one there.
pub proof fn contracts_are_found_at_their_first_place(contracts: Seq<OverrideTarget>, address: Address, first: int)
    requires
        0 <= first < contracts.len(),
        contracts[first].address == address,
        forall|i: int| 0 <= i < first ==> (#[trigger] contracts[i]).address != address,
    ensures
        place_of(contracts, address) == Some(first),
    decreases contracts.len(),
{
    let rest = contracts.drop_last();
    if first < rest.len() {
        assert(rest[first] == contracts[first]);
        assert forall|i: int| 0 <= i < first implies (#[trigger] rest[i]).address != address by {
            assert(rest[i] == contracts[i]);
        }
        contracts_are_found_at_their_first_place(rest, address, first);
    } else {
        found_place_has_the_address(rest, address);
        if let Some(place) = place_of(rest, address) {
            assert(contracts[place] == rest[place]);
        }
    }
}

/// Every targeted sender may send; and where none is targeted, the generated address may, unless the dictionary
/// has all the weight or the address is excluded.
pub proof fn every_allowed_sender_may_send(
    dictionary: FuzzDictionary,
    targeted: Seq<Address>,
    excluded: Seq<Address>,
    dictionary_weight: u32,
    generated: Address,
    i: int,
)
    ensures
        0 <= i < targeted.len() ==> may_send(
            dictionary,
            targeted,
            excluded,
            dictionary_weight,
            generated,
            targeted[i],
        ),
        targeted.len() == 0 && dictionary_weight < 100 && !excluded.contains(generated) ==> may_send(
            dictionary,
            targeted,
            excluded,
            dictionary_weight,
            generated,
            generated,
        ),
{
    if 0 <= i < targeted.len() {
        assert(is_sender(dictionary, targeted, excluded, true, i, generated, targeted[i]));
    }
    if targeted.len() == 0 && dictionary_weight < 100 && !excluded.contains(generated) {
        assert(is_candidate(dictionary, true, generated, generated));
        assert(is_sender(dictionary, targeted, excluded, true, 0, generated, generated));
    }
}

/// Whatever is drawn may come: a call with fixtures or with the dictionary consulted, and with any value that may
/// be drawn; and every delay below the largest one.
pub proof fn whatever_is_drawn_may_come(
    dictionary: FuzzDictionary,
    fixtures: Map<Seq<char>, SolValueView>,
    target: Address,
    call: TargetCallView,
    generated: GeneratedInputs,
    with_fixtures: bool,
    drawn: Option<Word>,
    details: CallDetailsView,
    max: u32,
    delay: Word,
)
    requires
        drawn matches Some(value) ==> value.value() <= 1_000_000_000_000_000_000,
        are_details(dictionary, fixtures, target, call, generated, with_fixtures, drawn, details),
    ensures
        may_be_details(dictionary, fixtures, target, call, generated, details),
        call matches TargetCallView::Function(function) ==> may_call(
            dictionary,
            fixtures,
            target,
            function,
            generated,
            details,
        ),
        delay.value() < max ==> is_delay(Some(max), Some(delay)),
        is_delay(None, None),
{
    match drawn {
        Some(value) => {
            drawn_values_may_be_any_up_to_an_ether(value);
        },
        None => {
            drawn_values_may_be_any_up_to_an_ether(delay);
        },
    }
    assert(is_msg_value(drawn));
}

/// Generated values fit what is called exactly where it is no function, or where there is one for each of its
/// parameters, of its type, both for the fixtures and for the dictionary.
pub proof fn generated_values_fit_the_parameters(
    function: AbiFunctionView,
    generated: GeneratedInputs,
    payable: bool,
)
    ensures
        inputs_fit(TargetCallView::Receive, generated),
        inputs_fit(TargetCallView::Fallback { payable }, generated),
        one_of_each_type(function, value_models(generated.for_fixtures@)) && one_of_each_type(
            function,
            value_models(generated.for_state@),
        ) ==> inputs_fit(TargetCallView::Function(function), generated),
        inputs_fit(TargetCallView::Function(function), generated) ==> {
            &&& generated.for_fixtures@.len() == function.inputs.len()
            &&& generated.for_state@.len() == function.inputs.len()
        },
{
    let types = function.types();
    assert forall|values: Seq<SolValueView>| #[trigger] one_of_each_type(function, values) implies inputs_match(
        types,
        values,
    ) by {
        assert forall|i: int| 0 <= i < types.len() implies {
            &&& sol_type_named(#[trigger] types[i]) is Some
            &&& type_matches(sol_type_named(types[i])->0, values[i])
        } by {
            assert(types[i] == function.inputs[i].selector_type);
            assert(sol_type_named(function.inputs[i].selector_type) is Some);
        }
    }
}

} // verus!
