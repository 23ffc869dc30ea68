//! The calls that a campaign makes: what is adjusted before them, and what is sent.

use vstd::arithmetic::power2::pow2;
use vstd::prelude::*;

use crate::abi::{function_selector, selector_of, texts, AbiFunction};
use crate::config::InvariantContract;
use crate::dictionary::words_are_bounded;
use crate::fixed::{be_value_of_zeros, word_ge, word_wrapping_add, Address, Selector, Word};
use crate::ordered::OrderedMap;
use crate::sol::SolValue;
use crate::tx::{BasicTxDetails, BasicTxDetailsView};

verus! {

/// A call.
pub struct CallRequest {
    pub from: Address,
    pub to: Address,
    pub calldata: Vec<u8>,
    pub value: Word,
}

/// The model of a [`CallRequest`].
pub struct CallRequestView {
    pub from: Address,
    pub to: Address,
    pub calldata: Seq<u8>,
    pub value: nat,
}

impl View for CallRequest {
    type V = CallRequestView;

    open spec fn view(&self) -> CallRequestView {
        CallRequestView { from: self.from, to: self.to, calldata: self.calldata@, value: self.value.value() }
    }
}

/// Zero.
pub fn zero_word() -> (r: Word)
    ensures
        r.value() == 0,
{
    let r = Word::zero();
    proof {
        be_value_of_zeros(r.bytes@);
    }
    r
}

/// A call of `afterInvariant()`, which sends no value.
pub fn call_after_invariant_function(caller: Address, to: Address) -> (r: CallRequest)
    ensures
        r@ == (CallRequestView {
            from: caller,
            to,
            calldata: function_selector("afterInvariant"@, Seq::empty()).bytes@,
            value: 0,
        }),
{
    let types: Vec<String> = Vec::new();
    assert(texts(types@) =~= Seq::empty());
    let selector = selector_of("afterInvariant", &types);
    CallRequest { from: caller, to, calldata: selector.to_vec(), value: zero_word() }
}

/// A call of an invariant, which sends no value.
pub fn call_invariant_function(caller: Address, address: Address, calldata: Vec<u8>) -> (r: CallRequest)
    ensures
        r@ == (CallRequestView { from: caller, to: address, calldata: calldata@, value: 0 }),
{
    CallRequest { from: caller, to: address, calldata, value: zero_word() }
}

/// The calldata of a function without inputs: its selector. There is none for a function with
/// inputs.
pub fn calldata_without_inputs(function: &AbiFunction) -> (r: Option<Vec<u8>>)
    ensures
        r is Some == (function@.inputs.len() == 0),
        r matches Some(calldata) ==> calldata@ == function@.selector().bytes@,
{
    let values: Vec<SolValue> = Vec::new();
    assert(function@.types().len() == function@.inputs.len());
    function.encode_input(&values)
}

/// The models of calls.
pub open spec fn request_models(requests: Seq<CallRequest>) -> Seq<CallRequestView> {
    Seq::new(requests.len(), |i: int| requests[i]@)
}

/// The calls of the invariants: of the one to maximize, or of each to check, in order. There are
/// none where one of them has inputs.
pub fn invariant_requests(caller: Address, contract: &InvariantContract) -> (r: Option<Vec<CallRequest>>)
    ensures
        r is Some == if contract@.optimization {
            contract@.invariant_fn.inputs.len() == 0
        } else {
            forall|i: int|
                0 <= i < contract@.invariant_fns.len() ==> (#[trigger] contract@.invariant_fns[i]).0.inputs.len() == 0
        },
        r matches Some(requests) ==> request_models(requests@) == if contract@.optimization {
            seq![invariant_call(caller, contract@.address, contract@.invariant_fn.selector())]
        } else {
            Seq::new(
                contract@.invariant_fns.len(),
                |i: int| invariant_call(caller, contract@.address, contract@.invariant_fns[i].0.selector()),
            )
        },
{
    let mut out: Vec<CallRequest> = Vec::new();
    if contract.is_optimization() {
        match calldata_without_inputs(&contract.invariant_fn) {
            Some(calldata) => {
                out.push(call_invariant_function(caller, contract.address, calldata));
                assert(request_models(out@) =~= seq![
                    invariant_call(caller, contract@.address, contract@.invariant_fn.selector()),
                ]);
                return Some(out);
            },
            None => {
                return None;
            },
        }
    }
    let ghost functions = contract@.invariant_fns;
    let mut i: usize = 0;
    while i < contract.invariant_fns.len()
        invariant
            i <= functions.len(),
            !contract@.optimization,
            functions == contract@.invariant_fns,
            functions.len() == contract.invariant_fns@.len(),
            out@.len() == i,
            forall|j: int| 0 <= j < i ==> (#[trigger] functions[j]).0.inputs.len() == 0,
            forall|j: int|
                0 <= j < i ==> (#[trigger] out@[j])@ == invariant_call(
                    caller,
                    contract@.address,
                    functions[j].0.selector(),
                ),
        decreases functions.len() - i,
    {
        assert(functions[i as int].0 == contract.invariant_fns@[i as int].0@);
        match calldata_without_inputs(&contract.invariant_fns[i].0) {
            Some(calldata) => {
                out.push(call_invariant_function(caller, contract.address, calldata));
            },
            None => {
                assert(functions[i as int].0.inputs.len() != 0);
                return None;
            },
        }
        i += 1;
    }
    assert(request_models(out@) =~= Seq::new(
        contract@.invariant_fns.len(),
        |i: int| invariant_call(caller, contract@.address, contract@.invariant_fns[i].0.selector()),
    ));
    Some(out)
}

/// A call of the function with `selector`, without inputs and value.
pub open spec fn invariant_call(caller: Address, address: Address, selector: Selector) -> CallRequestView {
    CallRequestView { from: caller, to: address, calldata: selector.bytes@, value: 0 }
}

/// The time and the number of a block.
#[derive(Clone, Copy, Debug)]
pub struct BlockTime {
    pub timestamp: Word,
    pub number: Word,
}

/// The block that calls are executed in, and the block that cheatcodes have set, if there are
/// cheatcodes and they have set one.
#[derive(Clone, Copy, Debug)]
pub struct BlockEnv {
    pub block: BlockTime,
    pub cheatcodes: Option<Option<BlockTime>>,
}

/// The value of an optional word, zero where there is none.
pub open spec fn amount(word: Option<Word>) -> nat {
    match word {
        Some(word) => word.value(),
        None => 0,
    }
}

/// `a` and `b` together, as 256-bit numbers that wrap around.
pub open spec fn wrapped(a: nat, b: nat) -> nat {
    (a + b) % pow2(256)
}

/// `after` is `before`, moved by the time and the blocks of a transaction.
pub open spec fn moved(before: BlockTime, after: BlockTime, tx: BasicTxDetailsView) -> bool {
    &&& after.timestamp.value() == wrapped(before.timestamp.value(), amount(tx.warp))
    &&& after.number.value() == wrapped(before.number.value(), amount(tx.roll))
}

/// `after` is `before`, adjusted for a transaction. Without a delay nothing changes. Otherwise the
/// block is moved; the block that cheatcodes have set is moved too, and where they have set none it
/// becomes the moved block.
pub open spec fn is_adjusted(before: BlockEnv, after: BlockEnv, tx: BasicTxDetailsView) -> bool {
    if amount(tx.warp) == 0 && amount(tx.roll) == 0 {
        after == before
    } else {
        &&& moved(before.block, after.block, tx)
        &&& match before.cheatcodes {
            None => after.cheatcodes is None,
            Some(None) => after.cheatcodes == Some(Some(after.block)),
            Some(Some(block)) => after.cheatcodes matches Some(Some(set)) && moved(block, set, tx),
        }
    }
}

/// `block`, moved by `warp` and `roll`.
fn advance(block: &BlockTime, warp: Word, roll: Word) -> (r: BlockTime)
    ensures
        r.timestamp.value() == wrapped(block.timestamp.value(), warp.value()),
        r.number.value() == wrapped(block.number.value(), roll.value()),
{
    BlockTime {
        timestamp: word_wrapping_add(block.timestamp, warp),
        number: word_wrapping_add(block.number, roll),
    }
}

/// The word, or zero where there is none.
fn or_zero(word: &Option<Word>) -> (r: Word)
    ensures
        r.value() == amount(*word),
{
    match word {
        Some(word) => *word,
        None => zero_word(),
    }
}

/// Moves the time and the number of the block before a transaction. The block that cheatcodes have
/// set is moved too; where they have set none, it becomes the moved block.
pub fn adjust_block(env: &mut BlockEnv, tx: &BasicTxDetails)
    ensures
        is_adjusted(*old(env), *final(env), tx@),
{
    let warp = or_zero(&tx.warp);
    let roll = or_zero(&tx.roll);
    if !warp.is_zero() || !roll.is_zero() {
        env.block = advance(&env.block, warp, roll);
        if let Some(set) = env.cheatcodes {
            env.cheatcodes = match set {
                Some(block) => Some(Some(advance(&block, warp, roll))),
                None => Some(Some(env.block)),
            };
        }
    }
}

/// Whether a transaction asks to send value, so that the balance of its sender matters.
pub fn needs_balance(tx: &BasicTxDetails) -> (r: bool)
    ensures
        r == (amount(tx.call_details.value) != 0),
{
    !or_zero(&tx.call_details.value).is_zero()
}

/// The call of a transaction, and the balance that its sender is given before it, if it is given
/// one.
pub struct TxCall {
    pub balance: Option<Word>,
    pub call: CallRequest,
}

/// The balance of the sender when it makes the call: what it has, and what it is dealt, if the
/// transaction asks to send value.
pub open spec fn balance_at_call(tx: BasicTxDetailsView, balance: nat) -> nat {
    match tx.deal {
        Some(deal) => wrapped(balance, deal.value()),
        None => balance,
    }
}

/// The value that a transaction sends: what it asks to send, if its sender has that much.
pub open spec fn sent_value(tx: BasicTxDetailsView, balance: nat) -> nat {
    if balance_at_call(tx, balance) >= amount(tx.call_details.value) {
        amount(tx.call_details.value)
    } else {
        0
    }
}

/// Adjusts the block and makes the call of a transaction. `balance` is what its sender has; it
/// matters only where the transaction asks to send value. The sender is dealt its share first, and
/// sends nothing where that is not enough.
pub fn execute_tx(env: &mut BlockEnv, tx: &BasicTxDetails, balance: Word) -> (r: TxCall)
    ensures
        is_adjusted(*old(env), *final(env), tx@),
        r.balance is Some == (amount(tx.call_details.value) != 0 && tx.deal is Some),
        r.balance matches Some(given) ==> given.value() == balance_at_call(tx@, balance.value()),
        r.call@ == (CallRequestView {
            from: tx.sender,
            to: tx.call_details.target,
            calldata: tx.call_details.calldata@,
            value: sent_value(tx@, balance.value()),
        }),
{
    adjust_block(env, tx);
    let requested = or_zero(&tx.call_details.value);
    let mut given: Option<Word> = None;
    let value = if requested.is_zero() {
        zero_word()
    } else {
        let mut sender_balance = balance;
        if let Some(deal) = tx.deal {
            sender_balance = word_wrapping_add(balance, deal);
            given = Some(sender_balance);
        }
        if word_ge(sender_balance, requested) {
            requested
        } else {
            zero_word()
        }
    };
    TxCall {
        balance: given,
        call: CallRequest {
            from: tx.sender,
            to: tx.call_details.target,
            calldata: tx.call_details.calldata.clone(),
            value,
        },
    }
}

/// No transaction sends more than its sender has, or more than it asks to send; and one that asks
/// for nothing sends nothing.
pub proof fn no_more_is_sent_than_there_is(tx: BasicTxDetailsView, balance: nat)
    ensures
        sent_value(tx, balance) <= balance_at_call(tx, balance),
        sent_value(tx, balance) <= amount(tx.call_details.value),
        amount(tx.call_details.value) == 0 ==> sent_value(tx, balance) == 0,
        amount(tx.call_details.value) <= balance_at_call(tx, balance) ==> sent_value(tx, balance) == amount(
            tx.call_details.value,
        ),
{
}

/// What a call changed of an account. `A` is all but the code.
pub struct AccountChange<A> {
    pub code: Option<Vec<u8>>,
    pub rest: A,
}

impl<A> AccountChange<A> {
    /// The account is known to have code.
    pub open spec fn has_code(self) -> bool {
        self.code matches Some(code) && code@.len() > 0
    }
}

/// The changes that values are collected from: all but those of the sender, unless the sender is
/// known to have code.
pub open spec fn collected_changes<A>(changes: Map<Address, AccountChange<A>>, sender: Address) -> Map<
    Address,
    AccountChange<A>,
> {
    if changes.dom().contains(sender) && changes[sender].has_code() {
        changes
    } else {
        changes.remove(sender)
    }
}

/// Takes the changes of the sender out before values are collected, unless it has code: senders are
/// made up, and would flood the dictionary.
pub fn hide_sender<A>(
    changes: &mut OrderedMap<Address, AccountChange<A>>,
    sender: Address,
) -> (r: Option<AccountChange<A>>)
    requires
        old(changes).wf(),
    ensures
        final(changes).wf(),
        final(changes)@ == collected_changes(old(changes)@, sender),
        r is Some == (old(changes)@.dom().contains(sender) && !old(changes)@[sender].has_code()),
        r matches Some(change) ==> change == old(changes)@[sender],
{
    let has_code = match changes.get(&sender) {
        Some(change) => match &change.code {
            Some(code) => code.len() > 0,
            None => false,
        },
        None => false,
    };
    if has_code {
        None
    } else {
        changes.remove(&sender)
    }
}

/// Puts the changes of the sender back after values were collected.
pub fn restore_sender<A>(
    changes: &mut OrderedMap<Address, AccountChange<A>>,
    sender: Address,
    hidden: Option<AccountChange<A>>,
)
    requires
        old(changes).wf(),
    ensures
        final(changes).wf(),
        final(changes)@ == (match hidden {
            Some(change) => old(changes)@.insert(sender, change),
            None => old(changes)@,
        }),
{
    if let Some(change) = hidden {
        changes.insert(sender, change);
    }
}

/// Collecting values leaves the changes as they were: putting the changes of the sender back undoes
/// taking them out.
pub proof fn collecting_keeps_the_changes<A>(changes: Map<Address, AccountChange<A>>, sender: Address)
    ensures
        changes.dom().contains(sender) && !changes[sender].has_code() ==> collected_changes(changes, sender).insert(
            sender,
            changes[sender],
        ) == changes,
        !(changes.dom().contains(sender) && !changes[sender].has_code()) ==> collected_changes(changes, sender)
            == changes,
{
    if changes.dom().contains(sender) && !changes[sender].has_code() {
        assert(collected_changes(changes, sender).insert(sender, changes[sender]) =~= changes);
    } else {
        assert(collected_changes(changes, sender) =~= changes);
    }
}

/// Before a transaction the block moves by what the transaction says: its time by `warp` and its number by
/// `roll`, as 256-bit numbers that wrap around; a delay that is not there is none.
pub proof fn blocks_move_by_the_delays(before: BlockEnv, after: BlockEnv, tx: BasicTxDetailsView)
    requires
        is_adjusted(before, after, tx),
    ensures
        tx.warp matches Some(warp) ==> after.block.timestamp.value() == (before.block.timestamp.value() + warp.value())
            % pow2(256),
        tx.roll matches Some(roll) ==> after.block.number.value() == (before.block.number.value() + roll.value())
            % pow2(256),
        tx.warp is None ==> after.block.timestamp.value() == before.block.timestamp.value(),
        tx.roll is None ==> after.block.number.value() == before.block.number.value(),
        tx.warp is None && tx.roll is None ==> after == before,
{
    words_are_bounded(before.block.timestamp.bytes@);
    words_are_bounded(before.block.number.bytes@);
    vstd::arithmetic::div_mod::lemma_small_mod(before.block.timestamp.value(), pow2(256));
    vstd::arithmetic::div_mod::lemma_small_mod(before.block.number.value(), pow2(256));
}

/// The block that cheatcodes have set moves as the block itself does, and where they have set none it becomes
/// the moved block. Where there are no cheatcodes there are none afterwards; and nothing changes without a delay.
pub proof fn cheatcodes_move_with_the_block(before: BlockEnv, after: BlockEnv, tx: BasicTxDetailsView)
    requires
        is_adjusted(before, after, tx),
    ensures
        before.cheatcodes is None == after.cheatcodes is None,
        ({
            let still = (tx.warp matches Some(warp) ==> warp.value() == 0) && (tx.roll matches Some(roll) ==> roll.value()
                == 0);
            &&& still ==> after == before
            &&& !still && before.cheatcodes == Some(None::<BlockTime>) ==> after.cheatcodes == Some(Some(after.block))
            &&& before.cheatcodes matches Some(Some(block)) ==> (after.cheatcodes matches Some(Some(set)) && {
                &&& tx.warp matches Some(warp) ==> set.timestamp.value() == (block.timestamp.value() + warp.value())
                    % pow2(256)
                &&& tx.warp is None ==> set.timestamp.value() == block.timestamp.value()
                &&& tx.roll matches Some(roll) ==> set.number.value() == (block.number.value() + roll.value())
                    % pow2(256)
                &&& tx.roll is None ==> set.number.value() == block.number.value()
            })
        }),
{
    if let Some(Some(block)) = before.cheatcodes {
        words_are_bounded(block.timestamp.bytes@);
        words_are_bounded(block.number.bytes@);
        vstd::arithmetic::div_mod::lemma_small_mod(block.timestamp.value(), pow2(256));
        vstd::arithmetic::div_mod::lemma_small_mod(block.number.value(), pow2(256));
    }
}

/// A sender that is dealt something has what it had and that, as 256-bit numbers that wrap around, and any
/// other what it had. What the transaction asks to send is sent exactly where the sender then has it.
pub proof fn senders_send_what_they_have(tx: BasicTxDetailsView, balance: nat)
    ensures
        tx.deal matches Some(deal) ==> balance_at_call(tx, balance) == (balance + deal.value()) % pow2(256),
        tx.deal is None ==> balance_at_call(tx, balance) == balance,
        tx.call_details.value is None ==> sent_value(tx, balance) == 0,
        tx.call_details.value matches Some(value) ==> {
            &&& value.value() <= balance_at_call(tx, balance) ==> sent_value(tx, balance) == value.value()
            &&& value.value() > balance_at_call(tx, balance) ==> sent_value(tx, balance) == 0
        },
{
}

/// Values are collected from the changes of every account but the sender, and from those of a sender that has
/// code; none of the changes is altered.
pub proof fn only_changes_of_made_up_senders_are_hidden<A>(
    changes: Map<Address, AccountChange<A>>,
    sender: Address,
    address: Address,
)
    ensures
        ({
            let collected = collected_changes(changes, sender);
            let has_code = changes[address].code matches Some(code) && code@.len() > 0;
            &&& collected.dom().contains(address) == (changes.dom().contains(address) && (address != sender
                || has_code))
            &&& collected.dom().contains(address) ==> collected[address] == changes[address]
        }),
{
}

/// An invariant is called from the caller, at the address of the contract, with its selector alone, and no value
/// is sent.
pub proof fn invariants_are_called_without_value(caller: Address, address: Address, selector: Selector)
    ensures
        ({
            let call = invariant_call(caller, address, selector);
            &&& call.from == caller
            &&& call.to == address
            &&& call.calldata == selector.bytes@
            &&& call.value == 0
        }),
{
}

/// Calls are known by all of their parts, one by one.
pub proof fn calls_are_known_by_their_parts(requests: Seq<CallRequest>, i: int)
    ensures
        request_models(requests).len() == requests.len(),
        0 <= i < requests.len() ==> {
            &&& request_models(requests)[i].from == requests[i].from
            &&& request_models(requests)[i].to == requests[i].to
            &&& request_models(requests)[i].calldata == requests[i].calldata@
            &&& request_models(requests)[i].value == requests[i].value.value()
        },
{
}

} // verus!
