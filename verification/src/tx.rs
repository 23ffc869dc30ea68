//! Transactions of a call sequence.

use vstd::prelude::*;

use crate::fixed::{Address, Word};

verus! {

/// What a transaction calls.
#[derive(Debug)]
pub struct CallDetails {
    /// The contract that is called.
    pub target: Address,
    /// The data of the call.
    pub calldata: Vec<u8>,
    /// The value sent with the call, if any was asked for.
    pub value: Option<Word>,
}

/// The model of [`CallDetails`].
pub struct CallDetailsView {
    pub target: Address,
    pub calldata: Seq<u8>,
    pub value: Option<Word>,
}

impl View for CallDetails {
    type V = CallDetailsView;

    open spec fn view(&self) -> CallDetailsView {
        CallDetailsView { target: self.target, calldata: self.calldata@, value: self.value }
    }
}

impl Clone for CallDetails {
    fn clone(&self) -> (r: Self)
        ensures
            r@ == self@,
    {
        CallDetails { target: self.target, calldata: self.calldata.clone(), value: self.value }
    }
}

/// A transaction of a call sequence.
#[derive(Debug)]
pub struct BasicTxDetails {
    /// How far the block timestamp moves before the call.
    pub warp: Option<Word>,
    /// How far the block number moves before the call.
    pub roll: Option<Word>,
    /// How much the balance of the sender grows before a call that sends value.
    pub deal: Option<Word>,
    /// The sender of the transaction.
    pub sender: Address,
    /// What the transaction calls.
    pub call_details: CallDetails,
}

/// The model of [`BasicTxDetails`].
pub struct BasicTxDetailsView {
    pub warp: Option<Word>,
    pub roll: Option<Word>,
    pub deal: Option<Word>,
    pub sender: Address,
    pub call_details: CallDetailsView,
}

impl View for BasicTxDetails {
    type V = BasicTxDetailsView;

    open spec fn view(&self) -> BasicTxDetailsView {
        BasicTxDetailsView {
            warp: self.warp,
            roll: self.roll,
            deal: self.deal,
            sender: self.sender,
            call_details: self.call_details@,
        }
    }
}

impl Clone for BasicTxDetails {
    fn clone(&self) -> (r: Self)
        ensures
            r@ == self@,
    {
        BasicTxDetails {
            warp: self.warp,
            roll: self.roll,
            deal: self.deal,
            sender: self.sender,
            call_details: self.call_details.clone(),
        }
    }
}

/// The models of a call sequence.
pub open spec fn tx_models(txs: Seq<BasicTxDetails>) -> Seq<BasicTxDetailsView> {
    Seq::new(txs.len(), |i: int| txs[i]@)
}

/// The model of an optional transaction.
pub open spec fn optional_tx_model(tx: Option<BasicTxDetails>) -> Option<BasicTxDetailsView> {
    match tx {
        Some(tx) => Some(tx@),
        None => None,
    }
}

/// The models of optional transactions.
pub open spec fn optional_tx_models(txs: Seq<Option<BasicTxDetails>>) -> Seq<Option<BasicTxDetailsView>> {
    Seq::new(txs.len(), |i: int| optional_tx_model(txs[i]))
}

/// A copy of a call sequence.
pub fn clone_txs(txs: &Vec<BasicTxDetails>) -> (r: Vec<BasicTxDetails>)
    ensures
        tx_models(r@) == tx_models(txs@),
{
    let mut out: Vec<BasicTxDetails> = Vec::new();
    let mut i: usize = 0;
    while i < txs.len()
        invariant
            i <= txs@.len(),
            out@.len() == i,
            forall|j: int| 0 <= j < i ==> (#[trigger] out@[j])@ == txs@[j]@,
        decreases txs@.len() - i,
    {
        out.push(txs[i].clone());
        i += 1;
    }
    assert(tx_models(out@) =~= tx_models(txs@));
    out
}

/// A copy of an optional transaction.
pub fn clone_optional_tx(tx: &Option<BasicTxDetails>) -> (r: Option<BasicTxDetails>)
    ensures
        optional_tx_model(r) == optional_tx_model(*tx),
{
    match tx {
        Some(tx) => Some(tx.clone()),
        None => None,
    }
}

/// A copy of optional transactions.
pub fn clone_optional_txs(txs: &Vec<Option<BasicTxDetails>>) -> (r: Vec<Option<BasicTxDetails>>)
    ensures
        optional_tx_models(r@) == optional_tx_models(txs@),
{
    let mut out: Vec<Option<BasicTxDetails>> = Vec::new();
    let mut i: usize = 0;
    while i < txs.len()
        invariant
            i <= txs@.len(),
            out@.len() == i,
            forall|j: int| 0 <= j < i ==> optional_tx_model(#[trigger] out@[j]) == optional_tx_model(txs@[j]),
        decreases txs@.len() - i,
    {
        out.push(clone_optional_tx(&txs[i]));
        i += 1;
    }
    assert(optional_tx_models(out@) =~= optional_tx_models(txs@));
    out
}

/// A transaction is known by all of its parts: nothing of it is left out of its model.
pub proof fn transactions_are_known_by_their_parts(tx: BasicTxDetails)
    ensures
        tx@.warp == tx.warp,
        tx@.roll == tx.roll,
        tx@.deal == tx.deal,
        tx@.sender == tx.sender,
        tx@.call_details.target == tx.call_details.target,
        tx@.call_details.calldata == tx.call_details.calldata@,
        tx@.call_details.value == tx.call_details.value,
{
}

/// A call sequence is known call by call, in order, and so is a sequence of calls that may be missing.
pub proof fn sequences_are_known_call_by_call(
    txs: Seq<BasicTxDetails>,
    optional_txs: Seq<Option<BasicTxDetails>>,
    i: int,
)
    ensures
        tx_models(txs).len() == txs.len(),
        0 <= i < txs.len() ==> tx_models(txs)[i] == txs[i]@,
        optional_tx_models(optional_txs).len() == optional_txs.len(),
        0 <= i < optional_txs.len() ==> {
            &&& optional_tx_models(optional_txs)[i] is Some == optional_txs[i] is Some
            &&& optional_txs[i] matches Some(tx) ==> optional_tx_models(optional_txs)[i] == Some(tx@)
        },
{
}

} // verus!
