use invariant_fuzz::abi::{AbiFunction, AbiParam, StateMutability};
use invariant_fuzz::config::InvariantContract;
use invariant_fuzz::execute::{
    adjust_block, call_after_invariant_function, execute_tx, hide_sender, invariant_requests, needs_balance,
    restore_sender, AccountChange, BlockEnv, BlockTime,
};
use invariant_fuzz::fixed::{Address, FixedBytes, Word};
use invariant_fuzz::ordered::OrderedMap;
use invariant_fuzz::tx::{BasicTxDetails, CallDetails};

fn word(n: u64) -> Word {
    FixedBytes { bytes: alloy_primitives::U256::from(n).to_be_bytes() }
}

fn tx(warp: Option<u64>, roll: Option<u64>, deal: Option<u64>, value: Option<u64>) -> BasicTxDetails {
    BasicTxDetails {
        warp: warp.map(word),
        roll: roll.map(word),
        deal: deal.map(word),
        sender: Address::repeat_byte(0x01),
        call_details: CallDetails {
            target: Address::repeat_byte(0x02),
            calldata: vec![1, 2, 3, 4],
            value: value.map(word),
        },
    }
}

fn env(cheatcodes: Option<Option<BlockTime>>) -> BlockEnv {
    BlockEnv { block: BlockTime { timestamp: word(100), number: word(10) }, cheatcodes }
}

#[test]
fn blocks_do_not_move_without_a_delay() {
    let mut env = env(Some(None));
    adjust_block(&mut env, &tx(None, None, None, None));
    adjust_block(&mut env, &tx(Some(0), Some(0), None, None));
    assert_eq!(env.block.timestamp, word(100));
    assert_eq!(env.block.number, word(10));
    assert!(matches!(env.cheatcodes, Some(None)));
}

#[test]
fn blocks_move_by_warp_and_roll() {
    let mut plain = env(None);
    adjust_block(&mut plain, &tx(Some(5), None, None, None));
    assert_eq!(plain.block.timestamp, word(105));
    assert_eq!(plain.block.number, word(10));
    assert!(plain.cheatcodes.is_none());

    // Cheatcodes that have not set a block take over the moved one.
    let mut unset = env(Some(None));
    adjust_block(&mut unset, &tx(Some(5), Some(2), None, None));
    let set = unset.cheatcodes.unwrap().unwrap();
    assert_eq!(set.timestamp, word(105));
    assert_eq!(set.number, word(12));

    // A block that cheatcodes have set moves on its own.
    let mut own = env(Some(Some(BlockTime { timestamp: word(7), number: word(8) })));
    adjust_block(&mut own, &tx(None, Some(2), None, None));
    let set = own.cheatcodes.unwrap().unwrap();
    assert_eq!(own.block.number, word(12));
    assert_eq!(set.timestamp, word(7));
    assert_eq!(set.number, word(10));
}

#[test]
fn block_times_wrap_around() {
    let mut env = env(None);
    let mut tx = tx(None, None, None, None);
    tx.warp = Some(Word::max());
    adjust_block(&mut env, &tx);
    assert_eq!(env.block.timestamp, word(99));
}

#[test]
fn no_value_means_no_deal() {
    let mut env = env(None);
    let tx = tx(None, None, Some(500), None);
    assert!(!needs_balance(&tx));
    let call = execute_tx(&mut env, &tx, word(1));
    assert!(call.balance.is_none());
    assert_eq!(call.call.value, word(0));
    assert_eq!(call.call.from, Address::repeat_byte(0x01));
    assert_eq!(call.call.to, Address::repeat_byte(0x02));
    assert_eq!(call.call.calldata, vec![1, 2, 3, 4]);
}

#[test]
fn value_is_sent_where_the_balance_allows_it() {
    let mut env = env(None);
    // Enough without a deal.
    let call = execute_tx(&mut env, &tx(None, None, None, Some(30)), word(30));
    assert!(call.balance.is_none());
    assert_eq!(call.call.value, word(30));
    // Not enough.
    let call = execute_tx(&mut env, &tx(None, None, None, Some(30)), word(29));
    assert_eq!(call.call.value, word(0));
    // Enough with a deal.
    let call = execute_tx(&mut env, &tx(None, None, Some(20), Some(30)), word(10));
    assert_eq!(call.balance, Some(word(30)));
    assert_eq!(call.call.value, word(30));
    // Not enough even with a deal, which is given all the same.
    let call = execute_tx(&mut env, &tx(None, None, Some(19), Some(30)), word(10));
    assert_eq!(call.balance, Some(word(29)));
    assert_eq!(call.call.value, word(0));
}

fn function(name: &str, inputs: Vec<AbiParam>) -> AbiFunction {
    AbiFunction { name: name.to_string(), inputs, state_mutability: StateMutability::View, reserved: true }
}

fn selector(signature: &str) -> Vec<u8> {
    alloy_primitives::keccak256(signature).0[..4].to_vec()
}

#[test]
fn invariants_are_called_by_their_selectors() {
    let caller = Address::repeat_byte(0x10);
    let mut contract = InvariantContract {
        address: Address::repeat_byte(0xaa),
        invariant_fn: function("invariant_a", vec![]),
        invariant_fns: vec![(function("invariant_a", vec![]), false), (function("invariant_b", vec![]), true)],
        call_after_invariant: true,
        optimization: false,
    };
    let requests = invariant_requests(caller, &contract).unwrap();
    assert_eq!(requests.len(), 2);
    assert_eq!(requests[0].calldata, selector("invariant_a()"));
    assert_eq!(requests[1].calldata, selector("invariant_b()"));
    assert_eq!(requests[1].to, Address::repeat_byte(0xaa));
    assert_eq!(requests[1].from, caller);
    assert_eq!(requests[1].value, word(0));

    contract.optimization = true;
    let requests = invariant_requests(caller, &contract).unwrap();
    assert_eq!(requests.len(), 1);
    assert_eq!(requests[0].calldata, selector("invariant_a()"));

    contract.optimization = false;
    let input = AbiParam { name: "x".to_string(), selector_type: "uint256".to_string() };
    contract.invariant_fns.push((function("invariant_c", vec![input]), false));
    assert!(invariant_requests(caller, &contract).is_none());

    let after = call_after_invariant_function(caller, contract.address);
    assert_eq!(after.calldata, selector("afterInvariant()"));
}

fn change(code: Option<Vec<u8>>, rest: u32) -> AccountChange<u32> {
    AccountChange { code, rest }
}

#[test]
fn senders_without_code_are_not_collected() {
    let sender = Address::repeat_byte(0x01);
    let other = Address::repeat_byte(0x02);
    for code in [None, Some(vec![])] {
        let mut changes = OrderedMap::new();
        changes.insert(sender, change(code, 7));
        changes.insert(other, change(Some(vec![1]), 8));
        let hidden = hide_sender(&mut changes, sender);
        assert!(!changes.contains_key(&sender));
        assert!(changes.contains_key(&other));
        restore_sender(&mut changes, sender, hidden);
        assert_eq!(changes.len(), 2);
        assert_eq!(changes.get(&sender).unwrap().rest, 7);
    }
}

#[test]
fn senders_with_code_are_collected() {
    let sender = Address::repeat_byte(0x01);
    let mut changes = OrderedMap::new();
    changes.insert(sender, change(Some(vec![0xfe]), 7));
    let hidden = hide_sender(&mut changes, sender);
    assert!(hidden.is_none());
    assert!(changes.contains_key(&sender));
    restore_sender(&mut changes, sender, hidden);
    assert_eq!(changes.len(), 1);

    let mut empty: OrderedMap<Address, AccountChange<u32>> = OrderedMap::new();
    assert!(hide_sender(&mut empty, sender).is_none());
}
