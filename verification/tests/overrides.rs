use invariant_fuzz::abi::{AbiFunction, StateMutability};
use invariant_fuzz::call_override::{override_share, RandomCallGenerator};
use invariant_fuzz::fixed::Address;
use invariant_fuzz::strategy::{override_call_strat, override_contract, override_weights, OverrideTarget};
use invariant_fuzz::tx::CallDetails;
use proptest::test_runner::TestRunner;
use rand::rngs::StdRng;
use rand::SeedableRng;

fn call(byte: u8) -> CallDetails {
    CallDetails { target: Address::repeat_byte(byte), calldata: vec![byte], value: None }
}

#[test]
fn only_calls_to_handlers_are_replaced() {
    let handler = Address::repeat_byte(0x05);
    let generator = RandomCallGenerator::new(Address::repeat_byte(0xaa), vec![handler], Address::zero());
    assert!(generator.is_handler(handler));
    assert!(!generator.is_handler(Address::repeat_byte(0xaa)));
    assert!(!generator.replay);
    assert_eq!(generator.override_depth, 0);
}

#[test]
fn replay_gives_the_recorded_calls_in_order() {
    let caller = Address::repeat_byte(0x0c);
    let target = Address::repeat_byte(0x0d);
    let mut generator = RandomCallGenerator::new(Address::repeat_byte(0xaa), vec![], Address::zero());
    let first = generator.next_with(caller, target, Some(call(1))).unwrap();
    assert_eq!(first.sender, target);
    assert_eq!(first.call_details.target, Address::repeat_byte(1));
    assert!(first.warp.is_none() && first.roll.is_none() && first.deal.is_none());
    assert_eq!(generator.target_reference, caller);
    assert!(generator.next_with(caller, target, None).is_none());
    generator.next_with(caller, Address::repeat_byte(0x0e), Some(call(3)));
    assert_eq!(generator.last_sequence.len(), 3);

    generator.set_replay(true);
    let other = Address::repeat_byte(0xff);
    let replayed = generator.next_with(other, other, Some(call(9))).unwrap();
    assert_eq!(replayed.call_details.calldata, vec![1]);
    assert_eq!(replayed.sender, target);
    assert!(generator.next_with(other, other, Some(call(9))).is_none());
    let replayed = generator.next_with(other, other, None).unwrap();
    assert_eq!(replayed.call_details.calldata, vec![3]);
    assert_eq!(replayed.sender, Address::repeat_byte(0x0e));
    assert!(generator.last_sequence.is_empty());
    assert_eq!(generator.target_reference, caller);
    generator.set_replay(false);
    assert!(!generator.replay);
}

#[test]
fn most_calls_are_given_and_some_are_not() {
    let mut rng = StdRng::from_seed([0u8; 32]);
    let mut generator = RandomCallGenerator::new(Address::zero(), vec![], Address::zero());
    let given = (0..1000)
        .filter(|_| generator.next(Address::zero(), Address::zero(), call(1), &mut rng).is_some())
        .count();
    assert_eq!(override_share(), (9, 10));
    assert!(given > 800 && given < 980, "{given} of 1000 calls were given");
    assert_eq!(generator.last_sequence.len(), 1000);
}

#[test]
fn nothing_is_drawn_while_calls_are_replayed() {
    let mut rng = StdRng::from_seed([0u8; 32]);
    let mut generator = RandomCallGenerator::new(Address::zero(), vec![], Address::zero());
    let given: Vec<bool> = (0..50)
        .map(|_| generator.next(Address::zero(), Address::zero(), call(1), &mut rng).is_some())
        .collect();
    generator.set_replay(true);
    let before = rng.clone();
    let replayed: Vec<bool> = (0..50)
        .map(|_| generator.next(Address::zero(), Address::zero(), call(2), &mut rng).is_some())
        .collect();
    assert_eq!(replayed, given);
    assert_eq!(rng, before);
}

fn function(name: &str) -> AbiFunction {
    AbiFunction {
        name: name.to_string(),
        inputs: vec![],
        state_mutability: StateMutability::NonPayable,
        reserved: false,
    }
}

#[test]
fn overrides_mostly_call_the_target() {
    let a = Address::repeat_byte(0x0a);
    let b = Address::repeat_byte(0x0b);
    let contracts = vec![
        OverrideTarget { address: a, functions: vec![function("a1"), function("a2")] },
        OverrideTarget { address: b, functions: vec![function("b1")] },
    ];
    let mut runner = TestRunner::deterministic();
    let mut to_b = 0;
    let mut names = std::collections::HashSet::new();
    for _ in 0..500 {
        let (address, called) = override_call_strat(&contracts, b, &mut runner);
        assert!(address == a || address == b);
        assert_eq!(called.name.starts_with('b'), address == b);
        names.insert(called.name);
        if address == b {
            to_b += 1;
        }
    }
    assert!(to_b > 400 && to_b < 500, "{to_b} of 500 calls went to the target");
    assert_eq!(names.len(), 3);

    // A target that is not among the contracts gives way to one that is.
    for _ in 0..50 {
        let (address, _) = override_call_strat(&contracts, Address::repeat_byte(0xcc), &mut runner);
        assert!(address == a || address == b);
    }
}

#[test]
fn the_overridden_contract_follows_the_draws() {
    let a = Address::repeat_byte(0x0a);
    let b = Address::repeat_byte(0x0b);
    let contracts: Vec<OverrideTarget> =
        [a, b, b].into_iter().map(|address| OverrideTarget { address, functions: vec![function("f")] }).collect();
    assert_eq!(override_weights(), (80, 20));
    assert_eq!(override_contract(&contracts, b, true, 0, 2), 1);
    assert_eq!(override_contract(&contracts, b, false, 0, 2), 0);
    assert_eq!(override_contract(&contracts, a, false, 2, 0), 1);
    // A target that is not there gives way to another contract.
    assert_eq!(override_contract(&contracts, Address::zero(), true, 0, 2), 2);
}

#[test]
fn calls_are_drawn_for_the_caller() {
    let a = Address::repeat_byte(0x0a);
    let b = Address::repeat_byte(0x0b);
    let contracts: Vec<OverrideTarget> =
        [a, b].into_iter().map(|address| OverrideTarget { address, functions: vec![function("f")] }).collect();
    let mut runner = TestRunner::deterministic();
    let mut generator = RandomCallGenerator::new(Address::zero(), vec![], Address::zero());
    let to_b = (0..200).filter(|_| generator.draw_target(b, &contracts, &mut runner).0 == b).count();
    assert!(to_b > 150 && to_b < 200, "{to_b} of 200 calls went to the caller");
    assert_eq!(generator.target_reference, b);
    assert!(generator.last_sequence.is_empty());
}
