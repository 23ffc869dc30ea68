use std::collections::HashSet;

use alloy_primitives::keccak256;
use invariant_fuzz::abi::{Abi, AbiFunction, AbiParam, StateMutability};
use invariant_fuzz::calldata::{fuzz_calldata, fuzz_calldata_from_state, FuzzFixtures};
use invariant_fuzz::config::InvariantConfig;
use invariant_fuzz::dictionary::{FuzzDictionary, WordType};
use invariant_fuzz::filters::{fallback_sender, SenderFilters};
use invariant_fuzz::fixed::{Address, FixedBytes, Word};
use invariant_fuzz::ordered::OrderedMap;
use invariant_fuzz::param::{
    fuzz_param_from_state, mutate_param_value, select_random_address, OutsideValues,
};
use invariant_fuzz::sol::{SolType, SolValue};
use invariant_fuzz::strategy::{invariant_strat, select_call, CallTarget, GeneratedInputs};
use invariant_fuzz::targets::{TargetedContract, TargetedContracts};
use invariant_fuzz::tx::BasicTxDetails;
use proptest::test_runner::{Config, TestRunner};
use rand::rngs::StdRng;
use rand::{Rng, SeedableRng};

fn random_word(rng: &mut StdRng) -> Word {
    FixedBytes { bytes: rng.random() }
}

fn random_address(rng: &mut StdRng) -> Address {
    FixedBytes { bytes: rng.random() }
}

/// A value of a type, made up.
fn generate(ty: &SolType, rng: &mut StdRng) -> SolValue {
    match ty {
        SolType::Bool => SolValue::Bool(rng.random()),
        SolType::Int(n) => SolValue::Int(random_word(rng), *n),
        SolType::Uint(n) => SolValue::Uint(random_word(rng), *n),
        SolType::FixedBytes(n) => SolValue::FixedBytes(random_word(rng), *n),
        SolType::Address => SolValue::Address(random_address(rng)),
        SolType::Function => SolValue::Function(FixedBytes { bytes: rng.random() }),
        SolType::Bytes => {
            let len: usize = rng.random_range(0..=32);
            SolValue::Bytes((0..len).map(|_| rng.random()).collect())
        }
        SolType::String => {
            let len: usize = rng.random_range(0..=32);
            SolValue::String((0..len).map(|_| rng.random_range('a'..='z')).collect())
        }
        SolType::Array(t) => {
            let len: usize = rng.random_range(0..=4);
            SolValue::Array((0..len).map(|_| generate(t, rng)).collect())
        }
        SolType::FixedArray(t, n) => SolValue::FixedArray((0..*n).map(|_| generate(t, rng)).collect()),
        SolType::Tuple(ts) => SolValue::Tuple(ts.iter().map(|t| generate(t, rng)).collect()),
    }
}

fn function(signature: &str) -> AbiFunction {
    let parsed = alloy_json_abi::Function::parse(signature).unwrap();
    AbiFunction {
        name: parsed.name.clone(),
        inputs: parsed
            .inputs
            .iter()
            .map(|p| AbiParam { name: p.name.clone(), selector_type: p.selector_type().into_owned() })
            .collect(),
        state_mutability: StateMutability::NonPayable,
        reserved: false,
    }
}

fn generate_inputs(func: &AbiFunction, rng: &mut StdRng) -> Vec<SolValue> {
    func.inputs.iter().map(|input| generate(&input.sol_type().unwrap(), rng)).collect()
}

fn no_fixtures() -> FuzzFixtures {
    FuzzFixtures::new(OrderedMap::new())
}

#[test]
fn can_fuzz_with_fixtures() {
    let function = function("test_fuzzed_address(address addressFixture)");
    let mut rng = StdRng::from_seed([0u8; 32]);

    let address_fixture = SolValue::Address(FixedBytes { bytes: alloy_primitives::Address::random().into_array() });
    let mut fixtures = OrderedMap::new();
    // Names are looked up in small letters, so the key is in small letters.
    fixtures.insert("addressfixture".to_string(), SolValue::Array(vec![address_fixture.clone()]));

    let expected = function.encode_input(&vec![address_fixture]).unwrap();
    let strategy = fuzz_calldata(function.clone(), &FuzzFixtures::new(fixtures));
    // The fixture is picked half of the time; sampling many times must hit it.
    let saw_fixture = (0..256).any(|_| {
        let generated = generate_inputs(&function, &mut rng);
        strategy.generate(&mut rng, &generated) == expected
    });
    assert!(saw_fixture, "fixture was never selected from the configured pool");
}

fn tx_for_abi(abi: Abi) -> BasicTxDetails {
    let target = Address::repeat_byte(0x11);
    let mut targets = TargetedContracts::new();
    targets.insert(target, TargetedContract::new("Target".to_string(), abi));
    let mut runner = TestRunner::new(Config { failure_persistence: None, ..Default::default() });
    let mut rng = StdRng::from_seed([0u8; 32]);

    let call_targets: Vec<CallTarget> = targets
        .inner
        .entries
        .iter()
        .map(|(address, contract)| CallTarget::new(*address, contract, contract.abi.all_functions()))
        .collect();
    let (address, call) = select_call(&call_targets, &mut runner);
    let config = InvariantConfig {
        runs: 256,
        depth: 500,
        fail_on_revert: false,
        fail_on_assert: false,
        call_override: false,
        dictionary_weight: 80,
        shrink_run_limit: 5000,
        max_assume_rejects: 65536,
        gas_report_samples: 256,
        max_time_delay: None,
        max_block_delay: None,
        check_interval: 1,
        show_metrics: true,
    };
    invariant_strat(
        &FuzzDictionary::new(),
        &SenderFilters::new(vec![Address::repeat_byte(0x22)], vec![]),
        &config,
        &no_fixtures(),
        address,
        &call,
        &GeneratedInputs { for_fixtures: vec![], for_state: vec![] },
        Address::repeat_byte(0x33),
        &mut runner,
        &mut rng,
    )
    .unwrap()
}

#[test]
fn invariant_strat_can_call_receive() {
    let mut abi = Abi::new();
    abi.receive = true;
    let tx = tx_for_abi(abi);

    assert_eq!(tx.call_details.target, Address::repeat_byte(0x11));
    assert!(tx.call_details.calldata.is_empty());
}

#[test]
fn invariant_strat_can_call_fallback() {
    let mut abi = Abi::new();
    abi.fallback = Some(StateMutability::NonPayable);
    let tx = tx_for_abi(abi);

    assert_eq!(tx.call_details.target, Address::repeat_byte(0x11));
    assert_eq!(tx.call_details.calldata, vec![0u8]);
    assert_eq!(tx.call_details.value, None);
}

#[test]
fn can_fuzz_array() {
    let func = function("testArray(uint64[2] calldata values)");
    let state = FuzzDictionary::new();
    let mut rng = StdRng::from_seed([0u8; 32]);
    let a = fuzz_calldata(func.clone(), &no_fixtures());
    for _ in 0..32 {
        let generated = generate_inputs(&func, &mut rng);
        if rng.random_ratio(60, 100) {
            let _ = a.generate(&mut rng, &generated);
        } else {
            let _ = fuzz_calldata_from_state(&func, &state, &generated, &mut rng);
        }
    }
}

fn word(bytes: [u8; 32]) -> Word {
    FixedBytes { bytes }
}

#[test]
fn can_fuzz_string_and_bytes_with_ast_literals_and_hashes() {
    let mut state = FuzzDictionary::new();
    state.ast_strings.push("hello".to_string());
    state.ast_strings.push("world".to_string());
    state
        .samples
        .push((WordType::FixedBytes(32), vec![word(keccak256("hello").0), word(keccak256("world").0)]));

    let mut rng = StdRng::from_seed([0u8; 32]);

    let mut generated_bytes = HashSet::new();
    let mut generated_hashes = HashSet::new();
    let mut generated_strings = HashSet::new();
    for _ in 0..256 {
        let made = generate(&SolType::Bytes, &mut rng);
        if let SolValue::Bytes(bytes) = fuzz_param_from_state(&SolType::Bytes, &state, made, &mut rng) {
            if let Ok(s) = std::str::from_utf8(&bytes) {
                generated_bytes.insert(s.to_string());
            }
        }

        let made = generate(&SolType::String, &mut rng);
        if let SolValue::String(s) = fuzz_param_from_state(&SolType::String, &state, made, &mut rng) {
            generated_strings.insert(s);
        }

        let made = generate(&SolType::FixedBytes(32), &mut rng);
        if let SolValue::FixedBytes(bytes, size) =
            fuzz_param_from_state(&SolType::FixedBytes(32), &state, made, &mut rng)
        {
            if size == 32 {
                generated_hashes.insert(bytes.bytes);
            }
        }
    }

    assert!(generated_bytes.contains("hello"));
    assert!(generated_bytes.contains("world"));
    assert!(generated_strings.contains("hello"));
    assert!(generated_strings.contains("world"));
    assert!(generated_hashes.contains(&keccak256("hello").0));
    assert!(generated_hashes.contains(&keccak256("world").0));
}

#[test]
fn mutate_address_can_select_from_dictionary() {
    let mut state = FuzzDictionary::new();

    // Addresses in the dictionary, as words seen on the chain.
    let addr1 = Address::repeat_byte(0x11);
    let addr2 = Address::repeat_byte(0x22);
    let addr3 = Address::repeat_byte(0x33);
    state.values.extend([addr1.into_word(), addr2.into_word(), addr3.into_word()]);

    let mut rng = StdRng::from_seed([0u8; 32]);

    let original = Address::repeat_byte(0xff);
    let mut got_addr1 = false;
    let mut got_addr2 = false;
    let mut got_addr3 = false;

    for _ in 0..1000 {
        let outside = OutsideValues {
            mutated_address: Some(random_address(&mut rng)),
            mutated: SolValue::Address(original),
            generated: SolValue::Address(random_address(&mut rng)),
        };
        let mutated =
            mutate_param_value(&SolType::Address, &SolValue::Address(original), &state, outside, &mut rng);
        if let SolValue::Address(addr) = mutated {
            if addr == addr1 {
                got_addr1 = true;
            }
            if addr == addr2 {
                got_addr2 = true;
            }
            if addr == addr3 {
                got_addr3 = true;
            }
        }
        if got_addr1 && got_addr2 && got_addr3 {
            break;
        }
    }

    assert!(
        got_addr1 || got_addr2 || got_addr3,
        "Address mutation should select addresses from dictionary"
    );
}

#[test]
fn mutate_address_prefers_targeted_senders() {
    let mut state = FuzzDictionary::new();

    // An address of the dictionary, which is not selected while there are targeted senders.
    let dict_addr = Address::repeat_byte(0xdd);
    state.values.push(dict_addr.into_word());

    let targeted1 = Address::repeat_byte(0x11);
    let targeted2 = Address::repeat_byte(0x22);
    let senders = SenderFilters::new(vec![targeted1, targeted2], vec![]);

    let mut rng = StdRng::from_seed([0u8; 32]);

    let original = Address::repeat_byte(0xff);
    let mut got_targeted1 = false;
    let mut got_targeted2 = false;
    let mut got_dict = false;

    for _ in 0..100 {
        if let Some(addr) = select_random_address(original, &state, Some(&senders), &mut rng) {
            if addr == targeted1 {
                got_targeted1 = true;
            }
            if addr == targeted2 {
                got_targeted2 = true;
            }
            if addr == dict_addr {
                got_dict = true;
            }
        }
    }

    assert!(
        got_targeted1 || got_targeted2,
        "select_random_address should select from targeted senders"
    );
    assert!(
        !got_dict,
        "select_random_address should not select from dictionary when targeted senders are set"
    );
}

#[test]
fn excluded_senders_are_remapped_to_fallback_at_execution_boundary() {
    let allowed = Address::repeat_byte(0x11);
    let excluded = Address::repeat_byte(0xee);
    let filters = SenderFilters::new(vec![], vec![excluded]);

    // Allowed addresses pass through unchanged.
    assert_eq!(filters.resolve(allowed), allowed);
    // Excluded addresses fall back to the deterministic 0x30000.
    assert_eq!(filters.resolve(excluded), fallback_sender());
    // The zero address is excluded by default.
    assert_eq!(filters.resolve(Address::zero()), fallback_sender());
}
