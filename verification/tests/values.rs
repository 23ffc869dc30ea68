use alloy_dyn_abi::{DynSolType, DynSolValue};
use alloy_primitives::{I256, U256};
use invariant_fuzz::abi::{AbiFunction, AbiParam, StateMutability};
use invariant_fuzz::calldata::{try_calldata, try_calldata_from_state, try_fuzz_calldata, values_fit, FuzzFixtures};
use invariant_fuzz::config::InvariantConfig;
use invariant_fuzz::dictionary::{
    bytes_literal_share, decode_word, literal_share, typed_share, FuzzDictionary, SampleDraws, WordType,
};
use invariant_fuzz::filters::SenderFilters;
use invariant_fuzz::fixed::{Address, FixedBytes, Word};
use invariant_fuzz::ordered::OrderedMap;
use invariant_fuzz::param::{
    address_for_roll, fixture_share, fuzz_msg_value, fuzz_param, fuzz_param_from_state, fuzz_param_with_fixtures,
    generate_from_state, generate_msg_value, generated_value_for, generated_value_limit,
    msg_value_for, msg_value_limit, mutate_param_value_with_senders, mutator_max_array_len, state_generator,
    tidy, IntDistribution, OutsideValues, MILLI_ETH, ONE_ETH,
};
use invariant_fuzz::random::{avoid, avoid_with_seed, free_address};
use invariant_fuzz::sol::{SolType, SolValue};
use invariant_fuzz::strategy::{
    call_at, call_details_with, calldata_weights, contract_call_with, sender_candidate, sender_weights, sender_with,
    delay_for, invariant_strat, possible_calls, select_random_sender, try_fuzz_contract_with_calldata, CallTarget,
    GeneratedInputs, TargetCall,
};
use proptest::test_runner::TestRunner;
use rand::rngs::StdRng;
use rand::SeedableRng;

fn rng() -> StdRng {
    StdRng::from_seed([0u8; 32])
}

fn word(value: U256) -> Word {
    FixedBytes { bytes: value.to_be_bytes() }
}

fn signed(value: i64) -> Word {
    word(I256::try_from(value).unwrap().into_raw())
}

fn number(word: Word) -> U256 {
    U256::from_be_bytes(word.bytes)
}

#[test]
fn unsigned_integers_are_reduced_to_their_size() {
    let decode = |bits: usize, value: U256| match decode_word(WordType::Uint(bits), word(value)) {
        SolValue::Uint(w, n) => {
            assert_eq!(n, bits);
            number(w)
        }
        other => panic!("unexpected {other:?}"),
    };
    assert_eq!(decode(8, U256::from(511)), U256::from(255));
    assert_eq!(decode(8, U256::from(256)), U256::ZERO);
    assert_eq!(decode(64, U256::MAX), U256::from(u64::MAX));
    assert_eq!(decode(248, U256::MAX), U256::MAX >> 8);
    assert_eq!(decode(256, U256::MAX), U256::MAX);
}

#[test]
fn signed_integers_are_sign_extended() {
    let decode = |bits: usize, value: U256| match decode_word(WordType::Int(bits), word(value)) {
        SolValue::Int(w, n) => {
            assert_eq!(n, bits);
            I256::from_raw(number(w))
        }
        other => panic!("unexpected {other:?}"),
    };
    assert_eq!(decode(8, U256::from(127)), I256::try_from(127).unwrap());
    assert_eq!(decode(8, U256::from(128)), I256::try_from(-128).unwrap());
    assert_eq!(decode(8, U256::from(255)), I256::try_from(-1).unwrap());
    assert_eq!(decode(16, U256::from(0x1_8000u64)), I256::try_from(-32768).unwrap());
    assert_eq!(decode(256, U256::MAX), I256::try_from(-1).unwrap());
    assert_eq!(decode(256, U256::from(5)), I256::try_from(5).unwrap());
}

#[test]
fn fixed_bytes_keep_their_head_and_addresses_their_tail() {
    let bytes: [u8; 32] = core::array::from_fn(|i| i as u8 + 1);
    let w = FixedBytes { bytes };
    match decode_word(WordType::FixedBytes(3), w) {
        SolValue::FixedBytes(head, 3) => {
            assert_eq!(head.bytes[..4], [1, 2, 3, 0]);
            assert!(head.bytes[3..].iter().all(|b| *b == 0));
        }
        other => panic!("unexpected {other:?}"),
    }
    match decode_word(WordType::FixedBytes(32), w) {
        SolValue::FixedBytes(head, 32) => assert_eq!(head, w),
        other => panic!("unexpected {other:?}"),
    }
    match decode_word(WordType::Address, w) {
        SolValue::Address(address) => {
            assert_eq!(address.bytes[..], bytes[12..]);
            assert_eq!(Address::from_word(address.into_word()), address);
        }
        other => panic!("unexpected {other:?}"),
    }
    match decode_word(WordType::Bytes, w) {
        SolValue::Bytes(all) => assert_eq!(all, bytes.to_vec()),
        other => panic!("unexpected {other:?}"),
    }
}

fn draws() -> SampleDraws {
    SampleDraws {
        string_literal: false,
        string_place: 0,
        bytes_literal: false,
        bytes_place: 0,
        typed: false,
        word_place: 0,
    }
}

fn dictionary() -> FuzzDictionary {
    FuzzDictionary {
        values: vec![word(U256::from(1)), word(U256::from(300))],
        samples: vec![(WordType::Uint(8), vec![word(U256::from(513))]), (WordType::Int(8), vec![])],
        ast_strings: vec!["one".to_string(), "zwei".to_string()],
        ast_bytes: vec![vec![9, 9]],
        deployed_libs: vec![],
    }
}

#[test]
fn samples_follow_the_draws() {
    let dict = dictionary();
    let uint = SolType::Uint(8);
    match dict.sample_with(&uint, &SampleDraws { word_place: 1, ..draws() }) {
        Some(SolValue::Uint(w, 8)) => assert_eq!(number(w), U256::from(44)),
        other => panic!("unexpected {other:?}"),
    }
    match dict.sample_with(&uint, &SampleDraws { typed: true, ..draws() }) {
        Some(SolValue::Uint(w, 8)) => assert_eq!(number(w), U256::from(1)),
        other => panic!("unexpected {other:?}"),
    }
    // Known samples that are empty give nothing; unknown ones give way to all words.
    assert!(dict.sample_with(&SolType::Int(8), &SampleDraws { typed: true, ..draws() }).is_none());
    assert!(dict.sample_with(&SolType::Int(16), &SampleDraws { typed: true, ..draws() }).is_some());

    let string = SampleDraws { string_literal: true, string_place: 1, ..draws() };
    match dict.sample_with(&SolType::String, &string) {
        Some(SolValue::String(s)) => assert_eq!(s, "zwei"),
        other => panic!("unexpected {other:?}"),
    }
    assert!(dict.sample_with(&SolType::String, &draws()).is_none());
    match dict.sample_with(&SolType::Bytes, &string) {
        Some(SolValue::Bytes(b)) => assert_eq!(b, b"zwei"),
        other => panic!("unexpected {other:?}"),
    }
    match dict.sample_with(&SolType::Bytes, &SampleDraws { bytes_literal: true, ..draws() }) {
        Some(SolValue::Bytes(b)) => assert_eq!(b, vec![9, 9]),
        other => panic!("unexpected {other:?}"),
    }
    match dict.sample_with(&SolType::Bytes, &draws()) {
        Some(SolValue::Bytes(b)) => assert_eq!(b, word(U256::from(1)).to_vec()),
        other => panic!("unexpected {other:?}"),
    }
    for ty in [SolType::Bool, SolType::Function, SolType::Array(Box::new(SolType::Bool)), SolType::Tuple(vec![])] {
        assert!(dict.sample_with(&ty, &draws()).is_none());
        assert!(dict.sample(&ty, &mut rng()).is_none());
    }
    assert!(FuzzDictionary::new().sample(&SolType::Address, &mut rng()).is_none());
}

#[test]
fn deployed_libraries_are_not_sampled() {
    let library = Address::repeat_byte(0x4c);
    let mut dict = FuzzDictionary::new();
    dict.values.push(library.into_word());
    match dict.sample_with(&SolType::Address, &draws()) {
        Some(SolValue::Address(address)) => assert_eq!(address, library),
        other => panic!("unexpected {other:?}"),
    }
    dict.deployed_libs.push(library);
    // The address in its place is the first of a generator with a fixed seed.
    let mut expected = alloy_primitives::Address::ZERO;
    expected.randomize_with(&mut StdRng::seed_from_u64(0x1337));
    match dict.sample_with(&SolType::Address, &draws()) {
        Some(SolValue::Address(address)) => assert_eq!(address.bytes, expected.into_array()),
        other => panic!("unexpected {other:?}"),
    }
    // And the second, if the first is a library too.
    let mut generator = StdRng::seed_from_u64(0x1337);
    expected.randomize_with(&mut generator);
    dict.deployed_libs.push(FixedBytes { bytes: expected.into_array() });
    expected.randomize_with(&mut generator);
    let address = avoid_with_seed(library, &dict.deployed_libs, 0x1337);
    assert_eq!(address.bytes, expected.into_array());
}

#[test]
fn forbidden_addresses_are_avoided() {
    let a = Address::repeat_byte(1);
    assert_eq!(avoid(a, &vec![]), a);
    assert!(avoid(a, &vec![a]) != a);
    assert_eq!(free_address(&vec![a]), Address::zero());
    let mut one = Address::zero();
    one.bytes[19] = 1;
    assert_eq!(free_address(&vec![Address::zero()]), one);
}

#[test]
fn leaves_are_taken_from_the_dictionary() {
    let mut dict = FuzzDictionary::new();
    dict.values.push(word(U256::from(7)));
    let ty = SolType::Tuple(vec![
        SolType::Array(Box::new(SolType::Uint(256))),
        SolType::FixedArray(Box::new(SolType::Int(64)), 1),
        SolType::Bool,
    ]);
    let generated = SolValue::Tuple(vec![
        SolValue::Array(vec![SolValue::Uint(word(U256::from(1)), 256), SolValue::Uint(word(U256::from(2)), 256)]),
        SolValue::FixedArray(vec![SolValue::Int(word(U256::from(3)), 64)]),
        SolValue::Bool(true),
    ]);
    let value = generate_from_state(&dict, &ty, generated, &mut rng());
    assert!(ty.matches(&value));
    let seven = format!("{:?}", word(U256::from(7)));
    let shown = format!("{value:?}");
    assert_eq!(shown.matches(&seven).count(), 3);
    assert!(shown.contains("Bool(true)"));
}

#[test]
fn strings_are_cleaned() {
    let text = |s: &str| match tidy(SolValue::String(s.to_string())) {
        SolValue::String(s) => s,
        other => panic!("unexpected {other:?}"),
    };
    for s in ["", "a", "  a b\t\n", "a\0\0", " a\0 ", "\0", "\u{a0}\u{2003}ä\u{3000}", " \0 ", "a \0"] {
        assert_eq!(text(s), s.trim().trim_end_matches('\0'));
    }
    let mut dict = FuzzDictionary::new();
    dict.ast_strings.push(" padded ".to_string());
    let mut rng = rng();
    let seen = (0..100).any(|_| {
        let made = SolValue::String("x\0".to_string());
        match fuzz_param_from_state(&SolType::String, &dict, made, &mut rng) {
            SolValue::String(s) => {
                assert!(s == "x" || s == "padded");
                s == "padded"
            }
            other => panic!("unexpected {other:?}"),
        }
    });
    assert!(seen);
}

#[test]
fn fixtures_of_another_type_are_not_used() {
    let fixtures = vec![SolValue::Uint(signed(1), 8), SolValue::Uint(signed(2), 16)];
    let strategy = fuzz_param_with_fixtures(&SolType::Uint(8), Some(&fixtures), "amount");
    assert!(strategy.fixtures.is_none());
    assert_eq!(strategy.mismatch, Some("amount".to_string()));
    assert!(strategy.draw_fixture(&mut rng()).is_none());
    let plain = fuzz_param(&SolType::Uint(8));
    assert!(plain.fixtures.is_none() && plain.mismatch.is_none());
    assert_eq!(plain.generator.max_array_len, 256);
    assert_eq!(plain.generator.max_bytes_len, 32);
}

#[test]
fn integer_fixtures_are_preferred_by_the_generator() {
    let fixtures = vec![SolValue::Int(signed(-3), 8), SolValue::Int(signed(4), 8)];
    let strategy = fuzz_param_with_fixtures(&SolType::Int(8), Some(&fixtures), "x");
    match &strategy.generator.signed {
        IntDistribution::Mixed { bits: 8, preferred } => assert_eq!(*preferred, vec![signed(-3), signed(4)]),
        other => panic!("unexpected {other:?}"),
    }
    assert!(matches!(strategy.generator.unsigned, IntDistribution::Uniform));
    let fixtures = vec![SolValue::Uint(signed(5), 256)];
    let strategy = fuzz_param_with_fixtures(&SolType::Uint(256), Some(&fixtures), "x");
    match &strategy.generator.unsigned {
        IntDistribution::Mixed { bits: 256, preferred } => assert_eq!(*preferred, vec![signed(5)]),
        other => panic!("unexpected {other:?}"),
    }
    match strategy.value_with(Some(0), SolValue::Uint(signed(0), 256)) {
        SolValue::Uint(w, 256) => assert_eq!(w, signed(5)),
        other => panic!("unexpected {other:?}"),
    }
    match strategy.value_with(None, SolValue::Uint(signed(9), 256)) {
        SolValue::Uint(w, 256) => assert_eq!(w, signed(9)),
        other => panic!("unexpected {other:?}"),
    }
    let bytes = fuzz_param(&SolType::Bytes);
    assert!(matches!(bytes.generator.signed, IntDistribution::Uniform));
}

fn outside(byte: u8) -> OutsideValues {
    OutsideValues {
        mutated_address: Some(Address::repeat_byte(byte)),
        mutated: SolValue::Bool(false),
        generated: SolValue::Address(Address::repeat_byte(0x99)),
    }
}

#[test]
fn mutation_is_decided_by_a_roll() {
    let selected = Some(Address::repeat_byte(1));
    let mutated = Some(Address::repeat_byte(2));
    for roll in 0..4 {
        assert_eq!(address_for_roll(roll, selected, mutated), mutated);
    }
    assert_eq!(address_for_roll(4, selected, mutated), selected);
    assert_eq!(address_for_roll(5, selected, mutated), None);

    let dict = FuzzDictionary::new();
    let senders = SenderFilters::new(vec![Address::repeat_byte(0x44)], vec![]);
    let mut rng = rng();
    let mut seen = std::collections::HashSet::new();
    for _ in 0..200 {
        let value = SolValue::Address(Address::repeat_byte(0x01));
        match mutate_param_value_with_senders(&SolType::Address, &value, &dict, &senders, outside(0x02), &mut rng) {
            SolValue::Address(address) => {
                seen.insert(address.bytes[0]);
            }
            other => panic!("unexpected {other:?}"),
        }
    }
    let mut seen: Vec<u8> = seen.into_iter().collect();
    seen.sort();
    assert_eq!(seen, vec![0x02, 0x44, 0x99]);

    let value = SolValue::Bool(true);
    match mutate_param_value_with_senders(&SolType::Bool, &value, &dict, &senders, outside(2), &mut rng) {
        SolValue::Bool(b) => assert!(!b),
        other => panic!("unexpected {other:?}"),
    }
}

#[test]
fn message_values_are_limited_by_a_roll() {
    assert_eq!(msg_value_limit(0), None);
    assert_eq!(msg_value_limit(84), None);
    assert_eq!(msg_value_limit(85), Some(1000));
    assert_eq!(msg_value_limit(94), Some(1000));
    assert_eq!(msg_value_limit(95), Some(MILLI_ETH));
    assert_eq!(msg_value_limit(98), Some(MILLI_ETH));
    assert_eq!(msg_value_limit(99), Some(ONE_ETH));
    let limits: Vec<Option<u64>> = (0..100).map(generated_value_limit).collect();
    assert_eq!(limits.iter().filter(|l| **l == Some(1000)).count(), 60);
    assert_eq!(limits.iter().filter(|l| **l == Some(MILLI_ETH)).count(), 30);
    assert_eq!(limits.iter().filter(|l| **l == Some(ONE_ETH)).count(), 9);
    assert_eq!(limits.iter().filter(|l| l.is_none()).count(), 1);

    assert_eq!(msg_value_for(84, 7), None);
    assert_eq!(msg_value_for(85, 7), Some(word(U256::from(7))));
    assert_eq!(generated_value_for(98, 7), word(U256::from(7)));
    assert_eq!(generated_value_for(99, 7), word(U256::MAX));

    let mut rng = rng();
    let sent: Vec<Word> = (0..2000).filter_map(|_| fuzz_msg_value(&mut rng)).collect();
    assert!(sent.len() > 200 && sent.len() < 400, "{} of 2000 calls sent value", sent.len());
    assert!(sent.iter().all(|w| number(*w) <= U256::from(ONE_ETH)));
    let generated: Vec<Word> = (0..2000).map(|_| generate_msg_value(&mut rng)).collect();
    assert!(generated.iter().any(|w| number(*w) == U256::MAX));
    assert!(generated.iter().all(|w| number(*w) <= U256::from(ONE_ETH) || number(*w) == U256::MAX));
    assert!(generated.iter().filter(|w| number(**w) <= U256::from(1000)).count() > 1000);
}

fn param(name: &str, ty: &str) -> AbiParam {
    AbiParam { name: name.to_string(), selector_type: ty.to_string() }
}

fn function(inputs: Vec<AbiParam>, state_mutability: StateMutability) -> AbiFunction {
    AbiFunction { name: "f".to_string(), inputs, state_mutability, reserved: false }
}

fn no_fixtures() -> FuzzFixtures {
    FuzzFixtures::new(OrderedMap::new())
}

#[test]
fn types_have_the_names_that_they_parse_from() {
    let parse = |name: &str| param("x", name).sol_type();
    assert!(matches!(parse("uint"), Some(SolType::Uint(256))));
    assert!(matches!(parse("int24"), Some(SolType::Int(24))));
    assert!(matches!(parse("bytes4"), Some(SolType::FixedBytes(4))));
    assert!(matches!(parse("function"), Some(SolType::Function)));
    assert!(parse("uint7").is_none());
    assert!(parse("Foo").is_none());
    match parse("(bool,string[],(address)[2])[]") {
        Some(SolType::Array(t)) => match *t {
            SolType::Tuple(ts) => {
                assert!(matches!(ts[0], SolType::Bool));
                assert!(matches!(&ts[1], SolType::Array(t) if matches!(**t, SolType::String)));
                assert!(matches!(&ts[2], SolType::FixedArray(t, 2) if matches!(**t, SolType::Tuple(_))));
            }
            other => panic!("unexpected {other:?}"),
        },
        other => panic!("unexpected {other:?}"),
    }
}

#[test]
fn values_match_types_as_they_are_encoded() {
    let values = || {
        vec![
            (SolValue::Bool(true), DynSolValue::Bool(true)),
            (SolValue::Int(signed(-2), 16), DynSolValue::Int(I256::try_from(-2).unwrap(), 16)),
            (SolValue::Uint(signed(2), 16), DynSolValue::Uint(U256::from(2), 16)),
            (SolValue::Bytes(vec![1]), DynSolValue::Bytes(vec![1])),
            (SolValue::String("s".to_string()), DynSolValue::String("s".to_string())),
            (SolValue::Array(vec![SolValue::Bool(false)]), DynSolValue::Array(vec![DynSolValue::Bool(false)])),
            (
                SolValue::FixedArray(vec![SolValue::Bool(false)]),
                DynSolValue::FixedArray(vec![DynSolValue::Bool(false)]),
            ),
            (SolValue::Tuple(vec![SolValue::Bool(true)]), DynSolValue::Tuple(vec![DynSolValue::Bool(true)])),
        ]
    };
    let types = ["bool", "int16", "uint16", "uint8", "bytes", "string", "bool[]", "bool[1]", "bool[2]", "(bool)", "int8[]"];
    for name in types {
        let ours = param("x", name).sol_type().unwrap();
        let theirs = DynSolType::parse(name).unwrap();
        for (our, their) in values() {
            assert_eq!(ours.matches(&our), theirs.matches(&their), "{name} and {our:?}");
            let func = function(vec![param("x", name)], StateMutability::NonPayable);
            let encoded = func.encode_input(&vec![our]);
            if theirs.matches(&their) {
                let mut expected = alloy_primitives::keccak256(format!("f({name})")).0[..4].to_vec();
                expected.extend(DynSolValue::Tuple(vec![their]).abi_encode_params());
                assert_eq!(encoded, Some(expected));
            } else {
                assert!(encoded.is_none());
            }
        }
    }
}

#[test]
fn calldata_needs_values_of_the_right_types() {
    let func = function(vec![param("a", "uint8"), param("b", "bool")], StateMutability::NonPayable);
    let good = vec![SolValue::Uint(signed(1), 8), SolValue::Bool(true)];
    let bad = vec![SolValue::Uint(signed(1), 16), SolValue::Bool(true)];
    assert!(values_fit(&func, &good));
    assert!(!values_fit(&func, &bad));
    assert!(!values_fit(&func, &vec![]));
    let mut rng = rng();
    assert_eq!(try_calldata(&func, &no_fixtures(), &good, &mut rng), func.encode_input(&good));
    assert!(try_calldata(&func, &no_fixtures(), &bad, &mut rng).is_none());
    assert!(try_calldata_from_state(&func, &FuzzDictionary::new(), &bad, &mut rng).is_none());
    assert_eq!(
        try_calldata_from_state(&func, &FuzzDictionary::new(), &good, &mut rng),
        func.encode_input(&good)
    );
    let unknown = function(vec![param("a", "Foo")], StateMutability::NonPayable);
    assert!(try_fuzz_calldata(unknown, &no_fixtures()).is_none());
    let strategy = try_fuzz_calldata(func, &no_fixtures()).unwrap();
    assert_eq!(strategy.params.len(), 2);
}

#[test]
fn fixtures_are_found_by_name_in_small_letters() {
    let mut inner = OrderedMap::new();
    inner.insert("owner".to_string(), SolValue::FixedArray(vec![SolValue::Bool(true)]));
    inner.insert("plain".to_string(), SolValue::Bool(true));
    let fixtures = FuzzFixtures::new(inner);
    assert_eq!(fixtures.param_fixtures("OwNer").unwrap().len(), 1);
    assert!(fixtures.param_fixtures("plain").is_none());
    assert!(fixtures.param_fixtures("other").is_none());

    let func = function(vec![param("Owner", "bool")], StateMutability::NonPayable);
    let strategy = try_fuzz_calldata(func.clone(), &fixtures).unwrap();
    let generated = vec![SolValue::Bool(false)];
    let fixed = strategy.calldata_with(&vec![Some(0)], &generated);
    assert_eq!(Some(fixed), func.encode_input(&vec![SolValue::Bool(true)]));
    let made = strategy.calldata_with(&vec![None], &generated);
    assert_eq!(Some(made), func.encode_input(&generated));
}

#[test]
fn only_payable_functions_are_sent_value() {
    let mut runner = TestRunner::deterministic();
    let mut rng = rng();
    let generated = GeneratedInputs { for_fixtures: vec![], for_state: vec![] };
    for (mutability, payable) in [(StateMutability::Payable, true), (StateMutability::NonPayable, false)] {
        let func = function(vec![], mutability);
        let sent = (0..500)
            .filter(|_| {
                let details = try_fuzz_contract_with_calldata(
                    &FuzzDictionary::new(),
                    &no_fixtures(),
                    Address::repeat_byte(3),
                    &func,
                    &generated,
                    &mut runner,
                    &mut rng,
                )
                .unwrap();
                assert_eq!(details.target, Address::repeat_byte(3));
                assert_eq!(details.calldata, alloy_primitives::keccak256("f()").0[..4].to_vec());
                details.value.is_some()
            })
            .count();
        assert_eq!(sent > 0, payable);
    }
}

#[test]
fn chosen_functions_leave_out_transfers_and_fallbacks() {
    let mut target = CallTarget {
        address: Address::repeat_byte(1),
        functions: vec![function(vec![], StateMutability::NonPayable)],
        targeted: false,
        receive: true,
        fallback: Some(StateMutability::Payable),
    };
    let plain = vec![CallTarget { functions: vec![], ..target }];
    let calls = possible_calls(&plain);
    assert_eq!(calls.len(), 2);
    assert!(matches!(call_at(&plain, 1), (_, TargetCall::Fallback { payable: true })));
    assert!(matches!(calls[0].1, TargetCall::Receive));
    assert!(matches!(calls[1].1, TargetCall::Fallback { payable: true }));
    target = CallTarget {
        address: Address::repeat_byte(1),
        functions: vec![function(vec![], StateMutability::NonPayable)],
        targeted: true,
        receive: true,
        fallback: Some(StateMutability::Payable),
    };
    let calls = possible_calls(&vec![target]);
    assert_eq!(calls.len(), 1);
    assert!(matches!(&calls[0].1, TargetCall::Function(f) if f.name == "f"));
}

#[test]
fn delays_stay_below_the_largest() {
    assert_eq!(delay_for(None, word(U256::MAX)), None);
    assert_eq!(delay_for(Some(10), word(U256::from(123))), Some(word(U256::from(3))));
    assert_eq!(delay_for(Some(1), word(U256::MAX)), Some(word(U256::ZERO)));
}

fn config(dictionary_weight: u32, delay: Option<u32>) -> InvariantConfig {
    InvariantConfig {
        runs: 256,
        depth: 500,
        fail_on_revert: false,
        fail_on_assert: false,
        call_override: false,
        dictionary_weight,
        shrink_run_limit: 5000,
        max_assume_rejects: 65536,
        gas_report_samples: 256,
        max_time_delay: delay,
        max_block_delay: delay,
        check_interval: 1,
        show_metrics: true,
    }
}

#[test]
fn senders_come_from_the_targets_the_dictionary_or_chance() {
    let mut runner = TestRunner::deterministic();
    let mut rng = rng();
    let made_up = Address::repeat_byte(0x77);
    let known = Address::repeat_byte(0x55);
    let mut dict = FuzzDictionary::new();
    dict.values.push(known.into_word());
    let open = SenderFilters::new(vec![], vec![]);
    for _ in 0..20 {
        assert_eq!(select_random_sender(&dict, &open, 0, made_up, &mut runner, &mut rng), made_up);
        assert_eq!(select_random_sender(&dict, &open, 100, made_up, &mut runner, &mut rng), known);
    }
    let targeted = vec![Address::repeat_byte(1), Address::repeat_byte(2)];
    let closed = SenderFilters::new(targeted.clone(), vec![]);
    let mut seen = std::collections::HashSet::new();
    for _ in 0..100 {
        let sender = select_random_sender(&dict, &closed, 80, made_up, &mut runner, &mut rng);
        assert!(targeted.contains(&sender));
        seen.insert(sender.bytes);
    }
    assert_eq!(seen.len(), 2);
    let wary = SenderFilters::new(vec![], vec![known, made_up]);
    for _ in 0..20 {
        let sender = select_random_sender(&dict, &wary, 50, made_up, &mut runner, &mut rng);
        assert!(sender != known && sender != made_up && sender != Address::zero());
    }
}

#[test]
fn transactions_keep_to_the_configuration() {
    let mut runner = TestRunner::deterministic();
    let mut rng = rng();
    let senders = SenderFilters::new(vec![Address::repeat_byte(0x22)], vec![]);
    let func = function(vec![param("a", "uint8")], StateMutability::NonPayable);
    let mut make = |call: &TargetCall, delay: Option<u32>, value: Option<SolValue>| {
        let generated = GeneratedInputs {
            for_fixtures: value.clone().into_iter().collect(),
            for_state: value.into_iter().collect(),
        };
        invariant_strat(
            &FuzzDictionary::new(),
            &senders,
            &config(80, delay),
            &no_fixtures(),
            Address::repeat_byte(0x11),
            call,
            &generated,
            Address::repeat_byte(0x33),
            &mut runner,
            &mut rng,
        )
    };
    let call = TargetCall::Function(func);
    let tx = make(&call, Some(5), Some(SolValue::Uint(signed(4), 8))).unwrap();
    assert!(number(tx.warp.unwrap()) < U256::from(5));
    assert!(number(tx.roll.unwrap()) < U256::from(5));
    assert!(tx.deal.is_none());
    assert_eq!(tx.sender, Address::repeat_byte(0x22));
    assert_eq!(tx.call_details.calldata.len(), 36);
    assert_eq!(tx.call_details.calldata[35], 4);
    assert!(tx.call_details.value.is_none());
    assert!(make(&call, None, None).is_none());
    let plain = make(&TargetCall::Fallback { payable: false }, None, None).unwrap();
    assert!(plain.warp.is_none() && plain.roll.is_none());
    assert_eq!(plain.call_details.calldata, vec![0]);
    // Delays are drawn over their whole range.
    let mut delays = std::collections::HashSet::new();
    for _ in 0..200 {
        let tx = make(&TargetCall::Receive, Some(3), None).unwrap();
        delays.insert(tx.warp.unwrap().bytes[31]);
    }
    assert_eq!(delays.len(), 3);
}

#[test]
fn words_are_drawn_from_both_pools() {
    let dict = dictionary();
    let mut rng = rng();
    let mut seen = std::collections::HashSet::new();
    for _ in 0..100 {
        seen.insert(number(dict.sample_dict_word(WordType::Uint(8), &mut rng).unwrap()));
    }
    let mut seen: Vec<U256> = seen.into_iter().collect();
    seen.sort();
    assert_eq!(seen, vec![U256::from(1), U256::from(300), U256::from(513)]);
    assert!(FuzzDictionary::new().sample_dict_word(WordType::Bytes, &mut rng).is_none());
}

#[test]
fn shares_are_those_of_the_draws() {
    assert_eq!(literal_share(&SolType::String), (3, 10));
    assert_eq!(literal_share(&SolType::Bytes), (1, 10));
    assert_eq!(bytes_literal_share(), (2, 10));
    assert_eq!(typed_share(), (1, 2));
    assert_eq!(fixture_share(), (50, 100));

    // A string comes of a literal in three of ten cases, and bytes in one of ten.
    let dict = dictionary();
    let mut rng = rng();
    let strings = (0..1000).filter(|_| dict.sample(&SolType::String, &mut rng).is_some()).count();
    assert!(strings > 230 && strings < 370, "{strings} of 1000 strings");
    let (mut texts, mut literals) = (0, 0);
    for _ in 0..1000 {
        match dict.sample(&SolType::Bytes, &mut rng) {
            Some(SolValue::Bytes(b)) if b == b"one" || b == b"zwei" => texts += 1,
            Some(SolValue::Bytes(b)) if b == [9, 9] => literals += 1,
            Some(SolValue::Bytes(b)) => assert_eq!(b.len(), 32),
            other => panic!("unexpected {other:?}"),
        }
    }
    assert!(texts > 50 && texts < 160, "{texts} of 1000 bytes");
    assert!(literals > 110 && literals < 260, "{literals} of 1000 bytes");
}

#[test]
fn nothing_is_drawn_for_types_that_are_not_sampled() {
    let dict = dictionary();
    let mut rng = rng();
    let before = rng.clone();
    let array = SolType::FixedArray(Box::new(SolType::Address), 2);
    for ty in [SolType::Bool, SolType::Function, array, SolType::Tuple(vec![]), SolType::Uint(7)] {
        assert!(dict.sample(&ty, &mut rng).is_none());
        assert_eq!(rng, before);
    }
    assert!(dict.sample(&SolType::Address, &mut rng).is_some());
    assert_ne!(rng, before);
}

#[test]
fn values_for_the_dictionary_are_generated_alike() {
    let config = state_generator();
    assert_eq!(config.max_array_len, 256);
    assert_eq!(config.max_bytes_len, 32);
    assert!(matches!(config.signed, IntDistribution::Uniform));
    assert!(matches!(config.unsigned, IntDistribution::Uniform));
    assert_eq!(mutator_max_array_len(), 256);
}

#[test]
fn fixtures_are_taken_as_drawn() {
    let fixtures = vec![SolValue::Bool(true), SolValue::Bool(false), SolValue::Bool(true)];
    let strategy = fuzz_param_with_fixtures(&SolType::Bool, Some(&fixtures), "flag");
    assert_eq!(strategy.fixture_for(true, 2), Some(2));
    assert_eq!(strategy.fixture_for(false, 2), None);
    let empty = fuzz_param_with_fixtures(&SolType::Bool, Some(&vec![]), "flag");
    assert_eq!(empty.fixture_for(true, 0), None);
    assert_eq!(fuzz_param(&SolType::Bool).fixture_for(true, 0), None);

    let mut rng = rng();
    let drawn: Vec<Option<usize>> = (0..200).map(|_| strategy.draw_fixture(&mut rng)).collect();
    for place in [None, Some(0), Some(1), Some(2)] {
        assert!(drawn.contains(&place));
    }
    assert!((0..50).all(|_| empty.draw_fixture(&mut rng).is_none()));
}

#[test]
fn white_space_is_what_unicode_says() {
    for c in '\0'..=char::MAX {
        let padded = format!("{c}x{c}");
        match tidy(SolValue::String(padded.clone())) {
            SolValue::String(s) => {
                assert_eq!(s, padded.trim().trim_end_matches('\0'));
                let code = c as u32;
                let white = matches!(code,
                    0x9..=0xd | 0x20 | 0x85 | 0xa0 | 0x1680 | 0x2000..=0x200a | 0x2028 | 0x2029 | 0x202f | 0x205f | 0x3000);
                assert_eq!(s.starts_with('x') && c != 'x', white, "{code:x}");
            }
            other => panic!("unexpected {other:?}"),
        }
    }
}

#[test]
fn calls_follow_the_draws() {
    assert_eq!(calldata_weights(), (60, 40));
    let mut inner = OrderedMap::new();
    inner.insert("a".to_string(), SolValue::Array(vec![SolValue::Uint(signed(1), 8)]));
    let fixtures = FuzzFixtures::new(inner);
    assert!(fixtures.is_valid());
    let mut dict = FuzzDictionary::new();
    dict.values.push(signed(2));
    let generated = GeneratedInputs {
        for_fixtures: vec![SolValue::Uint(signed(3), 8)],
        for_state: vec![SolValue::Uint(signed(4), 8)],
    };
    let drawn = Some(signed(9));
    let target = Address::repeat_byte(3);
    let mut rng = rng();
    for (mutability, value) in [(StateMutability::Payable, drawn), (StateMutability::NonPayable, None)] {
        let func = function(vec![param("a", "uint8")], mutability);
        let mut seen = std::collections::HashSet::new();
        for _ in 0..50 {
            let call = contract_call_with(&dict, &fixtures, target, &func, &generated, true, drawn, &mut rng);
            assert_eq!(call.value, value);
            seen.insert(call.calldata[35]);
            // With the dictionary consulted, its word takes the place of the generated value.
            let call = contract_call_with(&dict, &fixtures, target, &func, &generated, false, drawn, &mut rng);
            assert_eq!(call.value, value);
            assert_eq!(call.calldata[35], 2);
        }
        let mut seen: Vec<u8> = seen.into_iter().collect();
        seen.sort();
        assert_eq!(seen, vec![1, 3]);
    }
    let mut details = |call: TargetCall, drawn: Option<Word>| {
        call_details_with(&dict, &fixtures, target, &call, &generated, true, drawn, &mut rng)
    };
    let transfer = details(TargetCall::Receive, drawn).unwrap();
    assert_eq!((transfer.target, transfer.calldata, transfer.value), (target, vec![], drawn));
    assert_eq!(details(TargetCall::Receive, None).unwrap().value, None);
    let fallback = details(TargetCall::Fallback { payable: true }, drawn).unwrap();
    assert_eq!((fallback.calldata, fallback.value), (vec![0], drawn));
    assert_eq!(details(TargetCall::Fallback { payable: false }, drawn).unwrap().value, None);
    let other = function(vec![], StateMutability::Payable);
    assert!(details(TargetCall::Function(other), drawn).is_none());
}

#[test]
fn senders_follow_the_draws() {
    assert_eq!(sender_weights(0), (100, 0));
    assert_eq!(sender_weights(80), (20, 80));
    let made_up = Address::repeat_byte(0x77);
    let known = Address::repeat_byte(0x55);
    let mut dict = FuzzDictionary::new();
    dict.values.push(known.into_word());
    let mut rng = rng();
    assert_eq!(sender_candidate(&dict, true, made_up, &mut rng), made_up);
    assert_eq!(sender_candidate(&dict, false, made_up, &mut rng), known);
    assert_eq!(sender_candidate(&FuzzDictionary::new(), false, made_up, &mut rng), made_up);
    let open = SenderFilters::new(vec![], vec![]);
    assert_eq!(sender_with(&dict, &open, true, 0, made_up, &mut rng), made_up);
    assert_eq!(sender_with(&dict, &open, false, 0, made_up, &mut rng), known);
    let closed = SenderFilters::new(vec![Address::repeat_byte(1), Address::repeat_byte(2)], vec![]);
    assert_eq!(sender_with(&dict, &closed, false, 1, made_up, &mut rng), Address::repeat_byte(2));
}
