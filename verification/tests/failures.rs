use invariant_fuzz::abi::{AbiFunction, StateMutability};
use invariant_fuzz::config::InvariantContract;
use invariant_fuzz::failure::{FailedInvariantCaseData, FailureKey, InvariantFailures, InvariantFuzzError};
use invariant_fuzz::fixed::Address;
use invariant_fuzz::tx::{BasicTxDetails, CallDetails};

fn function(name: &str) -> AbiFunction {
    AbiFunction {
        name: name.to_string(),
        inputs: vec![],
        state_mutability: StateMutability::View,
        reserved: true,
    }
}

fn contract() -> InvariantContract {
    InvariantContract {
        address: Address::repeat_byte(0xaa),
        invariant_fn: function("invariant_total"),
        invariant_fns: vec![],
        call_after_invariant: false,
        optimization: false,
    }
}

fn tx(byte: u8) -> BasicTxDetails {
    BasicTxDetails {
        warp: None,
        roll: None,
        deal: None,
        sender: Address::repeat_byte(byte),
        call_details: CallDetails { target: Address::repeat_byte(0x01), calldata: vec![byte], value: None },
    }
}

fn case(reason: &str) -> FailedInvariantCaseData {
    FailedInvariantCaseData::new(&contract(), 5000, true, false, &vec![tx(1), tx(2)], reason, &vec![None, Some(tx(3))])
}

#[test]
fn failure_keys_give_back_their_parts() {
    let key = FailureKey::new("Vault", "invariant_total");
    assert_eq!(key.as_str(), "Vault:invariant_total");
    assert_eq!(key.contract_name(), "Vault");
    assert_eq!(key.function_name(), "invariant_total");
    assert!(key.has_function("invariant_total"));
    assert!(!key.has_function("total"));
    assert!(!key.has_function("invariant_tota"));
}

#[test]
fn failure_keys_split_at_the_first_and_the_last_colon() {
    let key = FailureKey::new("src/Vault.sol:Vault", "f");
    assert_eq!(key.contract_name(), "src/Vault.sol");
    assert_eq!(key.function_name(), "f");
    assert!(key.has_function("f"));
    assert!(key.has_function("Vault:f"));

    let empty = FailureKey::new("", "");
    assert_eq!(empty.as_str(), ":");
    assert_eq!(empty.contract_name(), "");
    assert_eq!(empty.function_name(), "");
    assert!(empty.has_function(""));
}

#[test]
fn failure_keys_are_equal_by_their_text() {
    assert!(FailureKey::new("A", "b") == FailureKey::new("A", "b"));
    assert!(FailureKey::new("A", "b") != FailureKey::new("A", "c"));
    assert!(FailureKey::new("A:b", "c") == FailureKey::new("A", "b:c"));
    assert_eq!(FailureKey::new("A", "b").clone().into_string(), "A:b");
}

#[test]
fn case_data_names_the_invariant_and_holds_the_sequence() {
    let data = case("overflow");
    assert_eq!(data.test_error.reason, "invariant_total, reason: overflow");
    assert_eq!(data.test_error.sequence.len(), 2);
    assert_eq!(data.test_error.sequence[1].call_details.calldata, vec![2]);
    assert_eq!(data.return_reason, "");
    assert_eq!(data.revert_reason, "overflow");
    assert_eq!(data.addr, Address::repeat_byte(0xaa));
    assert_eq!(data.calldata, alloy_primitives::keccak256("invariant_total()").0[..4].to_vec());
    assert_eq!(data.inner_sequence.len(), 2);
    assert!(data.inner_sequence[0].is_none());
    assert_eq!(data.shrink_run_limit, 5000);
    assert!(data.fail_on_revert);
    assert!(!data.fail_on_assert);
}

#[test]
fn errors_have_a_kind_and_a_reason() {
    assert_eq!(InvariantFuzzError::BrokenInvariant(case("x")).failure_type(), "invariant");
    assert_eq!(InvariantFuzzError::BrokenAssertion(case("x")).failure_type(), "assertion");
    assert_eq!(InvariantFuzzError::Revert(case("x")).failure_type(), "revert");
    assert_eq!(InvariantFuzzError::MaxAssumeRejects(7).failure_type(), "assume_rejects");

    assert_eq!(InvariantFuzzError::Revert(case("x")).revert_reason(), Some("x".to_string()));
    assert_eq!(InvariantFuzzError::BrokenInvariant(case("")).revert_reason(), None);
    assert_eq!(InvariantFuzzError::BrokenAssertion(case("y")).revert_reason(), Some("y".to_string()));
    assert_eq!(
        InvariantFuzzError::MaxAssumeRejects(65536).revert_reason(),
        Some("`vm.assume` rejected too many inputs (65536 allowed)".to_string())
    );
    assert_eq!(
        InvariantFuzzError::MaxAssumeRejects(0).revert_reason(),
        Some("`vm.assume` rejected too many inputs (0 allowed)".to_string())
    );
}

#[test]
fn failures_under_one_key_count_once() {
    let mut failures = InvariantFailures::new();
    assert_eq!(failures.unique_failures(), 0);
    assert_eq!(failures.summary(), "\n      Failures: 0 (unique: 0)\n");

    failures.record_failure(FailureKey::new("A", "f"), InvariantFuzzError::MaxAssumeRejects(1));
    failures.record_failure(FailureKey::new("A", "f"), InvariantFuzzError::MaxAssumeRejects(2));
    failures.record_failure(FailureKey::new("A", "g"), InvariantFuzzError::MaxAssumeRejects(3));
    assert_eq!(failures.total_failures, 3);
    assert_eq!(failures.unique_failures(), 2);
    assert_eq!(failures.summary(), "\n      Failures: 3 (unique: 2)\n");

    let copy = failures.clone();
    let (reverts, errors) = copy.into_inner();
    assert_eq!(reverts, 0);
    // The later failure under a key takes the place of the earlier one.
    let error = errors.get(&"A:f".to_string()).unwrap();
    assert_eq!(error.revert_reason(), Some("`vm.assume` rejected too many inputs (2 allowed)".to_string()));
    assert!(errors.get(&"A:h".to_string()).is_none());
}
