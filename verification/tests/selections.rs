use invariant_fuzz::abi::{Abi, AbiFunction, AbiParam, StateMutability};
use invariant_fuzz::artifacts::{ArtifactAnswers, ArtifactChoice};
use invariant_fuzz::config::InvariantConfig;
use invariant_fuzz::executor::{InvariantExecutor, ProjectContract, SelectionError, SetupContract};
use invariant_fuzz::fixed::{Address, FixedBytes, Selector};
use invariant_fuzz::ordered::OrderedMap;
use invariant_fuzz::selection::{ChainConstants, ContractAnswers, FuzzInterface, FuzzSelector};
use invariant_fuzz::targets::{TargetedContract, TargetedContracts};

fn config() -> InvariantConfig {
    InvariantConfig {
        runs: 10,
        depth: 10,
        fail_on_revert: false,
        fail_on_assert: false,
        call_override: false,
        dictionary_weight: 80,
        shrink_run_limit: 5000,
        max_assume_rejects: 65536,
        gas_report_samples: 256,
        max_time_delay: None,
        max_block_delay: None,
        check_interval: 1,
        show_metrics: true,
    }
}

fn function(name: &str, state_mutability: StateMutability) -> AbiFunction {
    AbiFunction { name: name.to_string(), inputs: vec![], state_mutability, reserved: name.starts_with("invariant") }
}

fn abi(names: &[&str]) -> Abi {
    let mut abi = Abi::new();
    for name in names {
        let mutability =
            if name.starts_with("view") { StateMutability::View } else { StateMutability::NonPayable };
        abi.add_function(function(name, mutability));
    }
    abi
}

fn sel(name: &str) -> Selector {
    let hash = alloy_primitives::keccak256(format!("{name}()")).0;
    FixedBytes { bytes: [hash[0], hash[1], hash[2], hash[3]] }
}

fn addr(byte: u8) -> Address {
    Address::repeat_byte(byte)
}

fn project(name: &str, names: &[&str]) -> ProjectContract {
    ProjectContract {
        name: name.to_string(),
        identifier: format!("src/{name}.sol:{name}"),
        abi: abi(names),
        storage_layout: name == "B",
    }
}

fn executor() -> InvariantExecutor {
    let mut setup = OrderedMap::new();
    for (byte, name, names) in [
        (1, "A", &["deposit", "withdraw"][..]),
        (2, "B", &["mint"][..]),
        (9, "Test", &["view_total", "invariant_a", "bump", "reset"][..]),
        (0xcc, "Vm", &["warp"][..]),
    ] {
        let contract = SetupContract {
            identifier: format!("src/{name}.sol:{name}"),
            abi: abi(names),
            storage_layout: name == "B",
        };
        setup.insert(addr(byte), contract);
    }
    let contracts =
        vec![project("A", &["deposit", "withdraw"]), project("B", &["mint"]), project("Lens", &["view_all"])];
    InvariantExecutor::new(config(), setup, contracts, 1)
}

fn constants() -> ChainConstants {
    ChainConstants {
        cheatcode: addr(0xcc),
        console: addr(0xcd),
        create2_deployer: addr(0xce),
        precompiles: vec![addr(0xd1), addr(0xd2)],
    }
}

fn answers() -> ContractAnswers {
    ContractAnswers {
        targeted_senders: vec![],
        excluded_senders: vec![],
        selected: vec![],
        excluded: vec![],
        interfaces: vec![],
        targeted_selectors: vec![],
        excluded_selectors: vec![],
        admitted: ["A", "B", "Test", "Vm"].iter().map(|name| format!("src/{name}.sol:{name}")).collect(),
    }
}

const TEST: u8 = 9;

fn choice(name: &str, selectors: Vec<Selector>, place: Option<usize>) -> ArtifactChoice {
    ArtifactChoice { artifact: name.to_string(), selectors, found: Ok(place) }
}

fn no_artifacts() -> ArtifactAnswers {
    ArtifactAnswers { targeted_selectors: vec![], targeted: vec![], excluded: vec![] }
}

#[test]
fn artifacts_without_mutable_functions_are_excluded() {
    let mut executor = executor();
    executor.select_contract_artifacts(&no_artifacts()).unwrap();
    assert_eq!(executor.artifact_filters.excluded, vec!["src/Lens.sol:Lens"]);
    assert!(executor.artifact_filters.targeted.is_empty());
}

#[test]
fn chosen_selectors_come_before_exclusion_and_exclusion_before_targeting() {
    let mut executor = executor();
    let asked = ArtifactAnswers {
        targeted_selectors: vec![
            choice("A", vec![sel("deposit")], Some(0)),
            choice("A", vec![sel("withdraw")], Some(0)),
        ],
        targeted: vec![choice("A", vec![], Some(0)), choice("B", vec![], Some(1)), choice("Lens", vec![], Some(2))],
        excluded: vec![choice("A", vec![], Some(0)), choice("A", vec![], Some(0))],
    };
    executor.select_contract_artifacts(&asked).unwrap();
    let filters = &executor.artifact_filters;
    assert_eq!(filters.excluded, vec!["src/A.sol:A", "src/Lens.sol:Lens"]);
    assert_eq!(filters.targeted.len(), 2);
    assert_eq!(
        *filters.targeted.get(&"src/A.sol:A".to_string()).unwrap(),
        vec![sel("deposit"), sel("withdraw")]
    );
    assert!(filters.targeted.get(&"src/B.sol:B".to_string()).unwrap().is_empty());
}

#[test]
fn artifacts_that_are_not_valid_are_errors() {
    let select = |targeted_selectors, targeted, excluded| {
        let asked = ArtifactAnswers { targeted_selectors, targeted, excluded };
        executor().select_contract_artifacts(&asked).unwrap_err()
    };
    let error = select(vec![choice("A", vec![sel("deposit"), sel("burn")], Some(0))], vec![], vec![]);
    let hex: String = sel("burn").bytes.iter().map(|b| format!("{b:02x}")).collect();
    assert_eq!(error.message(), format!("A does not have the selector 0x{hex}"));
    let error = select(vec![], vec![choice("Nope", vec![], None)], vec![]);
    assert!(matches!(error, SelectionError::NotFound(_)));
    assert_eq!(
        error.message(),
        "Nope not found in the project. Allowed format: `contract_name` or `contract_path:contract_name`."
    );
    let twice = ArtifactChoice {
        artifact: "A".to_string(),
        selectors: vec![],
        found: Err("A has more than one implementation.".to_string()),
    };
    let error = select(vec![], vec![], vec![twice]);
    assert!(matches!(error, SelectionError::Lookup(_)));
    assert_eq!(error.message(), "A has more than one implementation.");
}

fn targets(answers: &ContractAnswers) -> TargetedContracts {
    let (_, contracts) = executor().select_contracts_and_senders(addr(TEST), answers, &constants()).unwrap();
    contracts.targets
}

#[test]
fn deployed_contracts_are_called_but_not_the_test_contract() {
    let (senders, contracts) =
        executor().select_contracts_and_senders(addr(TEST), &answers(), &constants()).unwrap();
    assert_eq!(contracts.targets.addresses(), vec![addr(1), addr(2)]);
    assert!(contracts.is_updatable);
    assert!(contracts.targets.get(&addr(2)).unwrap().storage_layout);
    assert!(senders.targeted.is_empty());
    assert_eq!(
        senders.excluded,
        vec![addr(0xcc), addr(0xcd), addr(0xce), addr(0xd1), addr(0xd2), Address::zero()]
    );
}

#[test]
fn named_and_excluded_contracts_are_respected() {
    let mut asked = answers();
    asked.selected = vec![addr(1), addr(TEST)];
    asked.excluded = vec![addr(1), addr(TEST)];
    // The test contract is called because it names itself, and contract 1 is excluded.
    assert_eq!(targets(&asked).addresses(), vec![addr(TEST)]);
    let (_, contracts) = executor().select_contracts_and_senders(addr(TEST), &asked, &constants()).unwrap();
    assert!(!contracts.is_updatable);

    let mut asked = answers();
    asked.admitted = vec!["src/B.sol:B".to_string()];
    assert_eq!(targets(&asked).addresses(), vec![addr(2)]);

    let mut asked = answers();
    asked.admitted = vec![];
    let error = executor().select_contracts_and_senders(addr(TEST), &asked, &constants()).err().unwrap();
    assert!(matches!(error, SelectionError::NoContracts));
}

#[test]
fn the_test_contract_is_called_by_its_mutable_functions() {
    let mut asked = answers();
    asked.selected = vec![addr(TEST)];
    let chosen = |asked: &ContractAnswers| targets(asked).get(&addr(TEST)).unwrap().targeted_functions.clone();
    assert_eq!(chosen(&asked), vec![sel("bump"), sel("reset")]);

    asked.excluded_selectors = vec![FuzzSelector { addr: addr(TEST), selectors: vec![sel("bump")] }];
    assert_eq!(chosen(&asked), vec![sel("reset")]);
    assert_eq!(targets(&asked).get(&addr(TEST)).unwrap().excluded_functions, vec![sel("bump")]);

    asked.targeted_selectors = vec![FuzzSelector { addr: addr(TEST), selectors: vec![sel("view_total")] }];
    assert_eq!(chosen(&asked), vec![sel("view_total")]);
}

#[test]
fn chosen_selectors_make_a_contract_a_target() {
    let mut asked = answers();
    asked.selected = vec![addr(2)];
    asked.targeted_selectors = vec![
        FuzzSelector { addr: addr(1), selectors: vec![sel("deposit")] },
        FuzzSelector { addr: addr(1), selectors: vec![sel("withdraw")] },
        FuzzSelector { addr: addr(0x55), selectors: vec![] },
    ];
    let contracts = targets(&asked);
    assert_eq!(contracts.addresses(), vec![addr(1), addr(2)]);
    assert_eq!(contracts.get(&addr(1)).unwrap().targeted_functions, vec![sel("deposit"), sel("withdraw")]);
    assert!(contracts.get(&addr(2)).unwrap().targeted_functions.is_empty());
}

#[test]
fn selectors_of_artifacts_are_chosen_for_their_contracts() {
    let mut executor = executor();
    let asked = ArtifactAnswers {
        targeted_selectors: vec![choice("A", vec![sel("withdraw")], Some(0))],
        targeted: vec![],
        excluded: vec![],
    };
    executor.select_contract_artifacts(&asked).unwrap();
    let (_, contracts) =
        executor.select_contracts_and_senders(addr(TEST), &answers(), &constants()).unwrap();
    assert_eq!(contracts.targets.get(&addr(1)).unwrap().targeted_functions, vec![sel("withdraw")]);
}

#[test]
fn selectors_that_are_not_valid_are_errors() {
    let select = |chosen: Vec<FuzzSelector>, excluded: Vec<FuzzSelector>| {
        let mut asked = answers();
        asked.targeted_selectors = chosen;
        asked.excluded_selectors = excluded;
        executor().select_contracts_and_senders(addr(TEST), &asked, &constants()).err().unwrap()
    };
    let unknown = || vec![FuzzSelector { addr: addr(0x55), selectors: vec![sel("f")] }];
    let address = alloy_primitives::Address::repeat_byte(0x55);
    assert_eq!(
        select(unknown(), vec![]).message(),
        format!("[targetSelectors] address does not have an associated contract: {address}")
    );
    assert_eq!(
        select(vec![], unknown()).message(),
        format!("[excludeSelectors] address does not have an associated contract: {address}")
    );
    let error = select(vec![FuzzSelector { addr: addr(1), selectors: vec![sel("deposit"), sel("mint")] }], vec![]);
    match error {
        SelectionError::UnknownFunction { identifier, selector } => {
            assert_eq!(identifier, "src/A.sol:A");
            assert_eq!(selector, sel("mint"));
        }
        other => panic!("unexpected {other:?}"),
    }
}

#[test]
fn addresses_are_shown_with_their_checksum() {
    let bytes = alloy_primitives::hex::decode("5aAeb6053F3E94C9b9A09f33669435E7Ef1BeAed").unwrap();
    let error = SelectionError::NoContract {
        address: FixedBytes { bytes: bytes.try_into().unwrap() },
        should_exclude: false,
    };
    assert_eq!(
        error.message(),
        "[targetSelectors] address does not have an associated contract: 0x5aAeb6053F3E94C9b9A09f33669435E7Ef1BeAed"
    );
}

fn with_interfaces(interfaces: Vec<FuzzInterface>) -> TargetedContracts {
    let mut contracts = TargetedContracts::new();
    contracts.insert(addr(1), TargetedContract::new("old".to_string(), abi(&["old"])));
    executor().target_interfaces(&interfaces, &mut contracts);
    contracts
}

fn interface(byte: u8, artifacts: &[&str]) -> FuzzInterface {
    FuzzInterface { addr: addr(byte), artifacts: artifacts.iter().map(|s| s.to_string()).collect() }
}

fn names(contracts: &TargetedContracts, byte: u8) -> Vec<String> {
    contracts.get(&addr(byte)).unwrap().abi.all_functions().iter().map(|f| f.name.clone()).collect()
}

#[test]
fn interfaces_of_one_address_are_merged() {
    let joined = with_interfaces(vec![interface(7, &["A", "B"])]);
    let apart = with_interfaces(vec![interface(7, &["A"]), interface(7, &["src/B.sol:B"])]);
    for contracts in [&joined, &apart] {
        assert_eq!(contracts.addresses(), vec![addr(1), addr(7)]);
        assert_eq!(names(contracts, 7), vec!["deposit", "mint", "withdraw"]);
        assert_eq!(contracts.get(&addr(7)).unwrap().identifier, "A");
        assert!(!contracts.get(&addr(7)).unwrap().storage_layout);
    }
}

#[test]
fn interfaces_take_the_place_of_targets() {
    let contracts = with_interfaces(vec![interface(1, &["Unknown", "B"])]);
    assert_eq!(names(&contracts, 1), vec!["mint"]);
    assert_eq!(contracts.get(&addr(1)).unwrap().identifier, "B");
    assert!(contracts.get(&addr(1)).unwrap().storage_layout);
    let untouched = with_interfaces(vec![interface(1, &["Unknown"])]);
    assert_eq!(names(&untouched, 1), vec!["old"]);
}

fn overload(name: &str, ty: &str) -> AbiFunction {
    AbiFunction {
        name: name.to_string(),
        inputs: vec![AbiParam { name: "x".to_string(), selector_type: ty.to_string() }],
        state_mutability: StateMutability::NonPayable,
        reserved: false,
    }
}

#[test]
fn functions_of_one_name_are_joined_when_interfaces_merge() {
    let mut first = Abi::new();
    first.add_function(overload("foo", "uint256"));
    first.add_function(overload("bar", "bool"));
    let mut second = Abi::new();
    second.add_function(overload("foo", "address"));
    second.add_function(overload("foo", "uint256"));
    second.add_function(overload("qux", "bool"));
    first.extend(&second);
    let all = first.all_functions();
    let found: Vec<String> = all.iter().map(|f| format!("{}({})", f.name, f.inputs[0].selector_type)).collect();
    assert_eq!(found, vec!["bar(bool)", "foo(uint256)", "foo(address)", "qux(bool)"]);
}

#[test]
fn overloads_of_two_interfaces_are_both_called() {
    let interface_contract = |name: &str, ty: &str| {
        let mut contract = project(name, &[]);
        contract.abi.add_function(overload("foo", ty));
        contract
    };
    let contracts = vec![interface_contract("I", "uint256"), interface_contract("J", "address")];
    let executor = InvariantExecutor::new(config(), OrderedMap::new(), contracts, 1);
    for interfaces in [vec![interface(7, &["I", "J"])], vec![interface(7, &["I"]), interface(7, &["J"])]] {
        let mut targets = TargetedContracts::new();
        executor.target_interfaces(&interfaces, &mut targets);
        let abi = &targets.get(&addr(7)).unwrap().abi;
        assert!(abi.has_selector(overload("foo", "uint256").selector()));
        assert!(abi.has_selector(overload("foo", "address").selector()));
        assert_eq!(abi.all_functions().len(), 2);
    }
}

#[test]
fn all_entries_for_the_test_contract_count() {
    let mut asked = answers();
    asked.selected = vec![addr(TEST)];
    let chosen = |asked: &ContractAnswers| targets(asked).get(&addr(TEST)).unwrap().targeted_functions.clone();
    let entry = |name: &str| FuzzSelector { addr: addr(TEST), selectors: vec![sel(name)] };
    asked.excluded_selectors = vec![entry("bump"), FuzzSelector { addr: addr(1), selectors: vec![] }, entry("view_total")];
    assert_eq!(chosen(&asked), vec![sel("reset")]);

    // A function is chosen by the first entry, so the default does not apply.
    asked.excluded_selectors = vec![];
    asked.targeted_selectors = vec![entry("bump"), FuzzSelector { addr: addr(TEST), selectors: vec![] }];
    assert_eq!(chosen(&asked), vec![sel("bump")]);
}

#[test]
fn what_the_host_hands_over_can_be_tested() {
    let mut executor = executor();
    assert!(executor.is_valid());
    let asked = |found| ArtifactAnswers {
        targeted_selectors: vec![],
        targeted: vec![choice("A", vec![], found)],
        excluded: vec![],
    };
    assert!(asked(Some(2)).is_valid(3));
    assert!(asked(None).is_valid(0));
    assert!(!asked(Some(3)).is_valid(3));
    let with_selectors =
        ArtifactAnswers { targeted_selectors: vec![], targeted: vec![], excluded: vec![choice("A", vec![sel("f")], None)] };
    assert!(!with_selectors.is_valid(3));
    executor.setup_contracts.entries.swap(0, 1);
    assert!(!executor.is_valid());
    executor.setup_contracts.entries.swap(0, 1);
    executor.project_contracts[0].abi.functions.entries.swap(0, 1);
    assert!(!executor.is_valid());
    assert!(!executor.project_contracts[0].abi.is_valid());
}
