//! Which contracts, functions and senders a campaign uses.

use vstd::prelude::*;
use vstd::string::*;

use crate::abi::{
    any_group_has_selector, function_models, merging_loses_no_selector, texts, AbiFunctionView, AbiView, StateMutability,
};
use crate::executor::{
    error_of, setup_models, InvariantExecutor, ProjectView, SelectionError, SelectionErrorView, SetupContract, SetupView,
};
use crate::filters::{
    clone_addresses, clone_selectors, contains_address, contains_selector, contains_text, has_zero_address,
    is_zero_address, with_zero_address, SenderFilters,
};
use crate::fixed::{Address, Selector};
use crate::ordered::{
    entry_keys, key_order, key_order_holds_every_key_once, map_of, map_of_next, sorted_entries_follow_key_order,
    sorted_entries_count, sorted_entry_is_mapped, sorted_prefix,
};
use crate::targets::{
    added_selectors_join_those_before, known_prefix, known_prefix_is_the_longest, FuzzRunIdentifiedContracts, TargetView,
    TargetedContract, TargetedContracts,
};
use crate::text::same_text;

verus! {

/// Functions of a contract, chosen or excluded.
pub struct SelectorRequest {
    pub address: Address,
    pub selectors: Vec<Selector>,
    pub should_exclude: bool,
}

/// The model of a [`SelectorRequest`].
pub struct RequestView {
    pub address: Address,
    pub selectors: Seq<Selector>,
    pub should_exclude: bool,
}

impl View for SelectorRequest {
    type V = RequestView;

    open spec fn view(&self) -> RequestView {
        RequestView { address: self.address, selectors: self.selectors@, should_exclude: self.should_exclude }
    }
}

/// The models of requests.
pub open spec fn request_models(requests: Seq<SelectorRequest>) -> Seq<RequestView> {
    Seq::new(requests.len(), |i: int| requests[i]@)
}

/// A deployed contract as a target of which no function is chosen or excluded.
pub open spec fn plain_target(contract: SetupView) -> TargetView {
    TargetView::plain(contract.identifier, contract.abi, contract.storage_layout)
}

/// The targets after a request. One without selectors changes nothing. A contract that is no target
/// yet becomes one, if it was deployed.
pub open spec fn with_request(
    setup: Map<Address, SetupView>,
    targets: Map<Address, TargetView>,
    request: RequestView,
) -> (Map<Address, TargetView>, Option<SelectionErrorView>) {
    let address = request.address;
    if request.selectors.len() == 0 {
        (targets, None)
    } else if !targets.dom().contains(address) && !setup.dom().contains(address) {
        (targets, Some(SelectionErrorView::NoContract { address, should_exclude: request.should_exclude }))
    } else {
        let target = if targets.dom().contains(address) {
            targets[address]
        } else {
            plain_target(setup[address])
        };
        let known = known_prefix(target.abi, request.selectors);
        let after = targets.insert(
            address,
            target.with_selectors(request.selectors.take(known as int), request.should_exclude),
        );
        if known == request.selectors.len() {
            (after, None)
        } else {
            (
                after,
                Some(
                    SelectionErrorView::UnknownFunction {
                        identifier: target.identifier,
                        selector: request.selectors[known as int],
                    },
                ),
            )
        }
    }
}

/// The targets after the first `n` requests, up to the first that fails.
pub open spec fn with_requests(
    setup: Map<Address, SetupView>,
    targets: Map<Address, TargetView>,
    requests: Seq<RequestView>,
    n: nat,
) -> (Map<Address, TargetView>, Option<SelectionErrorView>)
    decreases n,
{
    if n == 0 {
        (targets, None)
    } else {
        let (before, error) = with_requests(setup, targets, requests, (n - 1) as nat);
        if error is Some {
            (before, error)
        } else {
            with_request(setup, before, requests[n - 1])
        }
    }
}

/// After a failed request no request has an effect.
proof fn failure_stays(
    setup: Map<Address, SetupView>,
    targets: Map<Address, TargetView>,
    requests: Seq<RequestView>,
    n: nat,
    m: nat,
)
    requires
        n <= m,
        with_requests(setup, targets, requests, n).1 is Some,
    ensures
        with_requests(setup, targets, requests, m) == with_requests(setup, targets, requests, n),
    decreases m,
{
    if n < m {
        failure_stays(setup, targets, requests, n, (m - 1) as nat);
    }
}

/// Functions that the test contract names, of the contract at an address.
pub struct FuzzSelector {
    pub addr: Address,
    pub selectors: Vec<Selector>,
}

/// Interfaces that the test contract names, of the contract at an address.
pub struct FuzzInterface {
    pub addr: Address,
    pub artifacts: Vec<String>,
}

/// Requests for the selectors chosen for artifacts, for the deployed contracts at `addresses`.
pub open spec fn artifact_requests(
    setup: Map<Address, SetupView>,
    targeted: Map<Seq<char>, Seq<Selector>>,
    addresses: Seq<Address>,
) -> Seq<RequestView>
    decreases addresses.len(),
{
    if addresses.len() == 0 {
        Seq::empty()
    } else {
        let front = artifact_requests(setup, targeted, addresses.drop_last());
        let address = addresses.last();
        let identifier = setup[address].identifier;
        if targeted.dom().contains(identifier) {
            front.push(RequestView { address, selectors: targeted[identifier], should_exclude: false })
        } else {
            front
        }
    }
}

/// Requests for what the test contract names.
pub open spec fn named_requests(named: Seq<FuzzSelector>, should_exclude: bool) -> Seq<RequestView> {
    Seq::new(
        named.len(),
        |i: int| RequestView { address: named[i].addr, selectors: named[i].selectors@, should_exclude },
    )
}

/// All selectors that the test contract names for `address`.
pub open spec fn all_named(named: Seq<FuzzSelector>, address: Address) -> Seq<Selector>
    decreases named.len(),
{
    if named.len() == 0 {
        Seq::empty()
    } else if named.last().addr == address {
        all_named(named.drop_last(), address) + named.last().selectors@
    } else {
        all_named(named.drop_last(), address)
    }
}

/// What is named for an address is what any of its entries names.
pub proof fn every_entry_is_named(named: Seq<FuzzSelector>, address: Address, selector: Selector)
    ensures
        all_named(named, address).contains(selector) <==> exists|i: int|
            0 <= i < named.len() && (#[trigger] named[i]).addr == address && named[i].selectors@.contains(selector),
    decreases named.len(),
{
    if named.len() > 0 {
        let front = named.drop_last();
        let last = named[named.len() - 1];
        let before = all_named(front, address);
        let all = all_named(named, address);
        every_entry_is_named(front, address, selector);
        if all.contains(selector) {
            let k = all.index_of(selector);
            if k < before.len() {
                assert(before[k] == selector);
                let i = choose|i: int|
                    0 <= i < front.len() && (#[trigger] front[i]).addr == address && front[i].selectors@.contains(selector);
                assert(named[i] == front[i]);
            } else {
                assert(last.selectors@[k - before.len()] == selector);
            }
        }
        if exists|i: int|
            0 <= i < named.len() && (#[trigger] named[i]).addr == address && named[i].selectors@.contains(selector) {
            let i = choose|i: int|
                0 <= i < named.len() && (#[trigger] named[i]).addr == address && named[i].selectors@.contains(selector);
            if i < front.len() {
                assert(front[i] == named[i]);
                let k = before.index_of(selector);
                assert(all[k] == selector);
            } else {
                let k = last.selectors@.index_of(selector);
                assert(all[before.len() + k] == selector);
            }
        }
    }
}

/// Whether a function of the test contract is called where none is chosen: it may change state, it
/// is not reserved, and it is not excluded.
pub open spec fn called_by_default(function: AbiFunctionView, excluded: Seq<Selector>) -> bool {
    &&& function.state_mutability.changes_state()
    &&& !function.reserved
    &&& !excluded.contains(function.selector())
}

/// The selectors of the functions that are called where none is chosen.
pub open spec fn default_selectors(functions: Seq<AbiFunctionView>, excluded: Seq<Selector>) -> Seq<Selector>
    decreases functions.len(),
{
    if functions.len() == 0 {
        Seq::empty()
    } else {
        let front = default_selectors(functions.drop_last(), excluded);
        if called_by_default(functions.last(), excluded) {
            front.push(functions.last().selector())
        } else {
            front
        }
    }
}

/// Where no function of the test contract is chosen, exactly those are called that may change
/// state, are not reserved and are not excluded.
pub proof fn default_selection_is_exact(functions: Seq<AbiFunctionView>, excluded: Seq<Selector>)
    ensures
        forall|i: int|
            0 <= i < functions.len() && called_by_default(#[trigger] functions[i], excluded) ==> default_selectors(
                functions,
                excluded,
            ).contains(functions[i].selector()),
        forall|selector: Selector| #[trigger]
            default_selectors(functions, excluded).contains(selector) ==> exists|i: int|
                0 <= i < functions.len() && called_by_default(#[trigger] functions[i], excluded)
                    && functions[i].selector() == selector,
    decreases functions.len(),
{
    if functions.len() > 0 {
        let front = functions.drop_last();
        let all = default_selectors(functions, excluded);
        let before = default_selectors(front, excluded);
        default_selection_is_exact(front, excluded);
        assert forall|i: int|
            0 <= i < functions.len() && called_by_default(#[trigger] functions[i], excluded) implies all.contains(
            functions[i].selector(),
        ) by {
            if i < front.len() {
                assert(front[i] == functions[i]);
                assert(before.contains(functions[i].selector()));
                let k = before.index_of(functions[i].selector());
                assert(all[k] == functions[i].selector());
            } else {
                assert(all[before.len() as int] == functions[i].selector());
            }
        }
        assert forall|selector: Selector| #[trigger] all.contains(selector) implies exists|i: int|
            0 <= i < functions.len() && called_by_default(#[trigger] functions[i], excluded) && functions[i].selector()
                == selector by {
            let k = all.index_of(selector);
            if k < before.len() {
                assert(before[k] == selector);
                assert(before.contains(selector));
                let i = choose|i: int|
                    0 <= i < front.len() && called_by_default(#[trigger] front[i], excluded) && front[i].selector()
                        == selector;
                assert(functions[i] == front[i]);
            } else {
                assert(called_by_default(functions[functions.len() - 1], excluded));
            }
        }
    }
}

/// The targets after the functions to call were chosen: first for artifacts, then as the test
/// contract names them, chosen ones before excluded ones. Where the test contract is a target and
/// no entry chooses a function of it, those are that are called by default.
pub open spec fn selected_functions(
    setup: Map<Address, SetupView>,
    targeted: Map<Seq<char>, Seq<Selector>>,
    targets: Map<Address, TargetView>,
    address: Address,
    chosen: Seq<FuzzSelector>,
    excluded: Seq<FuzzSelector>,
) -> (Map<Address, TargetView>, Option<SelectionErrorView>) {
    let requests = artifact_requests(setup, targeted, key_order::<Address>(setup.dom())) + named_requests(
        chosen,
        false,
    ) + named_requests(excluded, true);
    let (named, error) = with_requests(setup, targets, requests, requests.len());
    if error is Some {
        (named, error)
    } else if all_named(chosen, address).len() == 0 && named.dom().contains(address) {
        with_request(
            setup,
            named,
            RequestView {
                address,
                selectors: default_selectors(named[address].abi.all_functions(), all_named(excluded, address)),
                should_exclude: false,
            },
        )
    } else {
        (named, None)
    }
}

/// Requests that choose no function of the contract at `address`.
pub open spec fn choose_nothing_of(requests: Seq<RequestView>, address: Address) -> bool {
    forall|i: int|
        0 <= i < requests.len() && (#[trigger] requests[i]).address == address && !requests[i].should_exclude
            ==> requests[i].selectors.len() == 0
}

/// Requests that choose no function of a target leave it without chosen functions, and keep its
/// interface.
proof fn nothing_is_chosen(
    setup: Map<Address, SetupView>,
    targets: Map<Address, TargetView>,
    requests: Seq<RequestView>,
    address: Address,
    n: nat,
)
    requires
        n <= requests.len(),
        choose_nothing_of(requests, address),
        targets.dom().contains(address),
        targets[address].targeted_functions.len() == 0,
    ensures
        ({
            let after = with_requests(setup, targets, requests, n).0;
            &&& after.dom().contains(address)
            &&& after[address].targeted_functions.len() == 0
            &&& after[address].abi == targets[address].abi
        }),
    decreases n,
{
    if n > 0 {
        nothing_is_chosen(setup, targets, requests, address, (n - 1) as nat);
        let request = requests[n - 1];
        assert(request.address == address && !request.should_exclude ==> request.selectors.len() == 0);
    }
}

/// Entries for an address that name nothing choose nothing.
proof fn empty_entries_choose_nothing(named: Seq<FuzzSelector>, address: Address)
    requires
        all_named(named, address).len() == 0,
    ensures
        choose_nothing_of(named_requests(named, false), address),
    decreases named.len(),
{
    if named.len() > 0 {
        let front = named.drop_last();
        empty_entries_choose_nothing(front, address);
        let requests = named_requests(named, false);
        assert forall|i: int|
            0 <= i < requests.len() && (#[trigger] requests[i]).address == address
                && !requests[i].should_exclude implies requests[i].selectors.len() == 0 by {
            if i < front.len() {
                assert(named_requests(front, false)[i] == requests[i]);
            }
        }
    }
}

/// Where an interface has a function for each selector, all of them are known.
proof fn selectors_are_known(abi: AbiView, selectors: Seq<Selector>)
    requires
        forall|i: int| 0 <= i < selectors.len() ==> abi.has_selector(#[trigger] selectors[i]),
    ensures
        known_prefix(abi, selectors) == selectors.len(),
    decreases selectors.len(),
{
    if selectors.len() > 0 {
        let front = selectors.drop_last();
        assert forall|i: int| 0 <= i < front.len() implies abi.has_selector(#[trigger] front[i]) by {
            assert(front[i] == selectors[i]);
        }
        selectors_are_known(abi, front);
        assert(abi.has_selector(selectors[selectors.len() - 1]));
    }
}

/// Where the test contract is a target of which nothing is chosen, neither by an entry of
/// `targetSelectors` nor for its artifact, exactly those of its functions are called that may change
/// state, are not reserved, and that no entry of `excludeSelectors` names.
pub proof fn the_test_contract_is_called_by_default(
    setup: Map<Address, SetupView>,
    targeted: Map<Seq<char>, Seq<Selector>>,
    targets: Map<Address, TargetView>,
    address: Address,
    chosen: Seq<FuzzSelector>,
    excluded: Seq<FuzzSelector>,
    selector: Selector,
)
    requires
        targets.dom().contains(address),
        targets[address].targeted_functions.len() == 0,
        choose_nothing_of(artifact_requests(setup, targeted, key_order::<Address>(setup.dom())), address),
        all_named(chosen, address).len() == 0,
        selected_functions(setup, targeted, targets, address, chosen, excluded).1 is None,
    ensures
        ({
            let after = selected_functions(setup, targeted, targets, address, chosen, excluded).0;
            let functions = targets[address].abi.all_functions();
            &&& after.dom().contains(address)
            &&& after[address].abi == targets[address].abi
            &&& after[address].targeted_functions == default_selectors(functions, all_named(excluded, address))
            &&& after[address].targeted_functions.contains(selector) <==> exists|i: int|
                {
                    &&& 0 <= i < functions.len()
                    &&& (#[trigger] functions[i]).selector() == selector
                    &&& functions[i].state_mutability.changes_state()
                    &&& !functions[i].reserved
                    &&& forall|j: int|
                        0 <= j < excluded.len() && (#[trigger] excluded[j]).addr == address
                            ==> !excluded[j].selectors@.contains(selector)
                }
        }),
{
    let r1 = artifact_requests(setup, targeted, key_order::<Address>(setup.dom()));
    let r2 = named_requests(chosen, false);
    let r3 = named_requests(excluded, true);
    let requests = r1 + r2 + r3;
    empty_entries_choose_nothing(chosen, address);
    assert(choose_nothing_of(requests, address)) by {
        assert forall|i: int|
            0 <= i < requests.len() && (#[trigger] requests[i]).address == address
                && !requests[i].should_exclude implies requests[i].selectors.len() == 0 by {
            if i < r1.len() {
                assert(r1[i] == requests[i]);
            } else if i < r1.len() + r2.len() {
                assert(r2[i - r1.len()] == requests[i]);
            } else {
                assert(r3[i - r1.len() - r2.len()] == requests[i]);
            }
        }
    }
    nothing_is_chosen(setup, targets, requests, address, requests.len());
    let named = with_requests(setup, targets, requests, requests.len()).0;
    let functions = targets[address].abi.all_functions();
    let left_out = all_named(excluded, address);
    let selectors = default_selectors(functions, left_out);
    default_selection_is_exact(functions, left_out);
    assert forall|i: int| 0 <= i < selectors.len() implies targets[address].abi.has_selector(
        #[trigger] selectors[i],
    ) by {
        assert(selectors.contains(selectors[i]));
        let k = choose|k: int|
            0 <= k < functions.len() && called_by_default(#[trigger] functions[k], left_out) && functions[k].selector()
                == selectors[i];
        assert(functions[k].selector() == selectors[i]);
    }
    selectors_are_known(targets[address].abi, selectors);
    assert(selectors.take(selectors.len() as int) =~= selectors);
    assert(named[address].targeted_functions + selectors =~= selectors);
    assert(named[address].targeted_functions =~= Seq::empty());
    every_entry_is_named(excluded, address, selector);
    let after = selected_functions(setup, targeted, targets, address, chosen, excluded).0;
    assert(after[address].targeted_functions =~= selectors);
    if selectors.contains(selector) {
        let i = choose|i: int|
            0 <= i < functions.len() && called_by_default(#[trigger] functions[i], left_out) && functions[i].selector()
                == selector;
        assert(functions[i].selector() == selector);
    }
}

/// The first contract of the project with this name or identifier.
pub open spec fn find_artifact(project: Seq<ProjectView>, identifier: Seq<char>) -> Option<ProjectView>
    decreases project.len(),
{
    if project.len() == 0 {
        None
    } else {
        match find_artifact(project.drop_last(), identifier) {
            Some(contract) => Some(contract),
            None => if project.last().name == identifier || project.last().identifier == identifier {
                Some(project.last())
            } else {
                None
            },
        }
    }
}

/// The targets with an interface of the project at an address. Its functions are added to those
/// that are there.
pub open spec fn with_interface(
    project: Seq<ProjectView>,
    targets: Map<Address, TargetView>,
    address: Address,
    identifier: Seq<char>,
) -> Map<Address, TargetView> {
    match find_artifact(project, identifier) {
        Some(contract) => targets.insert(
            address,
            if targets.dom().contains(address) {
                TargetView { abi: targets[address].abi.extended(contract.abi), ..targets[address] }
            } else {
                TargetView::plain(identifier, contract.abi, contract.storage_layout)
            },
        ),
        None => targets,
    }
}

/// The addresses and interfaces that the test contract names.
pub open spec fn interface_models(interfaces: Seq<FuzzInterface>) -> Seq<(Address, Seq<Seq<char>>)> {
    Seq::new(interfaces.len(), |i: int| (interfaces[i].addr, texts(interfaces[i].artifacts@)))
}

/// Each of `identifiers`, with `address`.
pub open spec fn pairs_of(address: Address, identifiers: Seq<Seq<char>>) -> Seq<(Address, Seq<char>)> {
    Seq::new(identifiers.len(), |i: int| (address, identifiers[i]))
}

/// The addresses and interfaces, one interface at a time.
pub open spec fn interface_pairs(interfaces: Seq<(Address, Seq<Seq<char>>)>) -> Seq<(Address, Seq<char>)>
    decreases interfaces.len(),
{
    if interfaces.len() == 0 {
        Seq::empty()
    } else {
        interface_pairs(interfaces.drop_last()) + pairs_of(interfaces.last().0, interfaces.last().1)
    }
}

/// The targets that the interfaces make up.
pub open spec fn combined_interfaces(
    project: Seq<ProjectView>,
    pairs: Seq<(Address, Seq<char>)>,
) -> Map<Address, TargetView>
    decreases pairs.len(),
{
    if pairs.len() == 0 {
        Map::empty()
    } else {
        with_interface(project, combined_interfaces(project, pairs.drop_last()), pairs.last().0, pairs.last().1)
    }
}

/// The targets with the interfaces that the test contract names, which take the place of targets at
/// the same addresses.
pub open spec fn with_interfaces(
    project: Seq<ProjectView>,
    targets: Map<Address, TargetView>,
    interfaces: Seq<(Address, Seq<Seq<char>>)>,
) -> Map<Address, TargetView> {
    targets.union_prefer_right(combined_interfaces(project, interface_pairs(interfaces)))
}

/// To name two lists of interfaces for one address, one behind the other, is to name them as one
/// list.
pub proof fn interfaces_of_one_address_merge(
    project: Seq<ProjectView>,
    targets: Map<Address, TargetView>,
    before: Seq<(Address, Seq<Seq<char>>)>,
    after: Seq<(Address, Seq<Seq<char>>)>,
    address: Address,
    first: Seq<Seq<char>>,
    second: Seq<Seq<char>>,
)
    ensures
        with_interfaces(project, targets, before.push((address, first)).push((address, second)) + after)
            == with_interfaces(project, targets, before.push((address, first + second)) + after),
{
    let apart = before.push((address, first)).push((address, second));
    let joined = before.push((address, first + second));
    assert(apart.drop_last() =~= before.push((address, first)));
    assert(apart.drop_last().drop_last() =~= before);
    assert(joined.drop_last() =~= before);
    assert(interface_pairs(apart) =~= interface_pairs(joined)) by {
        assert(pairs_of(address, first + second) =~= pairs_of(address, first) + pairs_of(address, second));
        assert(interface_pairs(apart.drop_last()) == interface_pairs(before) + pairs_of(address, first));
    }
    pairs_of_concatenation(apart, after);
    pairs_of_concatenation(joined, after);
}

/// Some interface of the project that is named for `address` has a function with the selector.
pub open spec fn interface_has_selector(
    project: Seq<ProjectView>,
    pairs: Seq<(Address, Seq<char>)>,
    address: Address,
    selector: Selector,
) -> bool {
    exists|i: int|
        {
            &&& 0 <= i < pairs.len()
            &&& (#[trigger] pairs[i]).0 == address
            &&& find_artifact(project, pairs[i].1) matches Some(contract)
            &&& any_group_has_selector(contract.abi.functions, selector)
        }
}

/// The functions of all interfaces named for an address are merged: what is called there has a function
/// with a selector exactly where one of the interfaces has.
pub proof fn all_interfaces_of_an_address_are_called(
    project: Seq<ProjectView>,
    pairs: Seq<(Address, Seq<char>)>,
    address: Address,
    selector: Selector,
)
    ensures
        ({
            let all = combined_interfaces(project, pairs);
            (all.dom().contains(address) && any_group_has_selector(all[address].abi.functions, selector))
                == interface_has_selector(project, pairs, address, selector)
        }),
    decreases pairs.len(),
{
    if pairs.len() > 0 {
        let front = pairs.drop_last();
        let last = pairs[pairs.len() - 1];
        let before = combined_interfaces(project, front);
        all_interfaces_of_an_address_are_called(project, front, address, selector);
        if before.dom().contains(address) && find_artifact(project, last.1) is Some {
            merging_loses_no_selector(
                before[address].abi.functions,
                find_artifact(project, last.1)->0.abi.functions,
                selector,
            );
        }
        if interface_has_selector(project, front, address, selector) {
            let i = choose|i: int|
                {
                    &&& 0 <= i < front.len()
                    &&& (#[trigger] front[i]).0 == address
                    &&& find_artifact(project, front[i].1) matches Some(contract)
                    &&& any_group_has_selector(contract.abi.functions, selector)
                };
            assert(pairs[i] == front[i]);
        }
        if interface_has_selector(project, pairs, address, selector) {
            let i = choose|i: int|
                {
                    &&& 0 <= i < pairs.len()
                    &&& (#[trigger] pairs[i]).0 == address
                    &&& find_artifact(project, pairs[i].1) matches Some(contract)
                    &&& any_group_has_selector(contract.abi.functions, selector)
                };
            if i < front.len() {
                assert(front[i] == pairs[i]);
            }
        }
    }
}

/// The pairs of two lists of interfaces, one behind the other.
proof fn pairs_of_concatenation(a: Seq<(Address, Seq<Seq<char>>)>, b: Seq<(Address, Seq<Seq<char>>)>)
    ensures
        interface_pairs(a + b) == interface_pairs(a) + interface_pairs(b),
    decreases b.len(),
{
    if b.len() == 0 {
        assert(a + b =~= a);
        assert(interface_pairs(a) + interface_pairs(b) =~= interface_pairs(a));
    } else {
        assert((a + b).drop_last() =~= a + b.drop_last());
        pairs_of_concatenation(a, b.drop_last());
        assert(interface_pairs(a + b) =~= interface_pairs(a) + interface_pairs(b));
    }
}

/// Addresses with a meaning of their own on the chain.
pub struct ChainConstants {
    pub cheatcode: Address,
    pub console: Address,
    pub create2_deployer: Address,
    pub precompiles: Vec<Address>,
}

/// What the test contract answers, and which artifacts the filters let through.
pub struct ContractAnswers {
    /// `targetSenders()`.
    pub targeted_senders: Vec<Address>,
    /// `excludeSenders()`.
    pub excluded_senders: Vec<Address>,
    /// `targetContracts()`.
    pub selected: Vec<Address>,
    /// `excludeContracts()`.
    pub excluded: Vec<Address>,
    /// `targetInterfaces()`.
    pub interfaces: Vec<FuzzInterface>,
    /// `targetSelectors()`.
    pub targeted_selectors: Vec<FuzzSelector>,
    /// `excludeSelectors()`.
    pub excluded_selectors: Vec<FuzzSelector>,
    /// The identifiers of the artifacts that the artifact filters let through.
    pub admitted: Vec<String>,
}

/// The senders that are never used: those that the test contract excludes, and those with a meaning
/// of their own.
pub open spec fn never_senders(answers: ContractAnswers, constants: ChainConstants) -> Seq<Address> {
    answers.excluded_senders@ + seq![constants.cheatcode, constants.console, constants.create2_deployer]
        + constants.precompiles@
}

/// Whether a deployed contract is called. The test contract is, if it names itself. Any other is,
/// if it is named where some are named, and is not excluded, and its artifact is let through.
pub open spec fn is_called(
    to: Address,
    answers: ContractAnswers,
    constants: ChainConstants,
    address: Address,
    identifier: Seq<char>,
) -> bool {
    ||| address == to && answers.selected@.contains(to)
    ||| {
        &&& address != to
        &&& address != constants.cheatcode
        &&& address != constants.console
        &&& answers.selected@.len() == 0 || answers.selected@.contains(address)
        &&& !answers.excluded@.contains(address)
        &&& texts(answers.admitted@).contains(identifier)
    }
}

/// The deployed contracts that are called.
pub open spec fn called_contracts(
    setup: Map<Address, SetupView>,
    to: Address,
    answers: ContractAnswers,
    constants: ChainConstants,
) -> Map<Address, TargetView> {
    Map::new(
        |address: Address|
            setup.dom().contains(address) && is_called(to, answers, constants, address, setup[address].identifier),
        |address: Address| plain_target(setup[address]),
    )
}

/// The contracts and functions to call, up to the first error.
pub open spec fn selected_targets(
    setup: Map<Address, SetupView>,
    project: Seq<ProjectView>,
    targeted: Map<Seq<char>, Seq<Selector>>,
    to: Address,
    answers: ContractAnswers,
    constants: ChainConstants,
) -> (Map<Address, TargetView>, Option<SelectionErrorView>) {
    let called = called_contracts(setup, to, answers, constants);
    let interfaced = with_interfaces(project, called, interface_models(answers.interfaces@));
    let (targets, error) = selected_functions(
        setup,
        targeted,
        interfaced,
        to,
        answers.targeted_selectors@,
        answers.excluded_selectors@,
    );
    if error is None && targets.dom().is_empty() {
        (targets, Some(SelectionErrorView::NoContracts))
    } else {
        (targets, error)
    }
}

/// Addresses with a meaning of their own, and the zero address, are never senders.
pub proof fn default_senders_are_excluded(
    answers: ContractAnswers,
    constants: ChainConstants,
    excluded: Seq<Address>,
    i: int,
)
    requires
        with_zero_address(never_senders(answers, constants), excluded),
    ensures
        excluded.contains(constants.cheatcode),
        excluded.contains(constants.console),
        excluded.contains(constants.create2_deployer),
        0 <= i < constants.precompiles@.len() ==> excluded.contains(constants.precompiles@[i]),
        0 <= i < answers.excluded_senders@.len() ==> excluded.contains(answers.excluded_senders@[i]),
        has_zero_address(excluded),
{
    let never = never_senders(answers, constants);
    let n = answers.excluded_senders@.len() as int;
    assert(forall|j: int| 0 <= j < never.len() ==> excluded[j] == never[j]);
    assert(excluded[n] == constants.cheatcode);
    assert(excluded[n + 1] == constants.console);
    assert(excluded[n + 2] == constants.create2_deployer);
    if 0 <= i < constants.precompiles@.len() {
        assert(excluded[n + 3 + i] == constants.precompiles@[i]);
    }
    if 0 <= i < answers.excluded_senders@.len() {
        assert(excluded[i] == answers.excluded_senders@[i]);
    }
}

/// Without interfaces and selectors the deployed contracts that are called are all there is: no
/// excluded contract is called, no other than the named ones where some are named, and the test
/// contract only where it names itself.
pub proof fn excluded_contracts_are_not_called(
    setup: Map<Address, SetupView>,
    to: Address,
    answers: ContractAnswers,
    constants: ChainConstants,
    address: Address,
)
    requires
        called_contracts(setup, to, answers, constants).dom().contains(address),
    ensures
        setup.dom().contains(address),
        address != to ==> !answers.excluded@.contains(address),
        address == to ==> answers.selected@.contains(to),
        answers.selected@.len() > 0 ==> answers.selected@.contains(address),
{
}

impl InvariantExecutor {
    /// The deployed contract at `address`.
    fn deployed(&self, address: &Address) -> (r: Option<&SetupContract>)
        requires
            self.wf(),
        ensures
            r is Some == self.setup().dom().contains(*address),
            r matches Some(contract) ==> contract.abi.wf() && contract@ == self.setup()[*address],
    {
        let p = self.setup_contracts.position(address);
        if p.found {
            proof {
                sorted_entry_is_mapped(self.setup_contracts.entries@, p.index as int);
            }
            assert(self.setup_contracts.entries@[p.index as int].1.abi.wf());
            Some(&self.setup_contracts.entries[p.index].1)
        } else {
            None
        }
    }

    /// Adds functions to those that are called, or to those that are not called, of a contract.
    pub fn add_address_with_functions(
        &self,
        request: &SelectorRequest,
        targeted_contracts: &mut TargetedContracts,
    ) -> (r: Result<(), SelectionError>)
        requires
            self.wf(),
            old(targeted_contracts).wf(),
        ensures
            final(targeted_contracts).wf(),
            (final(targeted_contracts)@, error_of(r)) == with_request(
                self.setup(),
                old(targeted_contracts)@,
                request@,
            ),
    {
        if request.selectors.len() == 0 {
            return Ok(());
        }
        let ghost targets = targeted_contracts@;
        let mut contract = match targeted_contracts.remove(&request.address) {
            Some(contract) => contract,
            None => {
                assert(targeted_contracts@ =~= targets);
                match self.deployed(&request.address) {
                    Some(contract) => {
                        let mut target = TargetedContract::new(contract.identifier.clone(), contract.abi.clone());
                        target.storage_layout = contract.storage_layout;
                        target
                    },
                    None => {
                        return Err(
                            SelectionError::NoContract {
                                address: request.address,
                                should_exclude: request.should_exclude,
                            },
                        );
                    },
                }
            },
        };
        let added = contract.add_selectors(&request.selectors, request.should_exclude);
        targeted_contracts.insert(request.address, contract);
        assert(targeted_contracts@ =~= targets.insert(request.address, contract@));
        match added {
            Ok(()) => Ok(()),
            Err(unknown) => Err(
                SelectionError::UnknownFunction { identifier: unknown.identifier, selector: unknown.selector },
            ),
        }
    }

    /// The requests for the selectors chosen for artifacts, in the order of the addresses.
    fn requests_for_artifacts(&self) -> (r: Vec<SelectorRequest>)
        requires
            self.wf(),
        ensures
            request_models(r@) == artifact_requests(
                self.setup(),
                self.artifact_filters@.targeted,
                key_order::<Address>(self.setup().dom()),
            ),
    {
        let ghost entries = self.setup_contracts.entries@;
        let ghost keys = entry_keys(entries);
        let ghost targeted = self.artifact_filters@.targeted;
        let mut out: Vec<SelectorRequest> = Vec::new();
        let mut i: usize = 0;
        proof {
            sorted_entries_follow_key_order(entries);
            assert(self.setup().dom() =~= self.setup_contracts@.dom());
            assert(targeted.dom() =~= self.artifact_filters.targeted@.dom());
            assert(request_models(out@) =~= artifact_requests(self.setup(), targeted, keys.take(0)));
        }
        while i < self.setup_contracts.entries.len()
            invariant
                i <= entries.len(),
                self.wf(),
                entries == self.setup_contracts.entries@,
                keys == entry_keys(entries),
                targeted == self.artifact_filters@.targeted,
                targeted.dom() =~= self.artifact_filters.targeted@.dom(),
                request_models(out@) == artifact_requests(self.setup(), targeted, keys.take(i as int)),
            decreases entries.len() - i,
        {
            let entry = &self.setup_contracts.entries[i];
            let ghost before = out@;
            proof {
                sorted_entry_is_mapped(entries, i as int);
                assert(keys.take(i + 1).drop_last() =~= keys.take(i as int));
                assert(keys.take(i + 1).last() == entry.0);
                assert(self.setup()[entry.0].identifier == entry.1.identifier@);
            }
            if let Some(selectors) = self.artifact_filters.targeted.get(&entry.1.identifier) {
                let request = SelectorRequest {
                    address: entry.0,
                    selectors: clone_selectors(selectors),
                    should_exclude: false,
                };
                out.push(request);
                assert(request_models(out@) =~= request_models(before).push(request@));
            }
            i += 1;
        }
        assert(keys.take(i as int) =~= keys);
        out
    }
}

/// Adds requests for what the test contract names.
fn add_named_requests(requests: &mut Vec<SelectorRequest>, named: &Vec<FuzzSelector>, should_exclude: bool)
    ensures
        request_models(final(requests)@) == request_models(old(requests)@) + named_requests(named@, should_exclude),
{
    let mut i: usize = 0;
    let ghost before = request_models(requests@);
    assert(before =~= before + named_requests(named@, should_exclude).take(0));
    while i < named.len()
        invariant
            i <= named@.len(),
            request_models(requests@) == before + named_requests(named@, should_exclude).take(i as int),
        decreases named@.len() - i,
    {
        let ghost so_far = requests@;
        let request = SelectorRequest {
            address: named[i].addr,
            selectors: clone_selectors(&named[i].selectors),
            should_exclude,
        };
        requests.push(request);
        assert(request_models(requests@) =~= request_models(so_far).push(request@));
        assert(request_models(requests@) =~= before + named_requests(named@, should_exclude).take(i + 1));
        i += 1;
    }
    assert(named_requests(named@, should_exclude).take(i as int) =~= named_requests(named@, should_exclude));
}

/// All selectors that the test contract names for `address`.
fn named_selectors(named: &Vec<FuzzSelector>, address: Address) -> (r: Vec<Selector>)
    ensures
        r@ == all_named(named@, address),
{
    let mut out: Vec<Selector> = Vec::new();
    let mut i: usize = 0;
    assert(named@.take(0) =~= Seq::empty());
    while i < named.len()
        invariant
            i <= named@.len(),
            out@ == all_named(named@.take(i as int), address),
        decreases named@.len() - i,
    {
        assert(named@.take(i + 1).drop_last() =~= named@.take(i as int));
        assert(named@.take(i + 1).last() == named@[i as int]);
        if named[i].addr == address {
            let mut more = clone_selectors(&named[i].selectors);
            out.append(&mut more);
        }
        i += 1;
    }
    assert(named@.take(i as int) =~= named@);
    out
}

/// The selectors of the functions of a contract that are called where none is chosen.
fn selectors_by_default(target: &TargetedContract, excluded: &Vec<Selector>) -> (r: Vec<Selector>)
    requires
        target.wf(),
    ensures
        r@ == default_selectors(target@.abi.all_functions(), excluded@),
{
    let functions = target.abi.all_functions();
    let ghost models = target@.abi.all_functions();
    let mut out: Vec<Selector> = Vec::new();
    let mut i: usize = 0;
    assert(out@ =~= default_selectors(models.take(0), excluded@));
    while i < functions.len()
        invariant
            i <= functions@.len(),
            models == function_models(functions@),
            out@ == default_selectors(models.take(i as int), excluded@),
        decreases functions@.len() - i,
    {
        let function = &functions[i];
        proof {
            assert(models.take(i + 1).drop_last() =~= models.take(i as int));
            assert(models.take(i + 1).last() == function@);
        }
        if function.state_mutability.is_state_changing() && !function.reserved {
            let selector = function.selector();
            if !contains_selector(excluded, selector) {
                out.push(selector);
            }
        }
        i += 1;
    }
    assert(models.take(i as int) =~= models);
    out
}

impl InvariantExecutor {
    /// Chooses the functions to call, as the artifact filters and the test contract at `address`
    /// ask for.
    pub fn select_selectors(
        &self,
        address: Address,
        chosen: &Vec<FuzzSelector>,
        excluded: &Vec<FuzzSelector>,
        targeted_contracts: &mut TargetedContracts,
    ) -> (r: Result<(), SelectionError>)
        requires
            self.wf(),
            old(targeted_contracts).wf(),
        ensures
            final(targeted_contracts).wf(),
            (final(targeted_contracts)@, error_of(r)) == selected_functions(
                self.setup(),
                self.artifact_filters@.targeted,
                old(targeted_contracts)@,
                address,
                chosen@,
                excluded@,
            ),
    {
        let mut requests = self.requests_for_artifacts();
        add_named_requests(&mut requests, chosen, false);
        add_named_requests(&mut requests, excluded, true);
        let ghost models = request_models(requests@);
        let ghost targets = targeted_contracts@;
        let mut i: usize = 0;
        while i < requests.len()
            invariant
                i <= requests@.len(),
                self.wf(),
                targeted_contracts.wf(),
                models == request_models(requests@),
                (targeted_contracts@, None::<SelectionErrorView>) == with_requests(
                    self.setup(),
                    targets,
                    models,
                    i as nat,
                ),
                targets == old(targeted_contracts)@,
                models == artifact_requests(
                    self.setup(),
                    self.artifact_filters@.targeted,
                    key_order::<Address>(self.setup().dom()),
                ) + named_requests(chosen@, false) + named_requests(excluded@, true),
            decreases requests@.len() - i,
        {
            let added = self.add_address_with_functions(&requests[i], targeted_contracts);
            if added.is_err() {
                proof {
                    failure_stays(self.setup(), targets, models, (i + 1) as nat, models.len());
                }
                return added;
            }
            i += 1;
        }
        let target_test_selectors = named_selectors(chosen, address);
        if target_test_selectors.len() == 0 {
            if let Some(target) = targeted_contracts.get(&address) {
                let excluded_test_selectors = named_selectors(excluded, address);
                let selectors = selectors_by_default(target, &excluded_test_selectors);
                let request = SelectorRequest { address, selectors, should_exclude: false };
                return self.add_address_with_functions(&request, targeted_contracts);
            }
        }
        Ok(())
    }

    /// The place in the project of the first contract with this name or identifier.
    fn find_interface(&self, identifier: &str) -> (r: Option<usize>)
        ensures
            r is Some == find_artifact(self.project(), identifier@) is Some,
            r matches Some(place) ==> place < self.project_contracts@.len() && find_artifact(
                self.project(),
                identifier@,
            ) == Some(self.project_contracts@[place as int]@),
    {
        let ghost project = self.project();
        let mut i: usize = 0;
        while i < self.project_contracts.len()
            invariant
                i <= self.project_contracts@.len(),
                project == self.project(),
                find_artifact(project.take(i as int), identifier@) is None,
            decreases self.project_contracts@.len() - i,
        {
            let contract = &self.project_contracts[i];
            proof {
                assert(project.take(i + 1).drop_last() =~= project.take(i as int));
                assert(project.take(i + 1).last() == contract@);
            }
            if same_text(contract.name.as_str(), identifier) || same_text(contract.identifier.as_str(), identifier) {
                proof {
                    found_stays(project, identifier@, i + 1);
                }
                return Some(i);
            }
            i += 1;
        }
        assert(project.take(i as int) =~= project);
        None
    }

    /// Adds the interfaces that the test contract names, and the addresses they are for. Interfaces
    /// of one address are merged.
    pub fn target_interfaces(&self, interfaces: &Vec<FuzzInterface>, targeted_contracts: &mut TargetedContracts)
        requires
            self.wf(),
            old(targeted_contracts).wf(),
        ensures
            final(targeted_contracts).wf(),
            final(targeted_contracts)@ == with_interfaces(
                self.project(),
                old(targeted_contracts)@,
                interface_models(interfaces@),
            ),
    {
        let mut combined = TargetedContracts::new();
        let ghost models = interface_models(interfaces@);
        let ghost project = self.project();
        let mut i: usize = 0;
        assert(models.take(0) =~= Seq::empty());
        while i < interfaces.len()
            invariant
                i <= interfaces@.len(),
                self.wf(),
                combined.wf(),
                models == interface_models(interfaces@),
                project == self.project(),
                combined@ == combined_interfaces(project, interface_pairs(models.take(i as int))),
            decreases interfaces@.len() - i,
        {
            let addr = interfaces[i].addr;
            let artifacts = &interfaces[i].artifacts;
            let ghost before = interface_pairs(models.take(i as int));
            let ghost added = pairs_of(addr, texts(artifacts@));
            let mut j: usize = 0;
            assert(before + added.take(0) =~= before);
            while j < artifacts.len()
                invariant
                    j <= artifacts@.len(),
                    self.wf(),
                    combined.wf(),
                    project == self.project(),
                    added == pairs_of(addr, texts(artifacts@)),
                    combined@ == combined_interfaces(project, before + added.take(j as int)),
                decreases artifacts@.len() - j,
            {
                let identifier = &artifacts[j];
                proof {
                    let next = before + added.take(j + 1);
                    assert(next.drop_last() =~= before + added.take(j as int));
                    assert(next.last() == (addr, identifier@));
                }
                let ghost so_far = combined@;
                if let Some(place) = self.find_interface(identifier.as_str()) {
                    let contract = &self.project_contracts[place];
                    assert(contract.abi.wf());
                    let target = match combined.remove(&addr) {
                        Some(target) => {
                            let mut target = target;
                            target.abi.extend(&contract.abi);
                            target
                        },
                        None => {
                            let mut target = TargetedContract::new(identifier.clone(), contract.abi.clone());
                            target.storage_layout = contract.storage_layout;
                            target
                        },
                    };
                    combined.insert(addr, target);
                    assert(combined@ =~= so_far.insert(addr, target@));
                }
                j += 1;
            }
            proof {
                assert(added.take(j as int) =~= added);
                assert(models.take(i + 1).drop_last() =~= models.take(i as int));
                assert(models.take(i + 1).last() == models[i as int]);
            }
            i += 1;
        }
        assert(models.take(i as int) =~= models);
        targeted_contracts.extend(combined);
    }

    /// The deployed contracts that are called.
    fn called(&self, to: Address, answers: &ContractAnswers, constants: &ChainConstants) -> (r: TargetedContracts)
        requires
            self.wf(),
        ensures
            r.wf(),
            r@ == called_contracts(self.setup(), to, *answers, *constants),
    {
        let mut out = TargetedContracts::new();
        let ghost entries = self.setup_contracts.entries@;
        let ghost setup = self.setup();
        let mut i: usize = 0;
        assert(out@ =~= called_contracts(
            setup_models(map_of(entries.take(0))),
            to,
            *answers,
            *constants,
        ));
        while i < self.setup_contracts.entries.len()
            invariant
                i <= entries.len(),
                self.wf(),
                entries == self.setup_contracts.entries@,
                out.wf(),
                out@ == called_contracts(
                    setup_models(map_of(entries.take(i as int))),
                    to,
                    *answers,
                    *constants,
                ),
            decreases entries.len() - i,
        {
            let entry = &self.setup_contracts.entries[i];
            let addr = entry.0;
            let contract = &entry.1;
            let ghost before = out@;
            assert(entries[i as int].1.abi.wf());
            let called = if addr == to {
                contains_address(&answers.selected, to)
            } else {
                addr != constants.cheatcode && addr != constants.console && (answers.selected.len() == 0
                    || contains_address(&answers.selected, addr)) && !contains_address(&answers.excluded, addr)
                    && contains_text(&answers.admitted, contract.identifier.as_str())
            };
            if called {
                let mut target = TargetedContract::new(contract.identifier.clone(), contract.abi.clone());
                target.storage_layout = contract.storage_layout;
                out.insert(addr, target);
                assert(target@ == plain_target(contract@));
            }
            proof {
                sorted_prefix(entries, i as int);
                map_of_next(entries, i as int);
                let front = setup_models(map_of(entries.take(i as int)));
                let next = setup_models(map_of(entries.take(i + 1)));
                assert(next =~= front.insert(addr, contract@));
                assert(out@ =~= called_contracts(next, to, *answers, *constants));
            }
            i += 1;
        }
        assert(entries.take(i as int) =~= entries);
        out
    }

    /// The senders to use, and the contracts and functions to call, as the test contract at `to`
    /// asks for. Contracts that a run creates are called too where it names no contracts. It is an
    /// error if there is no contract to call.
    pub fn select_contracts_and_senders(
        &self,
        to: Address,
        answers: &ContractAnswers,
        constants: &ChainConstants,
    ) -> (r: Result<(SenderFilters, FuzzRunIdentifiedContracts), SelectionError>)
        requires
            self.wf(),
        ensures
            ({
                let (targets, error) = selected_targets(
                    self.setup(),
                    self.project(),
                    self.artifact_filters@.targeted,
                    to,
                    *answers,
                    *constants,
                );
                &&& error_of(r) == error
                &&& r matches Ok((senders, contracts)) ==> {
                    &&& senders.targeted@ == answers.targeted_senders@
                    &&& with_zero_address(never_senders(*answers, *constants), senders.excluded@)
                    &&& contracts.targets.wf()
                    &&& contracts.targets@ == targets
                    &&& contracts.is_updatable == (answers.selected@.len() == 0)
                }
            }),
    {
        let mut excluded_senders = clone_addresses(&answers.excluded_senders);
        excluded_senders.push(constants.cheatcode);
        excluded_senders.push(constants.console);
        excluded_senders.push(constants.create2_deployer);
        let mut precompiles = clone_addresses(&constants.precompiles);
        excluded_senders.append(&mut precompiles);
        assert(excluded_senders@ =~= never_senders(*answers, *constants));
        let sender_filters = SenderFilters::new(clone_addresses(&answers.targeted_senders), excluded_senders);

        let mut contracts = self.called(to, answers, constants);
        self.target_interfaces(&answers.interfaces, &mut contracts);
        match self.select_selectors(to, &answers.targeted_selectors, &answers.excluded_selectors, &mut contracts) {
            Ok(()) => {},
            Err(error) => {
                return Err(error);
            },
        }
        proof {
            sorted_entries_count(contracts.inner.entries@);
            assert(contracts@.dom() =~= contracts.inner@.dom());
            if contracts@.dom().len() == 0 {
                assert(contracts@.dom() =~= Set::empty());
            }
        }
        if contracts.is_empty() {
            return Err(SelectionError::NoContracts);
        }
        Ok((sender_filters, FuzzRunIdentifiedContracts::new(contracts, answers.selected.len() == 0)))
    }
}

/// What is found among the first contracts of the project is what is found.
proof fn found_stays(project: Seq<ProjectView>, identifier: Seq<char>, n: int)
    requires
        0 <= n <= project.len(),
        find_artifact(project.take(n), identifier) is Some,
    ensures
        find_artifact(project, identifier) == find_artifact(project.take(n), identifier),
    decreases project.len(),
{
    if n < project.len() {
        assert(project.drop_last().take(n) =~= project.take(n));
        found_stays(project.drop_last(), identifier, n);
    } else {
        assert(project.take(n) =~= project);
    }
}

/// A request only adds: no target and none of its chosen or excluded functions is taken away, its identifier,
/// interface and layout stay, and a contract that becomes a target was deployed.
proof fn a_request_only_adds(
    setup: Map<Address, SetupView>,
    targets: Map<Address, TargetView>,
    request: RequestView,
    address: Address,
    selector: Selector,
)
    ensures
        ({
            let after = with_request(setup, targets, request).0;
            &&& targets.dom().contains(address) ==> {
                &&& after.dom().contains(address)
                &&& after[address].identifier == targets[address].identifier
                &&& after[address].abi == targets[address].abi
                &&& after[address].storage_layout == targets[address].storage_layout
                &&& targets[address].excluded_functions.contains(selector)
                    ==> after[address].excluded_functions.contains(selector)
                &&& targets[address].targeted_functions.contains(selector)
                    ==> after[address].targeted_functions.contains(selector)
            }
            &&& !targets.dom().contains(address) && after.dom().contains(address) ==> {
                &&& address == request.address
                &&& setup.dom().contains(address)
                &&& after[address].identifier == setup[address].identifier
                &&& after[address].abi == setup[address].abi
                &&& after[address].storage_layout == setup[address].storage_layout
            }
            &&& after.dom().contains(address) && after[address].excluded_functions.contains(selector) ==> {
                ||| targets.dom().contains(address) && targets[address].excluded_functions.contains(selector)
                ||| request.address == address && request.should_exclude && request.selectors.contains(selector)
            }
            &&& after.dom().contains(address) && after[address].targeted_functions.contains(selector) ==> {
                ||| targets.dom().contains(address) && targets[address].targeted_functions.contains(selector)
                ||| request.address == address && !request.should_exclude && request.selectors.contains(selector)
            }
        }),
{
    let at = request.address;
    if request.selectors.len() > 0 && (targets.dom().contains(at) || setup.dom().contains(at)) {
        let target = if targets.dom().contains(at) {
            targets[at]
        } else {
            plain_target(setup[at])
        };
        let known = known_prefix(target.abi, request.selectors) as int;
        let added = request.selectors.take(known);
        known_prefix_is_the_longest(target.abi, request.selectors);
        added_selectors_join_those_before(target, added, request.should_exclude, selector);
        if added.contains(selector) {
            assert(request.selectors[added.index_of(selector)] == selector);
        }
    }
}

/// Where a request does not fail, each of its selectors is added, the contract is there and has a function for
/// each of them. It fails exactly where there is no contract, or the contract lacks a function.
proof fn a_request_takes_effect(
    setup: Map<Address, SetupView>,
    targets: Map<Address, TargetView>,
    request: RequestView,
    k: int,
)
    requires
        0 <= k < request.selectors.len(),
        with_request(setup, targets, request).1 is None,
    ensures
        ({
            let after = with_request(setup, targets, request).0;
            let selector = request.selectors[k];
            &&& after.dom().contains(request.address)
            &&& after[request.address].abi.has_selector(selector)
            &&& request.should_exclude ==> after[request.address].excluded_functions.contains(selector)
            &&& !request.should_exclude ==> after[request.address].targeted_functions.contains(selector)
        }),
{
    let at = request.address;
    let target = if targets.dom().contains(at) {
        targets[at]
    } else {
        plain_target(setup[at])
    };
    known_prefix_is_the_longest(target.abi, request.selectors);
    assert(request.selectors.take(request.selectors.len() as int) =~= request.selectors);
    added_selectors_join_those_before(target, request.selectors, request.should_exclude, request.selectors[k]);
    assert(request.selectors.contains(request.selectors[k]));
}

/// Requests only add, as one request does.
proof fn requests_only_add(
    setup: Map<Address, SetupView>,
    targets: Map<Address, TargetView>,
    requests: Seq<RequestView>,
    n: nat,
    address: Address,
    selector: Selector,
)
    requires
        n <= requests.len(),
    ensures
        ({
            let after = with_requests(setup, targets, requests, n).0;
            &&& targets.dom().contains(address) ==> {
                &&& after.dom().contains(address)
                &&& after[address].identifier == targets[address].identifier
                &&& after[address].abi == targets[address].abi
                &&& after[address].storage_layout == targets[address].storage_layout
                &&& targets[address].excluded_functions.contains(selector)
                    ==> after[address].excluded_functions.contains(selector)
                &&& targets[address].targeted_functions.contains(selector)
                    ==> after[address].targeted_functions.contains(selector)
            }
            &&& !targets.dom().contains(address) && after.dom().contains(address) ==> {
                &&& setup.dom().contains(address)
                &&& after[address].identifier == setup[address].identifier
                &&& after[address].abi == setup[address].abi
                &&& after[address].storage_layout == setup[address].storage_layout
                &&& exists|i: int| 0 <= i < n && (#[trigger] requests[i]).address == address
            }
            &&& after.dom().contains(address) && after[address].excluded_functions.contains(selector) ==> {
                ||| targets.dom().contains(address) && targets[address].excluded_functions.contains(selector)
                ||| exists|i: int|
                    0 <= i < n && (#[trigger] requests[i]).address == address && requests[i].should_exclude
                        && requests[i].selectors.contains(selector)
            }
            &&& after.dom().contains(address) && after[address].targeted_functions.contains(selector) ==> {
                ||| targets.dom().contains(address) && targets[address].targeted_functions.contains(selector)
                ||| exists|i: int|
                    0 <= i < n && (#[trigger] requests[i]).address == address && !requests[i].should_exclude
                        && requests[i].selectors.contains(selector)
            }
        }),
    decreases n,
{
    if n > 0 {
        requests_only_add(setup, targets, requests, (n - 1) as nat, address, selector);
        let (before, error) = with_requests(setup, targets, requests, (n - 1) as nat);
        a_request_only_adds(setup, before, requests[n - 1], address, selector);
    }
}

/// Where no request fails, each of their selectors is added.
proof fn requests_take_effect(
    setup: Map<Address, SetupView>,
    targets: Map<Address, TargetView>,
    requests: Seq<RequestView>,
    n: nat,
    i: int,
    k: int,
)
    requires
        0 <= i < n <= requests.len(),
        0 <= k < requests[i].selectors.len(),
        with_requests(setup, targets, requests, n).1 is None,
    ensures
        ({
            let after = with_requests(setup, targets, requests, n).0;
            let selector = requests[i].selectors[k];
            &&& after.dom().contains(requests[i].address)
            &&& after[requests[i].address].abi.has_selector(selector)
            &&& requests[i].should_exclude ==> after[requests[i].address].excluded_functions.contains(selector)
            &&& !requests[i].should_exclude ==> after[requests[i].address].targeted_functions.contains(selector)
        }),
    decreases n,
{
    let before = with_requests(setup, targets, requests, (n - 1) as nat).0;
    if i < n - 1 {
        requests_take_effect(setup, targets, requests, (n - 1) as nat, i, k);
        a_request_only_adds(setup, before, requests[n - 1], requests[i].address, requests[i].selectors[k]);
    } else {
        a_request_takes_effect(setup, before, requests[i], k);
    }
}

/// Requests do not fail where each is for a target or a deployed contract that has a function for each of its
/// selectors.
proof fn sound_requests_do_not_fail(
    setup: Map<Address, SetupView>,
    targets: Map<Address, TargetView>,
    requests: Seq<RequestView>,
    n: nat,
)
    requires
        n <= requests.len(),
        forall|i: int, k: int|
            #![trigger requests[i].selectors[k]]
            0 <= i < n && 0 <= k < requests[i].selectors.len() ==> is_known(
                setup,
                targets,
                requests[i].address,
                requests[i].selectors[k],
            ),
    ensures
        with_requests(setup, targets, requests, n).1 is None,
    decreases n,
{
    if n > 0 {
        sound_requests_do_not_fail(setup, targets, requests, (n - 1) as nat);
        let before = with_requests(setup, targets, requests, (n - 1) as nat).0;
        let request = requests[n - 1];
        let at = request.address;
        if request.selectors.len() > 0 {
            requests_only_add(setup, targets, requests, (n - 1) as nat, at, request.selectors[0]);
            let abi = if before.dom().contains(at) {
                before[at].abi
            } else {
                setup[at].abi
            };
            assert forall|k: int| 0 <= k < request.selectors.len() implies abi.has_selector(
                #[trigger] request.selectors[k],
            ) by {
                assert(requests[n - 1].selectors[k] == request.selectors[k]);
            }
            assert(requests[n - 1].selectors[0] == request.selectors[0]);
            selectors_are_known(abi, request.selectors);
        }
    }
}

/// The requests for artifacts: one for each deployed contract whose artifact has chosen selectors.
proof fn artifacts_are_requested(
    setup: Map<Address, SetupView>,
    targeted: Map<Seq<char>, Seq<Selector>>,
    addresses: Seq<Address>,
)
    ensures
        forall|a: int|
            0 <= a < addresses.len() && targeted.dom().contains(setup[#[trigger] addresses[a]].identifier)
                ==> artifact_requests(setup, targeted, addresses).contains(
                (RequestView {
                    address: addresses[a],
                    selectors: targeted[setup[addresses[a]].identifier],
                    should_exclude: false,
                }),
            ),
        forall|i: int|
            0 <= i < artifact_requests(setup, targeted, addresses).len() ==> {
                let request = #[trigger] artifact_requests(setup, targeted, addresses)[i];
                &&& addresses.contains(request.address)
                &&& targeted.dom().contains(setup[request.address].identifier)
                &&& request.selectors == targeted[setup[request.address].identifier]
                &&& !request.should_exclude
            },
    decreases addresses.len(),
{
    if addresses.len() > 0 {
        let rest = addresses.drop_last();
        let front = artifact_requests(setup, targeted, rest);
        let all = artifact_requests(setup, targeted, addresses);
        artifacts_are_requested(setup, targeted, rest);
        assert forall|a: int|
            0 <= a < addresses.len() && targeted.dom().contains(
                setup[#[trigger] addresses[a]].identifier,
            ) implies all.contains(
            (RequestView {
                address: addresses[a],
                selectors: targeted[setup[addresses[a]].identifier],
                should_exclude: false,
            }),
        ) by {
            let wanted = RequestView {
                address: addresses[a],
                selectors: targeted[setup[addresses[a]].identifier],
                should_exclude: false,
            };
            if a < rest.len() {
                assert(rest[a] == addresses[a]);
                assert(front.contains(wanted));
                assert(all[front.index_of(wanted)] == wanted);
            } else {
                assert(all[front.len() as int] == wanted);
            }
        }
        assert forall|i: int| 0 <= i < all.len() implies {
            let request = #[trigger] all[i];
            &&& addresses.contains(request.address)
            &&& targeted.dom().contains(setup[request.address].identifier)
            &&& request.selectors == targeted[setup[request.address].identifier]
            &&& !request.should_exclude
        } by {
            if i < front.len() {
                assert(all[i] == front[i]);
                let k = rest.index_of(front[i].address);
                assert(addresses[k] == front[i].address);
            } else {
                assert(addresses[addresses.len() - 1] == all[i].address);
            }
        }
    }
}

/// All requests that select functions, and what is left of them after the test contract was looked after.
proof fn selected_functions_keep_the_requests(
    setup: Map<Address, SetupView>,
    targeted: Map<Seq<char>, Seq<Selector>>,
    targets: Map<Address, TargetView>,
    address: Address,
    chosen: Seq<FuzzSelector>,
    excluded: Seq<FuzzSelector>,
    at: Address,
    selector: Selector,
)
    requires
        selected_functions(setup, targeted, targets, address, chosen, excluded).1 is None,
    ensures
        ({
            let requests = artifact_requests(setup, targeted, key_order::<Address>(setup.dom())) + named_requests(
                chosen,
                false,
            ) + named_requests(excluded, true);
            let named = with_requests(setup, targets, requests, requests.len()).0;
            let after = selected_functions(setup, targeted, targets, address, chosen, excluded).0;
            &&& with_requests(setup, targets, requests, requests.len()).1 is None
            &&& named.dom().contains(at) ==> {
                &&& after.dom().contains(at)
                &&& after[at].abi == named[at].abi
                &&& after[at].identifier == named[at].identifier
                &&& after[at].storage_layout == named[at].storage_layout
                &&& named[at].excluded_functions.contains(selector) ==> after[at].excluded_functions.contains(selector)
                &&& named[at].targeted_functions.contains(selector) ==> after[at].targeted_functions.contains(selector)
            }
            &&& after.dom().contains(at) ==> named.dom().contains(at)
            &&& after.dom().contains(at) && after[at].excluded_functions.contains(selector)
                ==> named[at].excluded_functions.contains(selector)
            &&& after.dom().contains(at) && after[at].targeted_functions.contains(selector) ==> {
                ||| named[at].targeted_functions.contains(selector)
                ||| at == address && all_named(chosen, address).len() == 0 && default_selectors(
                    named[address].abi.all_functions(),
                    all_named(excluded, address),
                ).contains(selector)
            }
        }),
{
    let requests = artifact_requests(setup, targeted, key_order::<Address>(setup.dom())) + named_requests(
        chosen,
        false,
    ) + named_requests(excluded, true);
    let named = with_requests(setup, targets, requests, requests.len()).0;
    if all_named(chosen, address).len() == 0 && named.dom().contains(address) {
        let request = RequestView {
            address,
            selectors: default_selectors(named[address].abi.all_functions(), all_named(excluded, address)),
            should_exclude: false,
        };
        a_request_only_adds(setup, named, request, at, selector);
    }
}

/// Every function that an entry of `excludeSelectors()` names is excluded from the contract at its address
/// once functions were selected without error, and every one that an entry of `targetSelectors()` names is
/// chosen, whatever the other entries are; the contract is a target and has the function.
pub proof fn every_named_selector_is_taken(
    setup: Map<Address, SetupView>,
    targeted: Map<Seq<char>, Seq<Selector>>,
    targets: Map<Address, TargetView>,
    address: Address,
    chosen: Seq<FuzzSelector>,
    excluded: Seq<FuzzSelector>,
    i: int,
    k: int,
)
    requires
        selected_functions(setup, targeted, targets, address, chosen, excluded).1 is None,
    ensures
        ({
            let after = selected_functions(setup, targeted, targets, address, chosen, excluded).0;
            &&& 0 <= i < excluded.len() && 0 <= k < excluded[i].selectors@.len() ==> {
                &&& after.dom().contains(excluded[i].addr)
                &&& after[excluded[i].addr].excluded_functions.contains(excluded[i].selectors@[k])
                &&& after[excluded[i].addr].abi.has_selector(excluded[i].selectors@[k])
            }
            &&& 0 <= i < chosen.len() && 0 <= k < chosen[i].selectors@.len() ==> {
                &&& after.dom().contains(chosen[i].addr)
                &&& after[chosen[i].addr].targeted_functions.contains(chosen[i].selectors@[k])
                &&& after[chosen[i].addr].abi.has_selector(chosen[i].selectors@[k])
            }
        }),
{
    let r1 = artifact_requests(setup, targeted, key_order::<Address>(setup.dom()));
    let r2 = named_requests(chosen, false);
    let r3 = named_requests(excluded, true);
    let requests = r1 + r2 + r3;
    if 0 <= i < excluded.len() && 0 <= k < excluded[i].selectors@.len() {
        let place = r1.len() + r2.len() + i;
        let at = excluded[i].addr;
        let selector = excluded[i].selectors@[k];
        assert(requests[place] == r3[i]);
        selected_functions_keep_the_requests(setup, targeted, targets, address, chosen, excluded, at, selector);
        requests_take_effect(setup, targets, requests, requests.len(), place, k);
    }
    if 0 <= i < chosen.len() && 0 <= k < chosen[i].selectors@.len() {
        let place = r1.len() + i;
        let at = chosen[i].addr;
        let selector = chosen[i].selectors@[k];
        assert(requests[place] == r2[i]);
        selected_functions_keep_the_requests(setup, targeted, targets, address, chosen, excluded, at, selector);
        requests_take_effect(setup, targets, requests, requests.len(), place, k);
    }
}

/// Every selector that was chosen for the artifact of a deployed contract is chosen of that contract.
pub proof fn selectors_of_artifacts_are_chosen(
    setup: Map<Address, SetupView>,
    targeted: Map<Seq<char>, Seq<Selector>>,
    targets: Map<Address, TargetView>,
    address: Address,
    chosen: Seq<FuzzSelector>,
    excluded: Seq<FuzzSelector>,
    at: Address,
    k: int,
)
    requires
        setup.dom().finite(),
        setup.dom().contains(at),
        targeted.dom().contains(setup[at].identifier),
        0 <= k < targeted[setup[at].identifier].len(),
        selected_functions(setup, targeted, targets, address, chosen, excluded).1 is None,
    ensures
        ({
            let after = selected_functions(setup, targeted, targets, address, chosen, excluded).0;
            &&& after.dom().contains(at)
            &&& after[at].targeted_functions.contains(targeted[setup[at].identifier][k])
        }),
{
    let order = key_order::<Address>(setup.dom());
    let r1 = artifact_requests(setup, targeted, order);
    let requests = r1 + named_requests(chosen, false) + named_requests(excluded, true);
    key_order_holds_every_key_once::<Address>(setup.dom());
    assert(order.contains(at));
    artifacts_are_requested(setup, targeted, order);
    let wanted = RequestView { address: at, selectors: targeted[setup[at].identifier], should_exclude: false };
    assert(order[order.index_of(at)] == at);
    assert(r1.contains(wanted));
    let i = r1.index_of(wanted);
    assert(requests[i] == wanted);
    selected_functions_keep_the_requests(
        setup,
        targeted,
        targets,
        address,
        chosen,
        excluded,
        at,
        targeted[setup[at].identifier][k],
    );
    requests_take_effect(setup, targets, requests, requests.len(), i, k);
}

/// Selecting functions takes nothing away and adds nothing that was not asked for: targets stay targets, with
/// their identifiers, interfaces, layouts and the functions that were chosen or excluded before; what becomes a
/// target was deployed; an excluded function was excluded before or an entry of `excludeSelectors()` names it;
/// and a chosen one was chosen before, or an entry of `targetSelectors()` names it, or it was chosen for the
/// artifact of the contract, or it is one that the test contract is called with by default.
pub proof fn nothing_else_is_selected(
    setup: Map<Address, SetupView>,
    targeted: Map<Seq<char>, Seq<Selector>>,
    targets: Map<Address, TargetView>,
    address: Address,
    chosen: Seq<FuzzSelector>,
    excluded: Seq<FuzzSelector>,
    at: Address,
    selector: Selector,
)
    requires
        selected_functions(setup, targeted, targets, address, chosen, excluded).1 is None,
    ensures
        ({
            let after = selected_functions(setup, targeted, targets, address, chosen, excluded).0;
            &&& targets.dom().contains(at) ==> {
                &&& after.dom().contains(at)
                &&& after[at].identifier == targets[at].identifier
                &&& after[at].abi == targets[at].abi
                &&& after[at].storage_layout == targets[at].storage_layout
                &&& targets[at].excluded_functions.contains(selector) ==> after[at].excluded_functions.contains(selector)
                &&& targets[at].targeted_functions.contains(selector) ==> after[at].targeted_functions.contains(selector)
            }
            &&& !targets.dom().contains(at) && after.dom().contains(at) ==> {
                &&& setup.dom().contains(at)
                &&& after[at].identifier == setup[at].identifier
                &&& after[at].abi == setup[at].abi
                &&& after[at].storage_layout == setup[at].storage_layout
            }
            &&& after.dom().contains(at) && after[at].excluded_functions.contains(selector) ==> {
                ||| targets.dom().contains(at) && targets[at].excluded_functions.contains(selector)
                ||| exists|i: int|
                    0 <= i < excluded.len() && (#[trigger] excluded[i]).addr == at && excluded[i].selectors@.contains(
                        selector,
                    )
            }
            &&& after.dom().contains(at) && after[at].targeted_functions.contains(selector) ==> {
                ||| targets.dom().contains(at) && targets[at].targeted_functions.contains(selector)
                ||| exists|i: int|
                    0 <= i < chosen.len() && (#[trigger] chosen[i]).addr == at && chosen[i].selectors@.contains(selector)
                ||| targeted.dom().contains(setup[at].identifier) && targeted[setup[at].identifier].contains(selector)
                ||| at == address && all_named(chosen, address).len() == 0 && default_selectors(
                    after[at].abi.all_functions(),
                    all_named(excluded, address),
                ).contains(selector)
            }
        }),
{
    let r1 = artifact_requests(setup, targeted, key_order::<Address>(setup.dom()));
    let r2 = named_requests(chosen, false);
    let r3 = named_requests(excluded, true);
    let requests = r1 + r2 + r3;
    let named = with_requests(setup, targets, requests, requests.len()).0;
    let after = selected_functions(setup, targeted, targets, address, chosen, excluded).0;
    selected_functions_keep_the_requests(setup, targeted, targets, address, chosen, excluded, at, selector);
    requests_only_add(setup, targets, requests, requests.len(), at, selector);
    artifacts_are_requested(setup, targeted, key_order::<Address>(setup.dom()));
    if after.dom().contains(at) && after[at].excluded_functions.contains(selector) && !(targets.dom().contains(at)
        && targets[at].excluded_functions.contains(selector)) {
        let i = choose|i: int|
            0 <= i < requests.len() && (#[trigger] requests[i]).address == at && requests[i].should_exclude
                && requests[i].selectors.contains(selector);
        if i < r1.len() {
            assert(requests[i] == r1[i]);
        } else if i < r1.len() + r2.len() {
            assert(requests[i] == r2[i - r1.len()]);
        } else {
            assert(requests[i] == r3[i - r1.len() - r2.len()]);
            assert(excluded[i - r1.len() - r2.len()].addr == at);
        }
    }
    if after.dom().contains(at) && named[at].targeted_functions.contains(selector) && !(targets.dom().contains(at)
        && targets[at].targeted_functions.contains(selector)) {
        let i = choose|i: int|
            0 <= i < requests.len() && (#[trigger] requests[i]).address == at && !requests[i].should_exclude
                && requests[i].selectors.contains(selector);
        if i < r1.len() {
            assert(requests[i] == r1[i]);
        } else if i < r1.len() + r2.len() {
            assert(requests[i] == r2[i - r1.len()]);
            assert(chosen[i - r1.len()].addr == at);
        } else {
            assert(requests[i] == r3[i - r1.len() - r2.len()]);
        }
    }
}

/// Functions are selected without error where every selector that is named, or chosen for an artifact, is one
/// that the contract has: the target at its address, or else the deployed contract there.
pub proof fn known_selectors_are_selected_without_error(
    setup: Map<Address, SetupView>,
    targeted: Map<Seq<char>, Seq<Selector>>,
    targets: Map<Address, TargetView>,
    address: Address,
    chosen: Seq<FuzzSelector>,
    excluded: Seq<FuzzSelector>,
)
    requires
        setup.dom().finite(),
        forall|i: int, k: int|
            #![trigger chosen[i].selectors@[k]]
            0 <= i < chosen.len() && 0 <= k < chosen[i].selectors@.len() ==> is_known(
                setup,
                targets,
                chosen[i].addr,
                chosen[i].selectors@[k],
            ),
        forall|i: int, k: int|
            #![trigger excluded[i].selectors@[k]]
            0 <= i < excluded.len() && 0 <= k < excluded[i].selectors@.len() ==> is_known(
                setup,
                targets,
                excluded[i].addr,
                excluded[i].selectors@[k],
            ),
        forall|at: Address, k: int|
            #![trigger targeted[setup[at].identifier][k]]
            setup.dom().contains(at) && targeted.dom().contains(setup[at].identifier) && 0 <= k
                < targeted[setup[at].identifier].len() ==> is_known(
                setup,
                targets,
                at,
                targeted[setup[at].identifier][k],
            ),
    ensures
        selected_functions(setup, targeted, targets, address, chosen, excluded).1 is None,
{
    let order = key_order::<Address>(setup.dom());
    let r1 = artifact_requests(setup, targeted, order);
    let r2 = named_requests(chosen, false);
    let r3 = named_requests(excluded, true);
    let requests = r1 + r2 + r3;
    key_order_holds_every_key_once::<Address>(setup.dom());
    artifacts_are_requested(setup, targeted, order);
    assert forall|i: int, k: int|
        #![trigger requests[i].selectors[k]]
        0 <= i < requests.len() && 0 <= k < requests[i].selectors.len() implies is_known(
        setup,
        targets,
        requests[i].address,
        requests[i].selectors[k],
    ) by {
        if i < r1.len() {
            assert(requests[i] == r1[i]);
            let at = r1[i].address;
            assert(order.contains(at));
            assert(requests[i].selectors[k] == targeted[setup[at].identifier][k]);
        } else if i < r1.len() + r2.len() {
            assert(requests[i] == r2[i - r1.len()]);
            assert(requests[i].selectors[k] == chosen[i - r1.len()].selectors@[k]);
        } else {
            assert(requests[i] == r3[i - r1.len() - r2.len()]);
            assert(requests[i].selectors[k] == excluded[i - r1.len() - r2.len()].selectors@[k]);
        }
    }
    sound_requests_do_not_fail(setup, targets, requests, requests.len());
    let named = with_requests(setup, targets, requests, requests.len()).0;
    if all_named(chosen, address).len() == 0 && named.dom().contains(address) {
        let functions = named[address].abi.all_functions();
        let left_out = all_named(excluded, address);
        let selectors = default_selectors(functions, left_out);
        default_selection_is_exact(functions, left_out);
        assert forall|i: int| 0 <= i < selectors.len() implies named[address].abi.has_selector(
            #[trigger] selectors[i],
        ) by {
            assert(selectors.contains(selectors[i]));
            let k = choose|k: int|
                0 <= k < functions.len() && called_by_default(#[trigger] functions[k], left_out)
                    && functions[k].selector() == selectors[i];
            assert(functions[k].selector() == selectors[i]);
        }
        selectors_are_known(named[address].abi, selectors);
    }
}

/// The contract at `address` has a function with the selector: the target there, or else what was deployed
/// there.
pub open spec fn is_known(
    setup: Map<Address, SetupView>,
    targets: Map<Address, TargetView>,
    address: Address,
    selector: Selector,
) -> bool {
    ||| targets.dom().contains(address) && targets[address].abi.has_selector(selector)
    ||| !targets.dom().contains(address) && setup.dom().contains(address) && setup[address].abi.has_selector(selector)
}

/// A request for an address that is no target and where nothing was deployed is refused for that, and one for
/// a function that the contract does not have for the first such function; any other is taken, and one without
/// selectors changes nothing.
pub proof fn refused_requests_name_the_reason(
    setup: Map<Address, SetupView>,
    targets: Map<Address, TargetView>,
    request: RequestView,
    k: int,
)
    ensures
        ({
            let (after, error) = with_request(setup, targets, request);
            let at = request.address;
            let target = targets.dom().contains(at);
            let missing = !target && !setup.dom().contains(at);
            let abi = if target {
                targets[at].abi
            } else {
                setup[at].abi
            };
            &&& request.selectors.len() == 0 ==> after == targets && error is None
            &&& request.selectors.len() > 0 && missing ==> after == targets && error == Some(
                SelectionErrorView::NoContract { address: at, should_exclude: request.should_exclude },
            )
            &&& request.selectors.len() > 0 && !missing ==> {
                &&& (error is None) == (forall|j: int|
                    0 <= j < request.selectors.len() ==> abi.has_selector(#[trigger] request.selectors[j]))
                &&& 0 <= k < request.selectors.len() && !abi.has_selector(request.selectors[k]) && (forall|j: int|
                    0 <= j < k ==> abi.has_selector(#[trigger] request.selectors[j])) ==> error == Some(
                    SelectionErrorView::UnknownFunction {
                        identifier: if target {
                            targets[at].identifier
                        } else {
                            setup[at].identifier
                        },
                        selector: request.selectors[k],
                    },
                )
            }
        }),
{
    let at = request.address;
    let abi = if targets.dom().contains(at) {
        targets[at].abi
    } else {
        setup[at].abi
    };
    known_prefix_is_the_longest(abi, request.selectors);
    let known = known_prefix(abi, request.selectors) as int;
    if known < request.selectors.len() {
        assert(!abi.has_selector(request.selectors[known]));
    }
}

/// A deployed contract is called exactly where the test contract names it, or names none; where it is not
/// excluded; where its artifact is let through; and where it is neither of the addresses with a meaning of
/// their own. The test contract is called exactly where it names itself. What is called keeps its identifier,
/// interface and layout, with no function chosen or excluded.
pub proof fn called_contracts_are_those_asked_for(
    setup: Map<Address, SetupView>,
    to: Address,
    answers: ContractAnswers,
    constants: ChainConstants,
    address: Address,
)
    requires
        setup.dom().contains(address),
    ensures
        ({
            let called = called_contracts(setup, to, answers, constants);
            let named = exists|i: int| 0 <= i < answers.selected@.len() && answers.selected@[i] == address;
            let left_out = exists|i: int| 0 <= i < answers.excluded@.len() && answers.excluded@[i] == address;
            let admitted = exists|i: int|
                0 <= i < answers.admitted@.len() && (#[trigger] answers.admitted@[i])@ == setup[address].identifier;
            &&& address == to ==> called.dom().contains(address) == named
            &&& address != to ==> called.dom().contains(address) == ((answers.selected@.len() == 0 || named)
                && !left_out && admitted && address != constants.cheatcode && address != constants.console)
            &&& called.dom().contains(address) ==> {
                &&& called[address].identifier == setup[address].identifier
                &&& called[address].abi == setup[address].abi
                &&& called[address].storage_layout == setup[address].storage_layout
                &&& called[address].targeted_functions.len() == 0
                &&& called[address].excluded_functions.len() == 0
            }
        }),
{
    let identifiers = texts(answers.admitted@);
    if identifiers.contains(setup[address].identifier) {
        let i = identifiers.index_of(setup[address].identifier);
        assert(answers.admitted@[i]@ == setup[address].identifier);
    }
    if exists|i: int|
        0 <= i < answers.admitted@.len() && (#[trigger] answers.admitted@[i])@ == setup[address].identifier {
        let i = choose|i: int|
            0 <= i < answers.admitted@.len() && (#[trigger] answers.admitted@[i])@ == setup[address].identifier;
        assert(identifiers[i] == setup[address].identifier);
    }
}

/// No sender is excluded but those that the test contract excludes, those with a meaning of their own, and the
/// zero address.
pub proof fn no_other_senders_are_excluded(
    answers: ContractAnswers,
    constants: ChainConstants,
    excluded: Seq<Address>,
    sender: Address,
)
    requires
        with_zero_address(never_senders(answers, constants), excluded),
        excluded.contains(sender),
    ensures
        ({
            ||| answers.excluded_senders@.contains(sender)
            ||| constants.precompiles@.contains(sender)
            ||| sender == constants.cheatcode
            ||| sender == constants.console
            ||| sender == constants.create2_deployer
            ||| forall|i: int| 0 <= i < 20 ==> #[trigger] sender.bytes@[i] == 0
        }),
{
    let never = never_senders(answers, constants);
    let n = answers.excluded_senders@.len() as int;
    let i = excluded.index_of(sender);
    if i < never.len() {
        assert(never[i] == sender) by {
            if excluded != never {
                assert(excluded.drop_last()[i] == excluded[i]);
            }
        }
        if i < n {
            assert(answers.excluded_senders@[i] == sender);
        } else if i >= n + 3 {
            assert(constants.precompiles@[i - n - 3] == sender);
        }
    } else {
        let z = choose|z: int| 0 <= z < excluded.len() && is_zero_address(#[trigger] excluded[z]);
        if z < never.len() {
            assert(excluded.drop_last()[z] == never[z]);
            assert(is_zero_address(never[z]));
        }
        assert(z == i);
    }
}

/// The artifact that a name stands for is the first contract of the project with that name or identifier, and
/// there is none where no contract has it.
pub proof fn names_stand_for_the_first_match(project: Seq<ProjectView>, identifier: Seq<char>, i: int)
    ensures
        0 <= i < project.len() && (project[i].name == identifier || project[i].identifier == identifier) && (forall|
            j: int,
        |
            0 <= j < i ==> (#[trigger] project[j]).name != identifier && project[j].identifier != identifier)
            ==> find_artifact(project, identifier) == Some(project[i]),
        (forall|j: int|
            0 <= j < project.len() ==> (#[trigger] project[j]).name != identifier && project[j].identifier
                != identifier) ==> find_artifact(project, identifier) is None,
    decreases project.len(),
{
    if project.len() > 0 {
        let front = project.drop_last();
        names_stand_for_the_first_match(front, identifier, i);
        if forall|j: int|
            0 <= j < project.len() - 1 ==> (#[trigger] project[j]).name != identifier && project[j].identifier
                != identifier {
            assert forall|j: int| 0 <= j < front.len() implies (#[trigger] front[j]).name != identifier
                && front[j].identifier != identifier by {
                assert(front[j] == project[j]);
            }
            names_stand_for_the_first_match(front, identifier, -1);
        }
        if 0 <= i < front.len() {
            assert(front[i] == project[i]);
            if forall|j: int|
                0 <= j < i ==> (#[trigger] project[j]).name != identifier && project[j].identifier != identifier {
                assert forall|j: int| 0 <= j < i implies (#[trigger] front[j]).name != identifier
                    && front[j].identifier != identifier by {
                    assert(front[j] == project[j]);
                }
            }
        }
    }
}

/// What is called at an address that interfaces are named for has the name of the first one that the project
/// has, its layout, and whether it receives transfers and how its fallback function may touch state; where the
/// project has none of them nothing is called there for interfaces.
pub proof fn the_first_interface_names_the_target(
    project: Seq<ProjectView>,
    pairs: Seq<(Address, Seq<char>)>,
    address: Address,
    first: int,
)
    requires
        0 <= first <= pairs.len(),
        forall|i: int|
            0 <= i < first && (#[trigger] pairs[i]).0 == address ==> find_artifact(project, pairs[i].1) is None,
        first < pairs.len() ==> pairs[first].0 == address && find_artifact(project, pairs[first].1) is Some,
    ensures
        ({
            let all = combined_interfaces(project, pairs);
            &&& first == pairs.len() ==> !all.dom().contains(address)
            &&& first < pairs.len() ==> {
                let contract = find_artifact(project, pairs[first].1)->0;
                &&& all.dom().contains(address)
                &&& all[address].identifier == pairs[first].1
                &&& all[address].storage_layout == contract.storage_layout
                &&& all[address].abi.receive == contract.abi.receive
                &&& all[address].abi.fallback == contract.abi.fallback
                &&& all[address].targeted_functions.len() == 0
                &&& all[address].excluded_functions.len() == 0
            }
        }),
    decreases pairs.len(),
{
    if pairs.len() > 0 {
        let front = pairs.drop_last();
        assert forall|i: int| 0 <= i < front.len() && i < first && (#[trigger] front[i]).0 == address implies find_artifact(
            project,
            front[i].1,
        ) is None by {
            assert(front[i] == pairs[i]);
        }
        assert(pairs[pairs.len() - 1] == pairs.last());
        if first < front.len() {
            assert(front[first] == pairs[first]);
            the_first_interface_names_the_target(project, front, address, first);
        } else {
            the_first_interface_names_the_target(project, front, address, front.len() as int);
        }
    }
}

/// Interfaces take the place of a deployed contract at their address, and all other targets stay as they are.
pub proof fn interfaces_take_the_place_of_targets(
    project: Seq<ProjectView>,
    targets: Map<Address, TargetView>,
    interfaces: Seq<(Address, Seq<Seq<char>>)>,
    address: Address,
)
    ensures
        ({
            let combined = combined_interfaces(project, interface_pairs(interfaces));
            let after = with_interfaces(project, targets, interfaces);
            &&& after.dom().contains(address) == (targets.dom().contains(address) || combined.dom().contains(address))
            &&& combined.dom().contains(address) ==> after[address] == combined[address]
            &&& !combined.dom().contains(address) && targets.dom().contains(address) ==> after[address]
                == targets[address]
        }),
{
}

/// Every interface that is named for an address is looked at for that address, and nothing else is.
pub proof fn every_named_interface_is_looked_at(interfaces: Seq<(Address, Seq<Seq<char>>)>, i: int, k: int)
    ensures
        0 <= i < interfaces.len() && 0 <= k < interfaces[i].1.len() ==> interface_pairs(interfaces).contains(
            (interfaces[i].0, interfaces[i].1[k]),
        ),
        forall|p: int|
            0 <= p < interface_pairs(interfaces).len() ==> exists|j: int|
                0 <= j < interfaces.len() && (#[trigger] interfaces[j]).0 == (#[trigger] interface_pairs(interfaces)[p]).0
                    && interfaces[j].1.contains(interface_pairs(interfaces)[p].1),
    decreases interfaces.len(),
{
    if interfaces.len() > 0 {
        let rest = interfaces.drop_last();
        let last = interfaces[interfaces.len() - 1];
        let front = interface_pairs(rest);
        let all = interface_pairs(interfaces);
        every_named_interface_is_looked_at(rest, i, k);
        if 0 <= i < interfaces.len() && 0 <= k < interfaces[i].1.len() {
            let wanted = (interfaces[i].0, interfaces[i].1[k]);
            if i < rest.len() {
                assert(rest[i] == interfaces[i]);
                assert(front.contains(wanted));
                assert(all[front.index_of(wanted)] == wanted);
            } else {
                assert(all[front.len() + k] == wanted);
            }
        }
        assert forall|p: int| 0 <= p < all.len() implies exists|j: int|
            0 <= j < interfaces.len() && (#[trigger] interfaces[j]).0 == (#[trigger] all[p]).0
                && interfaces[j].1.contains(all[p].1) by {
            if p < front.len() {
                assert(all[p] == front[p]);
                let j = choose|j: int|
                    0 <= j < rest.len() && (#[trigger] rest[j]).0 == front[p].0 && rest[j].1.contains(front[p].1);
                assert(interfaces[j] == rest[j]);
            } else {
                let k = p - front.len();
                assert(all[p] == (last.0, last.1[k]));
                assert(last.1.contains(last.1[k]));
                assert(interfaces[interfaces.len() - 1].0 == all[p].0);
            }
        }
    }
}

/// Selecting contracts fails for want of contracts exactly where no other error came first and nothing is left
/// to call; so where it does not fail there is something to call.
pub proof fn there_is_something_to_call(
    setup: Map<Address, SetupView>,
    project: Seq<ProjectView>,
    targeted: Map<Seq<char>, Seq<Selector>>,
    to: Address,
    answers: ContractAnswers,
    constants: ChainConstants,
)
    ensures
        ({
            let (targets, error) = selected_targets(setup, project, targeted, to, answers, constants);
            &&& error is None ==> exists|address: Address| #[trigger] targets.dom().contains(address)
            &&& error == Some(SelectionErrorView::NoContracts) ==> targets.dom() == Set::<Address>::empty()
        }),
{
    let called = called_contracts(setup, to, answers, constants);
    let interfaced = with_interfaces(project, called, interface_models(answers.interfaces@));
    let r1 = artifact_requests(setup, targeted, key_order::<Address>(setup.dom()));
    let requests = r1 + named_requests(answers.targeted_selectors@, false) + named_requests(
        answers.excluded_selectors@,
        true,
    );
    requests_fail_for_their_own_reasons(setup, interfaced, requests, requests.len());
    let (targets, error) = selected_targets(setup, project, targeted, to, answers, constants);
    if error == Some(SelectionErrorView::NoContracts) {
        assert(targets.dom() =~= Set::<Address>::empty());
    }
    if error is None {
        assert(!(targets.dom() =~= Set::<Address>::empty()));
    }
}

/// Requests do not fail for want of contracts.
proof fn requests_fail_for_their_own_reasons(
    setup: Map<Address, SetupView>,
    targets: Map<Address, TargetView>,
    requests: Seq<RequestView>,
    n: nat,
)
    ensures
        with_requests(setup, targets, requests, n).1 != Some(SelectionErrorView::NoContracts),
    decreases n,
{
    if n > 0 {
        requests_fail_for_their_own_reasons(setup, targets, requests, (n - 1) as nat);
    }
}

/// What the test contract excludes and chooses holds of what a campaign calls in the end: where contracts and
/// senders were selected without error, each function that `excludeSelectors()` names is excluded from the
/// contract at its address, and each that `targetSelectors()` names is chosen of it.
pub proof fn campaigns_take_every_named_selector(
    setup: Map<Address, SetupView>,
    project: Seq<ProjectView>,
    targeted: Map<Seq<char>, Seq<Selector>>,
    to: Address,
    answers: ContractAnswers,
    constants: ChainConstants,
    i: int,
    k: int,
)
    requires
        selected_targets(setup, project, targeted, to, answers, constants).1 is None,
    ensures
        ({
            let targets = selected_targets(setup, project, targeted, to, answers, constants).0;
            let excluded = answers.excluded_selectors@;
            let chosen = answers.targeted_selectors@;
            &&& 0 <= i < excluded.len() && 0 <= k < excluded[i].selectors@.len() ==> {
                &&& targets.dom().contains(excluded[i].addr)
                &&& targets[excluded[i].addr].excluded_functions.contains(excluded[i].selectors@[k])
            }
            &&& 0 <= i < chosen.len() && 0 <= k < chosen[i].selectors@.len() ==> {
                &&& targets.dom().contains(chosen[i].addr)
                &&& targets[chosen[i].addr].targeted_functions.contains(chosen[i].selectors@[k])
            }
        }),
{
    let called = called_contracts(setup, to, answers, constants);
    let interfaced = with_interfaces(project, called, interface_models(answers.interfaces@));
    every_named_selector_is_taken(
        setup,
        targeted,
        interfaced,
        to,
        answers.targeted_selectors@,
        answers.excluded_selectors@,
        i,
        k,
    );
}

/// What is asked for is called in the end: where contracts and senders were selected without error, every
/// deployed contract that is asked for is a target, under its own identifier and with its own interface where
/// no interface is named for its address.
pub proof fn campaigns_call_what_is_asked_for(
    setup: Map<Address, SetupView>,
    project: Seq<ProjectView>,
    targeted: Map<Seq<char>, Seq<Selector>>,
    to: Address,
    answers: ContractAnswers,
    constants: ChainConstants,
    address: Address,
    selector: Selector,
)
    requires
        selected_targets(setup, project, targeted, to, answers, constants).1 is None,
        setup.dom().contains(address),
        answers.selected@.contains(address) || answers.selected@.len() == 0 && address != to,
        address != to ==> !answers.excluded@.contains(address) && texts(answers.admitted@).contains(
            setup[address].identifier,
        ) && address != constants.cheatcode && address != constants.console,
    ensures
        ({
            let targets = selected_targets(setup, project, targeted, to, answers, constants).0;
            &&& targets.dom().contains(address)
            &&& (forall|i: int|
                0 <= i < answers.interfaces@.len() ==> (#[trigger] answers.interfaces@[i]).addr != address) ==> {
                &&& targets[address].identifier == setup[address].identifier
                &&& targets[address].abi == setup[address].abi
            }
        }),
{
    let called = called_contracts(setup, to, answers, constants);
    let interfaces = interface_models(answers.interfaces@);
    let pairs = interface_pairs(interfaces);
    let interfaced = with_interfaces(project, called, interfaces);
    nothing_else_is_selected(
        setup,
        targeted,
        interfaced,
        to,
        answers.targeted_selectors@,
        answers.excluded_selectors@,
        address,
        selector,
    );
    if forall|i: int| 0 <= i < answers.interfaces@.len() ==> (#[trigger] answers.interfaces@[i]).addr != address {
        every_named_interface_is_looked_at(interfaces, 0, 0);
        assert forall|i: int| 0 <= i < pairs.len() && (#[trigger] pairs[i]).0 == address implies find_artifact(
            project,
            pairs[i].1,
        ) is None by {
            let j = choose|j: int|
                0 <= j < interfaces.len() && (#[trigger] interfaces[j]).0 == pairs[i].0 && interfaces[j].1.contains(
                    pairs[i].1,
                );
            assert(answers.interfaces@[j].addr == address);
        }
        the_first_interface_names_the_target(project, pairs, address, pairs.len() as int);
    }
}

/// A function of the test contract is called by default exactly where it may change state, is not reserved, and
/// no excluded selector is its own.
pub proof fn only_plain_functions_are_called_by_default(
    function: AbiFunctionView,
    excluded: Seq<Selector>,
    functions: Seq<AbiFunctionView>,
    i: int,
)
    ensures
        called_by_default(function, excluded) == ((function.state_mutability == StateMutability::NonPayable
            || function.state_mutability == StateMutability::Payable) && !function.reserved && forall|k: int|
            0 <= k < excluded.len() ==> #[trigger] excluded[k] != function.selector()),
        0 <= i < functions.len() && called_by_default(functions[i], excluded) ==> default_selectors(
            functions,
            excluded,
        ).contains(functions[i].selector()),
        default_selectors(functions, excluded).len() <= functions.len(),
    decreases functions.len(),
{
    default_selection_is_exact(functions, excluded);
    if functions.len() > 0 {
        only_plain_functions_are_called_by_default(function, excluded, functions.drop_last(), i);
    }
}

/// Interfaces that are named for an address are called there in the end, under the name of the first one that the
/// project has, and with the functions of all of them.
pub proof fn campaigns_call_named_interfaces(
    setup: Map<Address, SetupView>,
    project: Seq<ProjectView>,
    targeted: Map<Seq<char>, Seq<Selector>>,
    to: Address,
    answers: ContractAnswers,
    constants: ChainConstants,
    address: Address,
    selector: Selector,
)
    requires
        selected_targets(setup, project, targeted, to, answers, constants).1 is None,
    ensures
        ({
            let targets = selected_targets(setup, project, targeted, to, answers, constants).0;
            let combined = combined_interfaces(project, interface_pairs(interface_models(answers.interfaces@)));
            combined.dom().contains(address) ==> {
                &&& targets.dom().contains(address)
                &&& targets[address].identifier == combined[address].identifier
                &&& targets[address].abi == combined[address].abi
                &&& targets[address].storage_layout == combined[address].storage_layout
            }
        }),
{
    let called = called_contracts(setup, to, answers, constants);
    let interfaced = with_interfaces(project, called, interface_models(answers.interfaces@));
    nothing_else_is_selected(
        setup,
        targeted,
        interfaced,
        to,
        answers.targeted_selectors@,
        answers.excluded_selectors@,
        address,
        selector,
    );
}

/// Every selector that was chosen for the artifact of a deployed contract is chosen of that contract in the end.
pub proof fn campaigns_choose_selectors_of_artifacts(
    setup: Map<Address, SetupView>,
    project: Seq<ProjectView>,
    targeted: Map<Seq<char>, Seq<Selector>>,
    to: Address,
    answers: ContractAnswers,
    constants: ChainConstants,
    at: Address,
    k: int,
)
    requires
        setup.dom().finite(),
        setup.dom().contains(at),
        targeted.dom().contains(setup[at].identifier),
        0 <= k < targeted[setup[at].identifier].len(),
        selected_targets(setup, project, targeted, to, answers, constants).1 is None,
    ensures
        ({
            let targets = selected_targets(setup, project, targeted, to, answers, constants).0;
            &&& targets.dom().contains(at)
            &&& targets[at].targeted_functions.contains(targeted[setup[at].identifier][k])
        }),
{
    let called = called_contracts(setup, to, answers, constants);
    let interfaced = with_interfaces(project, called, interface_models(answers.interfaces@));
    selectors_of_artifacts_are_chosen(
        setup,
        targeted,
        interfaced,
        to,
        answers.targeted_selectors@,
        answers.excluded_selectors@,
        at,
        k,
    );
}

/// What the test contract names is known by all of its parts, one by one.
pub proof fn named_interfaces_are_known_by_their_parts(
    interfaces: Seq<FuzzInterface>,
    requests: Seq<SelectorRequest>,
    i: int,
    k: int,
)
    ensures
        interface_models(interfaces).len() == interfaces.len(),
        0 <= i < interfaces.len() ==> {
            &&& interface_models(interfaces)[i].0 == interfaces[i].addr
            &&& interface_models(interfaces)[i].1.len() == interfaces[i].artifacts@.len()
            &&& 0 <= k < interfaces[i].artifacts@.len() ==> interface_models(interfaces)[i].1[k]
                == interfaces[i].artifacts@[k]@
        },
        request_models(requests).len() == requests.len(),
        0 <= i < requests.len() ==> {
            &&& request_models(requests)[i].address == requests[i].address
            &&& request_models(requests)[i].selectors == requests[i].selectors@
            &&& request_models(requests)[i].should_exclude == requests[i].should_exclude
        },
{
}

} // verus!
