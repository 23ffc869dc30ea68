//! Contract interfaces: functions, their selectors and the encoding of their inputs.

use alloy_dyn_abi::{DynSolType, DynSolValue, JsonAbiExt};
use alloy_primitives::{I256, U256};
use vstd::prelude::*;
use vstd::string::*;

use crate::fixed::{FixedBytes, Selector};
use crate::ordered::{
    aligned_entries, entry_keys, key_order, key_order_holds_every_key_once, map_of, map_of_next,
    sorted_entries_follow_key_order, sorted_entry_is_mapped, sorted_prefix, OrderedKey, OrderedMap,
};
use crate::sol::{type_matches, value_models, SolType, SolTypeView, SolValue, SolValueView};

verus! {

/// How a function may touch the state of the chain.
#[derive(Clone, Copy, Debug, PartialEq, Eq, Structural)]
pub enum StateMutability {
    Pure,
    View,
    NonPayable,
    Payable,
}

impl StateMutability {
    /// The function may change state.
    pub open spec fn changes_state(self) -> bool {
        self != StateMutability::Pure && self != StateMutability::View
    }

    /// Whether the function may change state.
    pub fn is_state_changing(&self) -> (r: bool)
        ensures
            r == self.changes_state(),
    {
        match self {
            StateMutability::Pure | StateMutability::View => false,
            _ => true,
        }
    }
}

/// An input of a function: its name and its canonical type name, such as `(uint256,address)[2]`.
#[derive(Debug)]
pub struct AbiParam {
    pub name: String,
    pub selector_type: String,
}

/// The model of an [`AbiParam`].
pub struct AbiParamView {
    pub name: Seq<char>,
    pub selector_type: Seq<char>,
}

impl View for AbiParam {
    type V = AbiParamView;

    open spec fn view(&self) -> AbiParamView {
        AbiParamView { name: self.name@, selector_type: self.selector_type@ }
    }
}

/// A function of a contract. `reserved` marks the names that the test framework keeps for
/// itself.
#[derive(Debug)]
pub struct AbiFunction {
    pub name: String,
    pub inputs: Vec<AbiParam>,
    pub state_mutability: StateMutability,
    pub reserved: bool,
}

/// The model of an [`AbiFunction`].
pub struct AbiFunctionView {
    pub name: Seq<char>,
    pub inputs: Seq<AbiParamView>,
    pub state_mutability: StateMutability,
    pub reserved: bool,
}

impl View for AbiFunction {
    type V = AbiFunctionView;

    open spec fn view(&self) -> AbiFunctionView {
        AbiFunctionView {
            name: self.name@,
            inputs: Seq::new(self.inputs@.len(), |i: int| self.inputs@[i]@),
            state_mutability: self.state_mutability,
            reserved: self.reserved,
        }
    }
}

impl AbiFunctionView {
    /// The canonical type names of the inputs.
    pub open spec fn types(self) -> Seq<Seq<char>> {
        Seq::new(self.inputs.len(), |i: int| self.inputs[i].selector_type)
    }

    /// The selector of the function.
    pub open spec fn selector(self) -> Selector {
        function_selector(self.name, self.types())
    }
}

/// The models of `functions`.
pub open spec fn function_models(functions: Seq<AbiFunction>) -> Seq<AbiFunctionView> {
    Seq::new(functions.len(), |i: int| functions[i]@)
}

/// The texts of `strings`.
pub open spec fn texts(strings: Seq<String>) -> Seq<Seq<char>> {
    Seq::new(strings.len(), |i: int| strings[i]@)
}

/// The selector of the function with this name and these canonical input types: the first four
/// bytes of the Keccak-256 hash of its signature.
pub uninterp spec fn function_selector(name: Seq<char>, types: Seq<Seq<char>>) -> Selector;

/// `alloy_json_abi::Function::selector`, which hashes the name and the canonical input types.
#[verifier::external_body]
pub(crate) fn selector_of(name: &str, types: &Vec<String>) -> (r: Selector)
    ensures
        r == function_selector(name@, texts(types@)),
{
    let function = alloy_json_abi::Function {
        name: name.to_string(),
        inputs: types.iter().map(|ty| alloy_json_abi::Param { ty: ty.clone(), ..Default::default() }).collect(),
        outputs: Vec::new(),
        state_mutability: alloy_json_abi::StateMutability::NonPayable,
    };
    FixedBytes { bytes: function.selector().0 }
}

/// The type that a canonical Solidity type name stands for, if it stands for one.
pub uninterp spec fn sol_type_named(name: Seq<char>) -> Option<SolTypeView>;

/// `alloy_dyn_abi::DynSolType`, a Solidity type.
#[verifier::external_type_specification]
#[verifier::external_body]
pub struct ExDynSolType(DynSolType);

/// The type that an `alloy_dyn_abi::DynSolType` stands for.
#[verifier::external_body]
fn sol_type_of(ty: DynSolType) -> SolType {
    match ty {
        DynSolType::Bool => SolType::Bool,
        DynSolType::Int(n) => SolType::Int(n),
        DynSolType::Uint(n) => SolType::Uint(n),
        DynSolType::FixedBytes(n) => SolType::FixedBytes(n),
        DynSolType::Address => SolType::Address,
        DynSolType::Function => SolType::Function,
        DynSolType::Bytes => SolType::Bytes,
        DynSolType::String => SolType::String,
        DynSolType::Array(t) => SolType::Array(Box::new(sol_type_of(*t))),
        DynSolType::FixedArray(t, n) => SolType::FixedArray(Box::new(sol_type_of(*t)), n),
        DynSolType::Tuple(ts) => SolType::Tuple(ts.into_iter().map(sol_type_of).collect()),
    }
}

/// `alloy_dyn_abi::DynSolType::parse`: the type that a name stands for, if any.
#[verifier::external_body]
pub(crate) fn parse_sol_type(name: &str) -> (r: Option<SolType>)
    ensures
        r is Some == sol_type_named(name@) is Some,
        r matches Some(ty) ==> sol_type_named(name@) == Some(ty@),
{
    DynSolType::parse(name).ok().map(sol_type_of)
}

/// `alloy_dyn_abi::DynSolValue`, a Solidity value.
#[verifier::external_type_specification]
#[verifier::external_body]
pub struct ExDynSolValue(DynSolValue);

/// The `alloy_dyn_abi::DynSolValue` that holds what `value` holds.
#[verifier::external_body]
fn dyn_value(value: &SolValue) -> DynSolValue {
    match value {
        SolValue::Bool(b) => DynSolValue::Bool(*b),
        SolValue::Int(w, n) => DynSolValue::Int(I256::from_be_bytes(w.bytes), *n),
        SolValue::Uint(w, n) => DynSolValue::Uint(U256::from_be_bytes(w.bytes), *n),
        SolValue::FixedBytes(w, n) => DynSolValue::FixedBytes(w.bytes.into(), *n),
        SolValue::Address(a) => DynSolValue::Address(a.bytes.into()),
        SolValue::Function(f) => DynSolValue::Function(f.bytes.into()),
        SolValue::Bytes(b) => DynSolValue::Bytes(b.clone()),
        SolValue::String(s) => DynSolValue::String(s.clone()),
        sequence => dyn_sequence(sequence),
    }
}

/// The `alloy_dyn_abi::DynSolValue` that holds the elements that an array or a tuple holds.
#[verifier::external_body]
fn dyn_sequence(value: &SolValue) -> DynSolValue {
    match value {
        SolValue::Array(vs) => DynSolValue::Array(vs.iter().map(dyn_value).collect()),
        SolValue::FixedArray(vs) => DynSolValue::FixedArray(vs.iter().map(dyn_value).collect()),
        SolValue::Tuple(vs) => DynSolValue::Tuple(vs.iter().map(dyn_value).collect()),
        scalar => dyn_value(scalar),
    }
}

/// The ABI encoding of a list of values, without a selector.
pub uninterp spec fn encoded_values(values: Seq<SolValueView>) -> Seq<u8>;

/// Whether every type name stands for a type and every value has the type that stands at its
/// place.
pub open spec fn inputs_match(types: Seq<Seq<char>>, values: Seq<SolValueView>) -> bool {
    &&& types.len() == values.len()
    &&& forall|i: int|
        0 <= i < types.len() ==> {
            &&& sol_type_named(#[trigger] types[i]) is Some
            &&& type_matches(sol_type_named(types[i])->0, values[i])
        }
}

/// `abi_encode_input` of `alloy_dyn_abi::JsonAbiExt`, on a function: the selector, then the
/// encoding of the values, which is nothing where there are none. It succeeds exactly on as many
/// values as there are inputs, each of the type of its input.
#[verifier::external_body]
pub(crate) fn abi_encode_input(name: &str, types: &Vec<String>, values: &Vec<SolValue>) -> (r: Option<Vec<u8>>)
    ensures
        r is Some == inputs_match(texts(types@), value_models(values@)),
        r matches Some(bytes) ==> bytes@ == function_selector(name@, texts(types@)).bytes@ + encoded_values(
            value_models(values@),
        ),
        r matches Some(bytes) ==> values@.len() == 0 ==> bytes@ == function_selector(name@, texts(types@)).bytes@,
{
    let function = alloy_json_abi::Function {
        name: name.to_string(),
        inputs: types.iter().map(|ty| alloy_json_abi::Param { ty: ty.clone(), ..Default::default() }).collect(),
        outputs: Vec::new(),
        state_mutability: alloy_json_abi::StateMutability::NonPayable,
    };
    function.abi_encode_input(&values.iter().map(dyn_value).collect::<Vec<DynSolValue>>()).ok()
}

impl AbiParam {
    /// The type of the input, if its type name stands for one.
    pub fn sol_type(&self) -> (r: Option<SolType>)
        ensures
            r is Some == sol_type_named(self@.selector_type) is Some,
            r matches Some(ty) ==> sol_type_named(self@.selector_type) == Some(ty@),
    {
        parse_sol_type(self.selector_type.as_str())
    }
}

impl Clone for AbiParam {
    fn clone(&self) -> (r: Self)
        ensures
            r@ == self@,
    {
        AbiParam { name: self.name.clone(), selector_type: self.selector_type.clone() }
    }
}

impl Clone for AbiFunction {
    fn clone(&self) -> (r: Self)
        ensures
            r@ == self@,
    {
        let mut inputs: Vec<AbiParam> = Vec::new();
        let mut i: usize = 0;
        while i < self.inputs.len()
            invariant
                i <= self.inputs@.len(),
                inputs@.len() == i,
                forall|j: int| 0 <= j < i ==> (#[trigger] inputs@[j])@ == self.inputs@[j]@,
            decreases self.inputs@.len() - i,
        {
            inputs.push(self.inputs[i].clone());
            i += 1;
        }
        let r = AbiFunction {
            name: self.name.clone(),
            inputs,
            state_mutability: self.state_mutability,
            reserved: self.reserved,
        };
        assert(r@.inputs =~= self@.inputs);
        r
    }
}

impl AbiFunction {
    /// The canonical type names of the inputs.
    pub fn types(&self) -> (r: Vec<String>)
        ensures
            texts(r@) == self@.types(),
    {
        let mut out: Vec<String> = Vec::new();
        let mut i: usize = 0;
        while i < self.inputs.len()
            invariant
                i <= self.inputs@.len(),
                out@.len() == i,
                forall|j: int| 0 <= j < i ==> (#[trigger] out@[j])@ == self.inputs@[j]@.selector_type,
            decreases self.inputs@.len() - i,
        {
            out.push(self.inputs[i].selector_type.clone());
            i += 1;
        }
        assert(texts(out@) =~= self@.types());
        out
    }

    /// The selector of the function.
    pub fn selector(&self) -> (r: Selector)
        ensures
            r == self@.selector(),
    {
        let types = self.types();
        selector_of(self.name.as_str(), &types)
    }

    /// The calldata of a call with these inputs: the selector, then the encoded values. There is
    /// none unless each input has a type and the value at its place has it.
    pub fn encode_input(&self, values: &Vec<SolValue>) -> (r: Option<Vec<u8>>)
        ensures
            r is Some == inputs_match(self@.types(), value_models(values@)),
            r matches Some(bytes) ==> bytes@ == self@.selector().bytes@ + encoded_values(value_models(values@)),
            r matches Some(bytes) ==> values@.len() == 0 ==> bytes@ == self@.selector().bytes@,
    {
        let types = self.types();
        abi_encode_input(self.name.as_str(), &types, values)
    }
}

/// A copy of `functions`.
pub fn clone_functions(functions: &Vec<AbiFunction>) -> (r: Vec<AbiFunction>)
    ensures
        function_models(r@) == function_models(functions@),
{
    let mut out: Vec<AbiFunction> = Vec::new();
    let mut i: usize = 0;
    while i < functions.len()
        invariant
            i <= functions@.len(),
            out@.len() == i,
            forall|j: int| 0 <= j < i ==> (#[trigger] out@[j])@ == functions@[j]@,
        decreases functions@.len() - i,
    {
        out.push(functions[i].clone());
        i += 1;
    }
    assert(function_models(out@) =~= function_models(functions@));
    out
}

/// The interface of a contract: its functions by name, whether it receives plain transfers, and
/// how its fallback function may touch state, if it has one.
pub struct Abi {
    pub functions: OrderedMap<String, Vec<AbiFunction>>,
    pub receive: bool,
    pub fallback: Option<StateMutability>,
}

/// The model of an [`Abi`].
pub struct AbiView {
    pub functions: Map<Seq<char>, Seq<AbiFunctionView>>,
    pub receive: bool,
    pub fallback: Option<StateMutability>,
}

/// The models of the functions of a map.
pub open spec fn group_models(groups: Map<Seq<char>, Vec<AbiFunction>>) -> Map<Seq<char>, Seq<AbiFunctionView>> {
    groups.map_values(|functions: Vec<AbiFunction>| function_models(functions@))
}

impl View for Abi {
    type V = AbiView;

    open spec fn view(&self) -> AbiView {
        AbiView { functions: group_models(self.functions@), receive: self.receive, fallback: self.fallback }
    }
}

/// The functions under each of `names`, one group after the other.
pub open spec fn functions_named(
    functions: Map<Seq<char>, Seq<AbiFunctionView>>,
    names: Seq<Seq<char>>,
) -> Seq<AbiFunctionView>
    decreases names.len(),
{
    if names.len() == 0 {
        Seq::empty()
    } else {
        functions_named(functions, names.drop_last()) + functions[names.last()]
    }
}

/// Some function of `functions` has the selector.
pub open spec fn any_has_selector(functions: Seq<AbiFunctionView>, selector: Selector) -> bool {
    exists|i: int| 0 <= i < functions.len() && #[trigger] functions[i].selector() == selector
}

/// `first` and behind it `second`, without those of `second` whose selector is there already.
pub open spec fn joined(first: Seq<AbiFunctionView>, second: Seq<AbiFunctionView>) -> Seq<AbiFunctionView>
    decreases second.len(),
{
    if second.len() == 0 {
        first
    } else {
        let front = joined(first, second.drop_last());
        if any_has_selector(front, second.last().selector()) {
            front
        } else {
            front.push(second.last())
        }
    }
}

/// The functions of both, by their names. Where both have functions under a name, they are joined.
pub open spec fn merged_groups(
    a: Map<Seq<char>, Seq<AbiFunctionView>>,
    b: Map<Seq<char>, Seq<AbiFunctionView>>,
) -> Map<Seq<char>, Seq<AbiFunctionView>> {
    Map::new(
        |name: Seq<char>| a.dom().contains(name) || b.dom().contains(name),
        |name: Seq<char>|
            if !a.dom().contains(name) {
                b[name]
            } else if !b.dom().contains(name) {
                a[name]
            } else {
                joined(a[name], b[name])
            },
    )
}

/// No two functions have one selector.
pub open spec fn distinct_selectors(functions: Seq<AbiFunctionView>) -> bool {
    forall|i: int, j: int|
        0 <= i < j < functions.len() ==> #[trigger] functions[i].selector() != #[trigger] functions[j].selector()
}

/// Joined functions are the first ones, and behind them second ones: every selector of either is there,
/// and no other. Where selectors were distinct among the first ones they are so among all, and where
/// all are different nothing is left out.
pub proof fn joining_loses_no_function(first: Seq<AbiFunctionView>, second: Seq<AbiFunctionView>)
    ensures
        first.len() <= joined(first, second).len() <= first.len() + second.len(),
        joined(first, second).take(first.len() as int) == first,
        forall|selector: Selector| #[trigger]
            any_has_selector(joined(first, second), selector) == (any_has_selector(first, selector)
                || any_has_selector(second, selector)),
        forall|i: int|
            first.len() <= i < joined(first, second).len() ==> second.contains(#[trigger] joined(first, second)[i]),
        distinct_selectors(first) ==> distinct_selectors(joined(first, second)),
        distinct_selectors(first + second) ==> joined(first, second) == first + second,
    decreases second.len(),
{
    if second.len() == 0 {
        assert(joined(first, second).take(first.len() as int) =~= first);
        assert(first + second =~= first);
    } else {
        let rest = second.drop_last();
        let last = second.last();
        let front = joined(first, rest);
        let all = joined(first, second);
        joining_loses_no_function(first, rest);
        assert(all.take(first.len() as int) =~= front.take(first.len() as int));
        assert forall|selector: Selector| #[trigger]
            any_has_selector(all, selector) == (any_has_selector(first, selector) || any_has_selector(
                second,
                selector,
            )) by {
            assert(any_has_selector(front, selector) == (any_has_selector(first, selector) || any_has_selector(
                rest,
                selector,
            )));
            if any_has_selector(all, selector) {
                let i = choose|i: int| 0 <= i < all.len() && #[trigger] all[i].selector() == selector;
                if i < front.len() {
                    assert(front[i].selector() == selector);
                } else {
                    assert(second[second.len() - 1].selector() == selector);
                }
                if any_has_selector(rest, selector) {
                    let j = choose|j: int| 0 <= j < rest.len() && #[trigger] rest[j].selector() == selector;
                    assert(second[j].selector() == selector);
                }
            }
            if any_has_selector(front, selector) {
                let i = choose|i: int| 0 <= i < front.len() && #[trigger] front[i].selector() == selector;
                assert(all[i].selector() == selector);
            }
            if any_has_selector(second, selector) {
                let j = choose|j: int| 0 <= j < second.len() && #[trigger] second[j].selector() == selector;
                if j < rest.len() {
                    assert(rest[j].selector() == selector);
                } else if !any_has_selector(front, selector) {
                    assert(all[front.len() as int].selector() == selector);
                }
            }
        }
        assert forall|i: int| first.len() <= i < all.len() implies second.contains(#[trigger] all[i]) by {
            if i < front.len() {
                assert(rest.contains(front[i]));
                let j = rest.index_of(front[i]);
                assert(second[j] == all[i]);
            } else {
                assert(second[second.len() - 1] == all[i]);
            }
        }
        if distinct_selectors(first) {
            assert forall|i: int, j: int| 0 <= i < j < all.len() implies #[trigger] all[i].selector()
                != #[trigger] all[j].selector() by {
                if j < front.len() {
                    assert(front[i].selector() != front[j].selector());
                } else {
                    assert(front[i].selector() == all[i].selector());
                }
            }
        }
        if distinct_selectors(first + second) {
            let both = first + rest;
            assert forall|i: int, j: int| 0 <= i < j < both.len() implies #[trigger] both[i].selector()
                != #[trigger] both[j].selector() by {
                assert((first + second)[i].selector() != (first + second)[j].selector());
            }
            if any_has_selector(front, last.selector()) {
                let i = choose|i: int| 0 <= i < front.len() && #[trigger] front[i].selector() == last.selector();
                assert((first + second)[i].selector() == (first + second)[both.len() as int].selector());
            }
            assert(all =~= first + second);
        }
    }
}

/// The functions under `names` have the selectors of the groups.
proof fn named_functions_have_the_selectors(
    functions: Map<Seq<char>, Seq<AbiFunctionView>>,
    names: Seq<Seq<char>>,
    selector: Selector,
)
    ensures
        any_has_selector(functions_named(functions, names), selector) <==> exists|i: int|
            0 <= i < names.len() && any_has_selector(functions[#[trigger] names[i]], selector),
    decreases names.len(),
{
    if names.len() > 0 {
        let rest = names.drop_last();
        let group = functions[names.last()];
        let front = functions_named(functions, rest);
        let all = functions_named(functions, names);
        named_functions_have_the_selectors(functions, rest, selector);
        if any_has_selector(all, selector) {
            let k = choose|k: int| 0 <= k < all.len() && #[trigger] all[k].selector() == selector;
            if k < front.len() {
                assert(front[k].selector() == selector);
                let i = choose|i: int| 0 <= i < rest.len() && any_has_selector(functions[#[trigger] rest[i]], selector);
                assert(names[i] == rest[i]);
            } else {
                assert(group[k - front.len()].selector() == selector);
                assert(any_has_selector(functions[names[names.len() - 1]], selector));
            }
        }
        if exists|i: int| 0 <= i < names.len() && any_has_selector(functions[#[trigger] names[i]], selector) {
            let i = choose|i: int| 0 <= i < names.len() && any_has_selector(functions[#[trigger] names[i]], selector);
            if i < rest.len() {
                assert(rest[i] == names[i]);
                let k = choose|k: int| 0 <= k < front.len() && #[trigger] front[k].selector() == selector;
                assert(all[k].selector() == selector);
            } else {
                let k = choose|k: int| 0 <= k < group.len() && #[trigger] group[k].selector() == selector;
                assert(all[front.len() + k].selector() == selector);
            }
        }
    }
}

/// Some function under some name has the selector.
pub open spec fn any_group_has_selector(
    functions: Map<Seq<char>, Seq<AbiFunctionView>>,
    selector: Selector,
) -> bool {
    exists|name: Seq<char>| #[trigger] functions.dom().contains(name) && any_has_selector(functions[name], selector)
}

/// An interface has the selectors of the functions under its names.
proof fn interfaces_have_the_selectors_of_their_groups(abi: Abi, selector: Selector)
    requires
        abi.wf(),
    ensures
        abi@.has_selector(selector) == any_group_has_selector(abi@.functions, selector),
{
    let functions = abi@.functions;
    let names = key_order::<String>(functions.dom());
    assert(functions.dom() =~= abi.functions@.dom());
    sorted_entries_follow_key_order(abi.functions.entries@);
    named_functions_have_the_selectors(functions, names, selector);
    if exists|i: int| 0 <= i < names.len() && any_has_selector(functions[#[trigger] names[i]], selector) {
        let i = choose|i: int| 0 <= i < names.len() && any_has_selector(functions[#[trigger] names[i]], selector);
        sorted_entry_is_mapped(abi.functions.entries@, i);
        assert(functions.dom().contains(names[i]));
    }
    if any_group_has_selector(functions, selector) {
        let name = choose|name: Seq<char>| #[trigger]
            functions.dom().contains(name) && any_has_selector(functions[name], selector);
        let i = choose|i: int|
            0 <= i < abi.functions.entries@.len() && #[trigger] abi.functions.entries@[i].0.model() == name;
        assert(names[i] == name);
    }
}

/// Merged groups have the selectors of both, and no other.
pub proof fn merging_loses_no_selector(
    a: Map<Seq<char>, Seq<AbiFunctionView>>,
    b: Map<Seq<char>, Seq<AbiFunctionView>>,
    selector: Selector,
)
    ensures
        any_group_has_selector(merged_groups(a, b), selector) == (any_group_has_selector(a, selector)
            || any_group_has_selector(b, selector)),
{
    let all = merged_groups(a, b);
    if any_group_has_selector(all, selector) {
        let name = choose|name: Seq<char>| #[trigger]
            all.dom().contains(name) && any_has_selector(all[name], selector);
        if a.dom().contains(name) && b.dom().contains(name) {
            joining_loses_no_function(a[name], b[name]);
        }
        assert(a.dom().contains(name) && any_has_selector(a[name], selector) || b.dom().contains(name)
            && any_has_selector(b[name], selector));
    }
    if any_group_has_selector(a, selector) {
        let name = choose|name: Seq<char>| #[trigger] a.dom().contains(name) && any_has_selector(a[name], selector);
        if b.dom().contains(name) {
            joining_loses_no_function(a[name], b[name]);
        }
        assert(all.dom().contains(name) && any_has_selector(all[name], selector));
    }
    if any_group_has_selector(b, selector) {
        let name = choose|name: Seq<char>| #[trigger] b.dom().contains(name) && any_has_selector(b[name], selector);
        if a.dom().contains(name) {
            joining_loses_no_function(a[name], b[name]);
        }
        assert(all.dom().contains(name) && any_has_selector(all[name], selector));
    }
}

/// Whether some function of `functions` has the selector.
fn holds_selector(functions: &Vec<AbiFunction>, selector: Selector) -> (r: bool)
    ensures
        r == any_has_selector(function_models(functions@), selector),
{
    let ghost models = function_models(functions@);
    let mut i: usize = 0;
    while i < functions.len()
        invariant
            i <= functions@.len(),
            models == function_models(functions@),
            forall|j: int| 0 <= j < i ==> #[trigger] models[j].selector() != selector,
        decreases functions@.len() - i,
    {
        assert(models[i as int] == functions@[i as int]@);
        if functions[i].selector() == selector {
            assert(models[i as int].selector() == selector);
            return true;
        }
        i += 1;
    }
    false
}

/// Adds functions behind those that are there, without those whose selector is there already.
fn join_functions(functions: &mut Vec<AbiFunction>, added: &Vec<AbiFunction>)
    ensures
        function_models(final(functions)@) == joined(function_models(old(functions)@), function_models(added@)),
{
    let ghost first = function_models(functions@);
    let ghost second = function_models(added@);
    let mut i: usize = 0;
    assert(second.take(0) =~= Seq::empty());
    while i < added.len()
        invariant
            i <= added@.len(),
            second == function_models(added@),
            function_models(functions@) == joined(first, second.take(i as int)),
        decreases added@.len() - i,
    {
        let ghost before = functions@;
        proof {
            assert(second.take(i + 1).drop_last() =~= second.take(i as int));
            assert(second.take(i + 1).last() == added@[i as int]@);
        }
        if !holds_selector(functions, added[i].selector()) {
            let function = added[i].clone();
            functions.push(function);
            assert(function_models(functions@) =~= function_models(before).push(function@));
        }
        i += 1;
    }
    assert(second.take(i as int) =~= second);
}

impl AbiView {
    /// All functions, in the order of their names.
    pub open spec fn all_functions(self) -> Seq<AbiFunctionView> {
        functions_named(self.functions, key_order::<String>(self.functions.dom()))
    }

    /// The interface with the functions of `other`. Those under one name are joined.
    pub open spec fn extended(self, other: AbiView) -> AbiView {
        AbiView { functions: merged_groups(self.functions, other.functions), ..self }
    }

    /// Some function has the selector.
    pub open spec fn has_selector(self, selector: Selector) -> bool {
        any_has_selector(self.all_functions(), selector)
    }
}

impl Abi {
    /// The groups of functions are in the order of their names.
    pub open spec fn wf(self) -> bool {
        self.functions.wf()
    }

    /// An interface without functions.
    pub fn new() -> (r: Abi)
        ensures
            r.wf(),
            r@ == (AbiView { functions: Map::empty(), receive: false, fallback: None }),
    {
        let r = Abi { functions: OrderedMap::new(), receive: false, fallback: None };
        assert(r@.functions =~= Map::empty());
        r
    }

    /// Whether the groups of functions are in the order of their names.
    pub fn is_valid(&self) -> (r: bool)
        ensures
            r == self.wf(),
    {
        self.functions.is_sorted()
    }

    /// Adds `function` behind the functions of its name.
    pub fn add_function(&mut self, function: AbiFunction)
        requires
            old(self).wf(),
        ensures
            final(self).wf(),
            final(self)@ == (AbiView {
                functions: old(self)@.functions.insert(
                    function@.name,
                    if old(self)@.functions.dom().contains(function@.name) {
                        old(self)@.functions[function@.name].push(function@)
                    } else {
                        seq![function@]
                    },
                ),
                ..old(self)@
            }),
    {
        let name = function.name.clone();
        let mut group = match self.functions.get(&name) {
            Some(group) => clone_functions(group),
            None => Vec::new(),
        };
        let ghost before = group@;
        assert(old(self)@.functions.dom().contains(function@.name) ==> function_models(before)
            == old(self)@.functions[function@.name]);
        group.push(function);
        let ghost after = group@;
        assert(function_models(after) =~= function_models(before).push(function@));
        self.functions.insert(name, group);
        assert(function_models(before).len() == 0 ==> function_models(after) =~= seq![function@]);
        assert(self@.functions =~= old(self)@.functions.insert(function@.name, function_models(after)));
    }

    /// Adds the functions of `other`. Those under one name are joined, so no function is lost.
    pub fn extend(&mut self, other: &Abi)
        requires
            old(self).wf(),
            other.wf(),
        ensures
            final(self).wf(),
            final(self)@ == old(self)@.extended(other@),
            forall|selector: Selector| #[trigger]
                final(self)@.has_selector(selector) == (old(self)@.has_selector(selector) || other@.has_selector(
                    selector,
                )),
    {
        let ghost entries = other.functions.entries@;
        let ghost given = self@.functions;
        let mut i: usize = 0;
        assert(given =~= merged_groups(given, group_models(map_of(entries.take(0)))));
        while i < other.functions.entries.len()
            invariant
                i <= entries.len(),
                entries == other.functions.entries@,
                other.wf(),
                self.wf(),
                self.receive == old(self).receive,
                self.fallback == old(self).fallback,
                given == old(self)@.functions,
                self@.functions == merged_groups(given, group_models(map_of(entries.take(i as int)))),
            decreases entries.len() - i,
        {
            let ghost before = self@.functions;
            let entry = &other.functions.entries[i];
            let name = entry.0.clone();
            let ghost front = map_of(entries.take(i as int));
            proof {
                sorted_prefix(entries, i as int);
                map_of_next(entries, i as int);
                assert(!group_models(front).dom().contains(name@));
                assert(self.functions@.dom() =~= before.dom());
            }
            let group = match self.functions.get(&name) {
                Some(known) => {
                    assert(function_models(known@) == before[name@]);
                    let mut group = clone_functions(known);
                    join_functions(&mut group, &entry.1);
                    group
                },
                None => clone_functions(&entry.1),
            };
            let ghost model = function_models(group@);
            self.functions.insert(name, group);
            proof {
                let next = map_of(entries.take(i + 1));
                assert(self@.functions =~= before.insert(name@, model));
                assert(group_models(next) =~= group_models(front).insert(name@, function_models(entry.1@)));
                let merged = merged_groups(given, group_models(next));
                assert(before.dom().contains(name@) == given.dom().contains(name@));
                assert(merged[name@] == model);
                assert forall|other: Seq<char>| merged.dom().contains(other) implies self@.functions[other]
                    == merged[other] by {
                    if other != name@ {
                        assert(before[other] == merged[other]);
                    }
                }
                assert(self@.functions =~= merged);
            }
            i += 1;
        }
        proof {
            assert(entries.take(i as int) =~= entries);
            assert forall|selector: Selector| #[trigger]
                self@.has_selector(selector) == (old(self)@.has_selector(selector) || other@.has_selector(
                    selector,
                )) by {
                interfaces_have_the_selectors_of_their_groups(*self, selector);
                interfaces_have_the_selectors_of_their_groups(*old(self), selector);
                interfaces_have_the_selectors_of_their_groups(*other, selector);
                merging_loses_no_selector(given, other@.functions, selector);
            }
        }
    }

    /// All functions, in the order of their names.
    pub fn all_functions(&self) -> (r: Vec<AbiFunction>)
        requires
            self.wf(),
        ensures
            function_models(r@) == self@.all_functions(),
    {
        let mut out: Vec<AbiFunction> = Vec::new();
        let mut i: usize = 0;
        let ghost keys = entry_keys(self.functions.entries@);
        assert(function_models(out@) =~= functions_named(self@.functions, keys.take(0)));
        while i < self.functions.entries.len()
            invariant
                i <= self.functions.entries@.len(),
                self.wf(),
                keys == entry_keys(self.functions.entries@),
                function_models(out@) == functions_named(self@.functions, keys.take(i as int)),
            decreases self.functions.entries@.len() - i,
        {
            let ghost before = out@;
            let mut group = clone_functions(&self.functions.entries[i].1);
            let ghost added = group@;
            out.append(&mut group);
            proof {
                sorted_entry_is_mapped(self.functions.entries@, i as int);
                assert(keys.take(i + 1).drop_last() =~= keys.take(i as int));
                assert(keys.take(i + 1).last() == self.functions.entries@[i as int].0@);
                assert(function_models(out@) =~= function_models(before) + function_models(added));
            }
            i += 1;
        }
        proof {
            sorted_entries_follow_key_order(self.functions.entries@);
            assert(self@.functions.dom() =~= self.functions@.dom());
            assert(keys.take(i as int) =~= keys);
        }
        out
    }

    /// Whether some function has the selector.
    pub fn has_selector(&self, selector: Selector) -> (r: bool)
        requires
            self.wf(),
        ensures
            r == self@.has_selector(selector),
    {
        holds_selector(&self.all_functions(), selector)
    }
}

impl Clone for Abi {
    fn clone(&self) -> (r: Self)
        ensures
            self.wf() ==> r.wf() && r@ == self@,
    {
        let mut entries: Vec<(String, Vec<AbiFunction>)> = Vec::new();
        let mut i: usize = 0;
        while i < self.functions.entries.len()
            invariant
                i <= self.functions.entries@.len(),
                entries@.len() == i,
                forall|j: int|
                    0 <= j < i ==> {
                        &&& (#[trigger] entries@[j]).0.model() == self.functions.entries@[j].0.model()
                        &&& function_models(entries@[j].1@) == function_models(self.functions.entries@[j].1@)
                    },
            decreases self.functions.entries@.len() - i,
        {
            entries.push((self.functions.entries[i].0.clone(), clone_functions(&self.functions.entries[i].1)));
            i += 1;
        }
        let r = Abi { functions: OrderedMap { entries }, receive: self.receive, fallback: self.fallback };
        proof {
            if self.wf() {
                aligned_entries(self.functions.entries@, entries@);
                assert(r@.functions =~= self@.functions) by {
                    assert forall|name: Seq<char>| self@.functions.dom().contains(name) implies r@.functions[name]
                        == self@.functions[name] by {
                        let j = choose|j: int|
                            0 <= j < self.functions.entries@.len() && #[trigger] self.functions.entries@[j].0.model()
                                == name;
                        assert(function_models(entries@[j].1@) == function_models(self.functions.entries@[j].1@));
                    }
                }
            }
        }
        r
    }
}

/// A function may change state exactly where it is neither pure nor view.
pub proof fn payable_and_plain_functions_change_state()
    ensures
        !StateMutability::Pure.changes_state(),
        !StateMutability::View.changes_state(),
        StateMutability::NonPayable.changes_state(),
        StateMutability::Payable.changes_state(),
{
}

/// The functions under names are those of each group, group by group.
proof fn named_functions_are_those_of_the_groups(
    functions: Map<Seq<char>, Seq<AbiFunctionView>>,
    names: Seq<Seq<char>>,
    n: int,
    i: int,
)
    ensures
        0 <= n < names.len() && 0 <= i < functions[names[n]].len() ==> functions_named(functions, names).contains(
            functions[names[n]][i],
        ),
        forall|k: int|
            0 <= k < functions_named(functions, names).len() ==> exists|m: int|
                0 <= m < names.len() && functions[#[trigger] names[m]].contains(
                    #[trigger] functions_named(functions, names)[k],
                ),
    decreases names.len(),
{
    if names.len() > 0 {
        let rest = names.drop_last();
        let front = functions_named(functions, rest);
        let all = functions_named(functions, names);
        let last = functions[names.last()];
        named_functions_are_those_of_the_groups(functions, rest, n, i);
        if 0 <= n < names.len() && 0 <= i < functions[names[n]].len() {
            let function = functions[names[n]][i];
            if n < rest.len() {
                assert(rest[n] == names[n]);
                assert(front.contains(function));
                assert(all[front.index_of(function)] == function);
            } else {
                assert(all[front.len() + i] == function);
            }
        }
        assert forall|k: int| 0 <= k < all.len() implies exists|m: int|
            0 <= m < names.len() && functions[#[trigger] names[m]].contains(#[trigger] all[k]) by {
            if k < front.len() {
                assert(all[k] == front[k]);
                let m = choose|m: int| 0 <= m < rest.len() && functions[#[trigger] rest[m]].contains(front[k]);
                assert(names[m] == rest[m]);
            } else {
                assert(last[k - front.len()] == all[k]);
                assert(functions[names[names.len() - 1]].contains(all[k]));
            }
        }
    }
}

/// The functions of an interface are those under each of its names, and no other.
pub proof fn interfaces_hold_every_function(abi: AbiView, name: Seq<char>, i: int, k: int)
    requires
        abi.functions.dom().finite(),
    ensures
        abi.functions.dom().contains(name) && 0 <= i < abi.functions[name].len() ==> abi.all_functions().contains(
            abi.functions[name][i],
        ),
        0 <= k < abi.all_functions().len() ==> exists|other: Seq<char>|
            #[trigger] abi.functions.dom().contains(other) && abi.functions[other].contains(abi.all_functions()[k]),
{
    let names = key_order::<String>(abi.functions.dom());
    key_order_holds_every_key_once::<String>(abi.functions.dom());
    if abi.functions.dom().contains(name) {
        assert(names.contains(name));
        named_functions_are_those_of_the_groups(abi.functions, names, names.index_of(name), i);
    } else {
        named_functions_are_those_of_the_groups(abi.functions, names, 0, 0);
    }
    if 0 <= k < abi.all_functions().len() {
        let function = functions_named(abi.functions, names)[k];
        let m = choose|m: int| 0 <= m < names.len() && abi.functions[#[trigger] names[m]].contains(function);
        assert(names.contains(names[m]));
        assert(abi.functions.dom().contains(names[m]));
    }
}

/// An interface has a selector exactly where one of its functions has it.
pub proof fn selectors_are_those_of_functions(abi: AbiView, selector: Selector, i: int)
    ensures
        0 <= i < abi.all_functions().len() && abi.all_functions()[i].selector() == selector ==> abi.has_selector(
            selector,
        ),
        abi.has_selector(selector) ==> exists|k: int|
            0 <= k < abi.all_functions().len() && (#[trigger] abi.all_functions()[k]).selector() == selector,
{
    if abi.has_selector(selector) {
        let functions = abi.all_functions();
        let k = choose|k: int| 0 <= k < functions.len() && #[trigger] functions[k].selector() == selector;
        assert(functions[k].selector() == selector);
    }
}

/// An interface that is extended keeps its functions, in their places, and gets those of the other one under
/// names that it does not have; whether it receives transfers, and its fallback function, stay as they are.
pub proof fn extended_interfaces_keep_their_functions(a: AbiView, b: AbiView, name: Seq<char>, i: int)
    ensures
        ({
            let both = a.extended(b);
            &&& both.receive == a.receive
            &&& both.fallback == a.fallback
            &&& both.functions.dom().contains(name) == (a.functions.dom().contains(name) || b.functions.dom().contains(
                name,
            ))
            &&& a.functions.dom().contains(name) && 0 <= i < a.functions[name].len() ==> i < both.functions[name].len()
                && both.functions[name][i] == a.functions[name][i]
            &&& !a.functions.dom().contains(name) && b.functions.dom().contains(name) ==> both.functions[name]
                == b.functions[name]
            &&& a.functions.dom().contains(name) && !b.functions.dom().contains(name) ==> both.functions[name]
                == a.functions[name]
        }),
{
    if a.functions.dom().contains(name) && b.functions.dom().contains(name) {
        joining_loses_no_function(a.functions[name], b.functions[name]);
        let all = joined(a.functions[name], b.functions[name]);
        if 0 <= i < a.functions[name].len() {
            assert(all.take(a.functions[name].len() as int)[i] == all[i]);
        }
    }
}

/// The selector of a function depends on its name and on the types of all of its inputs, in order.
pub proof fn selectors_depend_on_name_and_types(function: AbiFunctionView, types: Seq<Seq<char>>)
    requires
        types.len() == function.inputs.len(),
        forall|i: int| 0 <= i < types.len() ==> #[trigger] types[i] == function.inputs[i].selector_type,
    ensures
        function.types() == types,
        function.selector() == function_selector(function.name, types),
{
    assert(function.types() =~= types);
}

/// Values match inputs exactly where there are as many of them and each is of the type of its input.
pub proof fn values_match_inputs_one_by_one(types: Seq<Seq<char>>, values: Seq<SolValueView>, i: int)
    requires
        inputs_match(types, values),
    ensures
        types.len() == values.len(),
        0 <= i < types.len() ==> (sol_type_named(types[i]) matches Some(ty) && type_matches(ty, values[i])),
{
}

/// Functions and interfaces are known by all of their parts.
pub proof fn functions_are_known_by_their_parts(functions: Seq<AbiFunction>, abi: Abi, name: Seq<char>, i: int, k: int)
    ensures
        function_models(functions).len() == functions.len(),
        0 <= i < functions.len() ==> {
            let model = function_models(functions)[i];
            &&& model.name == functions[i].name@
            &&& model.state_mutability == functions[i].state_mutability
            &&& model.reserved == functions[i].reserved
            &&& model.inputs.len() == functions[i].inputs@.len()
            &&& 0 <= k < functions[i].inputs@.len() ==> model.inputs[k].name == functions[i].inputs@[k].name@
                && model.inputs[k].selector_type == functions[i].inputs@[k].selector_type@
        },
        abi@.receive == abi.receive,
        abi@.fallback == abi.fallback,
        abi@.functions.dom().contains(name) == abi.functions@.dom().contains(name),
        abi.functions@.dom().contains(name) ==> abi@.functions[name] == function_models(abi.functions@[name]@),
{
}

/// Texts are known one by one, in order.
pub proof fn texts_are_known_one_by_one(strings: Seq<String>, i: int)
    ensures
        texts(strings).len() == strings.len(),
        0 <= i < strings.len() ==> texts(strings)[i] == strings[i]@,
{
}

/// Values that are as many as the inputs, each of the type that the name of its input stands for, match them.
pub proof fn values_of_the_right_types_match(types: Seq<Seq<char>>, values: Seq<SolValueView>)
    requires
        types.len() == values.len(),
        forall|i: int|
            0 <= i < types.len() ==> (sol_type_named(#[trigger] types[i]) matches Some(ty) && type_matches(ty, values[i])),
    ensures
        inputs_match(types, values),
{
}

} // verus!
