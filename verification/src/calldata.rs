//! Calldata with values for all parameters of a function.

use rand::rngs::StdRng;
use vstd::prelude::*;
use vstd::string::*;

use crate::abi::{encoded_values, inputs_match, sol_type_named, AbiFunction, AbiFunctionView};
use crate::dictionary::FuzzDictionary;
use crate::ordered::OrderedMap;
use crate::param::{
    from_state, fuzz_param_from_state, fuzz_param_with_fixtures, tidied_from_state, ParamStrategy,
};
use crate::sol::{type_matches, value_models, SolValue, SolValueView};
use crate::text::{cleaned, lowercase, small};

verus! {

/// Values for parameters, by the names of the parameters in small letters. The values of a parameter
/// are the elements of an array.
pub struct FuzzFixtures {
    pub inner: OrderedMap<String, SolValue>,
}

impl View for FuzzFixtures {
    type V = Map<Seq<char>, SolValueView>;

    open spec fn view(&self) -> Map<Seq<char>, SolValueView> {
        self.inner@.map_values(|value: SolValue| value@)
    }
}

/// The fixtures of the parameter `name`.
pub open spec fn fixtures_of(fixtures: Map<Seq<char>, SolValueView>, name: Seq<char>) -> Option<Seq<SolValueView>> {
    let key = name.map_values(|c: char| small(c));
    if fixtures.dom().contains(key) {
        match fixtures[key] {
            SolValueView::Array(values) => Some(values),
            SolValueView::FixedArray(values) => Some(values),
            _ => None,
        }
    } else {
        None
    }
}

impl FuzzFixtures {
    /// The names are in order.
    pub open spec fn wf(self) -> bool {
        self.inner.wf()
    }

    /// Whether the names are in order.
    pub fn is_valid(&self) -> (r: bool)
        ensures
            r == self.wf(),
    {
        self.inner.is_sorted()
    }

    /// The fixtures in `inner`, by names in small letters.
    pub fn new(inner: OrderedMap<String, SolValue>) -> (r: FuzzFixtures)
        ensures
            r.inner == inner,
    {
        FuzzFixtures { inner }
    }

    /// The fixtures of the parameter `name`, whose letters may be capital.
    pub fn param_fixtures(&self, name: &str) -> (r: Option<&Vec<SolValue>>)
        requires
            self.wf(),
        ensures
            r is Some == fixtures_of(self@, name@) is Some,
            r matches Some(values) ==> fixtures_of(self@, name@) == Some(value_models(values@)),
    {
        let key = lowercase(name);
        assert(self@.dom() =~= self.inner@.dom());
        match self.inner.get(&key) {
            Some(SolValue::Array(values)) => {
                assert(self.inner@[key@]@->Array_0 =~= value_models(values@));
                Some(values)
            },
            Some(SolValue::FixedArray(values)) => {
                assert(self.inner@[key@]@->FixedArray_0 =~= value_models(values@));
                Some(values)
            },
            _ => None,
        }
    }
}

/// Every parameter has a type.
pub open spec fn has_types(func: AbiFunctionView) -> bool {
    forall|i: int| 0 <= i < func.inputs.len() ==> sol_type_named((#[trigger] func.inputs[i]).selector_type) is Some
}

/// Where the calldata of a function comes from.
pub struct CalldataStrategy {
    pub func: AbiFunction,
    pub params: Vec<ParamStrategy>,
}

impl CalldataStrategy {
    /// There is a strategy for each parameter, for its type.
    pub open spec fn wf(self) -> bool {
        &&& self.params@.len() == self.func@.inputs.len()
        &&& forall|i: int|
            0 <= i < self.params@.len() ==> {
                &&& (#[trigger] self.params@[i]).wf()
                &&& sol_type_named(self.func@.inputs[i].selector_type) == Some(self.params@[i].param@)
            }
    }

    /// The strategies use the fixtures of the parameters.
    pub open spec fn uses(self, fixtures: Map<Seq<char>, SolValueView>) -> bool {
        forall|i: int|
            0 <= i < self.params@.len() ==> (#[trigger] self.params@[i]).is_for(
                self.params@[i].param@,
                fixtures_of(fixtures, self.func@.inputs[i].name),
            )
    }

    /// There is a generated value for each parameter, of its type.
    pub open spec fn takes(self, generated: Seq<SolValueView>) -> bool {
        &&& generated.len() == self.params@.len()
        &&& forall|i: int| 0 <= i < generated.len() ==> type_matches(self.params@[i].param@, #[trigger] generated[i])
    }

    /// There is a choice for each parameter: a place of its fixtures, or none.
    pub open spec fn has_places(self, places: Seq<Option<usize>>) -> bool {
        &&& places.len() == self.params@.len()
        &&& forall|i: int| 0 <= i < places.len() ==> self.params@[i].has_fixture(#[trigger] places[i])
    }

    /// The values of the parameters with these choices.
    pub open spec fn values(self, places: Seq<Option<usize>>, generated: Seq<SolValueView>) -> Seq<SolValueView> {
        Seq::new(self.params@.len(), |i: int| self.params@[i].chosen(places[i], generated[i]))
    }

    /// The calldata with these choices: for each parameter the fixture at a place, or else the
    /// generated value.
    pub fn calldata_with(&self, places: &Vec<Option<usize>>, generated: &Vec<SolValue>) -> (r: Vec<u8>)
        requires
            self.wf(),
            self.has_places(places@),
            self.takes(value_models(generated@)),
        ensures
            r@ == self.func@.selector().bytes@ + encoded_values(self.values(places@, value_models(generated@))),
            inputs_match(self.func@.types(), self.values(places@, value_models(generated@))),
    {
        let ghost models = value_models(generated@);
        let ghost wanted = self.values(places@, models);
        let mut values: Vec<SolValue> = Vec::new();
        let mut i: usize = 0;
        while i < self.params.len()
            invariant
                i <= self.params@.len(),
                self.wf(),
                self.has_places(places@),
                models == value_models(generated@),
                self.takes(models),
                wanted == self.values(places@, models),
                values@.len() == i,
                forall|j: int| 0 <= j < i ==> (#[trigger] values@[j])@ == wanted[j],
                forall|j: int| 0 <= j < i ==> type_matches(self.params@[j].param@, #[trigger] wanted[j]),
            decreases self.params@.len() - i,
        {
            proof {
                assert(self.params@[i as int].has_fixture(places@[i as int]));
                assert(type_matches(self.params@[i as int].param@, models[i as int]));
                assert(self.params@[i as int].wf());
            }
            values.push(self.params[i].value_with(places[i], generated[i].clone()));
            i += 1;
        }
        proof {
            assert(value_models(values@) =~= wanted);
            assert(inputs_match(self.func@.types(), wanted)) by {
                assert forall|j: int| 0 <= j < self.func@.types().len() implies {
                    &&& sol_type_named(#[trigger] self.func@.types()[j]) is Some
                    &&& type_matches(sol_type_named(self.func@.types()[j])->0, wanted[j])
                } by {
                    assert(self.params@[j].wf());
                    assert(type_matches(self.params@[j].param@, wanted[j]));
                }
            }
        }
        match self.func.encode_input(&values) {
            Some(calldata) => calldata,
            None => Vec::new(),
        }
    }

    /// Calldata of the function: for each parameter some fixture in half of the cases, where there
    /// are any, or else the generated value.
    pub fn generate(&self, rng: &mut StdRng, generated: &Vec<SolValue>) -> (r: Vec<u8>)
        requires
            self.wf(),
            self.takes(value_models(generated@)),
        ensures
            exists|places: Seq<Option<usize>>|
                self.has_places(places) && r@ == self.func@.selector().bytes@ + encoded_values(
                    #[trigger] self.values(places, value_models(generated@)),
                ) && inputs_match(self.func@.types(), self.values(places, value_models(generated@))),
    {
        let mut places: Vec<Option<usize>> = Vec::new();
        let mut i: usize = 0;
        while i < self.params.len()
            invariant
                i <= self.params@.len(),
                places@.len() == i,
                forall|j: int| 0 <= j < i ==> self.params@[j].has_fixture(#[trigger] places@[j]),
            decreases self.params@.len() - i,
        {
            places.push(self.params[i].draw_fixture(rng));
            i += 1;
        }
        assert(self.has_places(places@));
        self.calldata_with(&places, generated)
    }
}

/// Where the calldata of a function comes from: for each parameter its fixtures, and generated
/// values. Every parameter has a type.
pub fn fuzz_calldata(func: AbiFunction, fuzz_fixtures: &FuzzFixtures) -> (r: CalldataStrategy)
    requires
        fuzz_fixtures.wf(),
        has_types(func@),
    ensures
        r.wf(),
        r.func@ == func@,
        r.uses(fuzz_fixtures@),
{
    let mut params: Vec<ParamStrategy> = Vec::new();
    let mut i: usize = 0;
    while i < func.inputs.len()
        invariant
            i <= func.inputs@.len(),
            fuzz_fixtures.wf(),
            has_types(func@),
            params@.len() == i,
            forall|j: int|
                0 <= j < i ==> {
                    &&& (#[trigger] params@[j]).wf()
                    &&& sol_type_named(func@.inputs[j].selector_type) == Some(params@[j].param@)
                    &&& params@[j].is_for(params@[j].param@, fixtures_of(fuzz_fixtures@, func@.inputs[j].name))
                },
        decreases func.inputs@.len() - i,
    {
        let input = &func.inputs[i];
        assert(func@.inputs[i as int] == input@);
        if let Some(ty) = input.sol_type() {
            let fixtures = fuzz_fixtures.param_fixtures(input.name.as_str());
            params.push(fuzz_param_with_fixtures(&ty, fixtures, input.name.as_str()));
        }
        i += 1;
    }
    CalldataStrategy { func, params }
}

/// Whether every parameter has a type.
pub fn types_are_known(func: &AbiFunction) -> (r: bool)
    ensures
        r == has_types(func@),
{
    let mut i: usize = 0;
    while i < func.inputs.len()
        invariant
            i <= func.inputs@.len(),
            forall|j: int| 0 <= j < i ==> sol_type_named((#[trigger] func@.inputs[j]).selector_type) is Some,
        decreases func.inputs@.len() - i,
    {
        assert(func@.inputs[i as int] == func.inputs@[i as int]@);
        if func.inputs[i].sol_type().is_none() {
            return false;
        }
        i += 1;
    }
    true
}

/// Where the calldata of a function comes from, as [`fuzz_calldata`] has it, if every parameter has a
/// type.
pub fn try_fuzz_calldata(func: AbiFunction, fuzz_fixtures: &FuzzFixtures) -> (r: Option<CalldataStrategy>)
    requires
        fuzz_fixtures.wf(),
    ensures
        r is Some == has_types(func@),
        r matches Some(strategy) ==> {
            &&& strategy.wf()
            &&& strategy.func@ == func@
            &&& strategy.uses(fuzz_fixtures@)
        },
{
    if types_are_known(&func) {
        Some(fuzz_calldata(func, fuzz_fixtures))
    } else {
        None
    }
}

/// Whether there is a value for each parameter of the function, of its type.
pub fn values_fit(func: &AbiFunction, values: &Vec<SolValue>) -> (r: bool)
    ensures
        r == inputs_match(func@.types(), value_models(values@)),
{
    let ghost types = func@.types();
    let ghost models = value_models(values@);
    if func.inputs.len() != values.len() {
        return false;
    }
    let mut i: usize = 0;
    while i < values.len()
        invariant
            i <= values@.len(),
            values@.len() == func.inputs@.len(),
            types == func@.types(),
            models == value_models(values@),
            forall|j: int|
                0 <= j < i ==> {
                    &&& sol_type_named(#[trigger] types[j]) is Some
                    &&& type_matches(sol_type_named(types[j])->0, models[j])
                },
        decreases values@.len() - i,
    {
        assert(types[i as int] == func.inputs@[i as int]@.selector_type);
        assert(models[i as int] == values@[i as int]@);
        match func.inputs[i].sol_type() {
            Some(ty) => {
                if !ty.matches(&values[i]) {
                    return false;
                }
            },
            None => {
                return false;
            },
        }
        i += 1;
    }
    true
}

/// `values` may come of generated values for the parameters of a function, when the dictionary is
/// consulted.
pub open spec fn values_from_state(
    dictionary: FuzzDictionary,
    func: AbiFunctionView,
    generated: Seq<SolValueView>,
    values: Seq<SolValueView>,
) -> bool {
    &&& values.len() == generated.len()
    &&& forall|i: int|
        0 <= i < values.len() ==> tidied_from_state(
            dictionary,
            sol_type_named(func.types()[i])->0,
            generated[i],
            #[trigger] values[i],
        )
}

/// Calldata of a function: the generated values, with the dictionary consulted. There is a generated
/// value for each parameter, of its type.
pub fn fuzz_calldata_from_state(
    func: &AbiFunction,
    dictionary: &FuzzDictionary,
    generated: &Vec<SolValue>,
    rng: &mut StdRng,
) -> (r: Vec<u8>)
    requires
        inputs_match(func@.types(), value_models(generated@)),
    ensures
        exists|values: Seq<SolValueView>| #[trigger]
            values_from_state(*dictionary, func@, value_models(generated@), values) && inputs_match(
                func@.types(),
                values,
            ) && r@ == func@.selector().bytes@ + encoded_values(values),
{
    let ghost types = func@.types();
    let ghost models = value_models(generated@);
    let mut values: Vec<SolValue> = Vec::new();
    let mut i: usize = 0;
    while i < func.inputs.len()
        invariant
            i <= func.inputs@.len(),
            types == func@.types(),
            models == value_models(generated@),
            inputs_match(types, models),
            types.len() == func.inputs@.len(),
            values@.len() == i,
            forall|j: int|
                0 <= j < i ==> {
                    &&& tidied_from_state(
                        *dictionary,
                        sol_type_named(types[j])->0,
                        models[j],
                        (#[trigger] values@[j])@,
                    )
                    &&& type_matches(sol_type_named(types[j])->0, values@[j]@)
                },
        decreases func.inputs@.len() - i,
    {
        proof {
            assert(types[i as int] == func.inputs@[i as int]@.selector_type);
            assert(sol_type_named(types[i as int]) is Some);
            assert(models[i as int] == generated@[i as int]@);
        }
        if let Some(ty) = func.inputs[i].sol_type() {
            values.push(fuzz_param_from_state(&ty, dictionary, generated[i].clone(), rng));
        }
        i += 1;
    }
    proof {
        let made = value_models(values@);
        assert(values_from_state(*dictionary, func@, models, made)) by {
            assert forall|j: int| 0 <= j < made.len() implies tidied_from_state(
                *dictionary,
                sol_type_named(types[j])->0,
                models[j],
                #[trigger] made[j],
            ) by {
                assert(made[j] == values@[j]@);
            }
        }
        assert(inputs_match(types, made)) by {
            assert forall|j: int| 0 <= j < types.len() implies {
                &&& sol_type_named(#[trigger] types[j]) is Some
                &&& type_matches(sol_type_named(types[j])->0, made[j])
            } by {
                assert(made[j] == values@[j]@);
            }
        }
    }
    match func.encode_input(&values) {
        Some(calldata) => calldata,
        None => Vec::new(),
    }
}

/// Calldata of a function, as [`fuzz_calldata`] and [`CalldataStrategy::generate`] make it, if there
/// is a generated value for each parameter, of its type.
pub fn try_calldata(
    func: &AbiFunction,
    fuzz_fixtures: &FuzzFixtures,
    generated: &Vec<SolValue>,
    rng: &mut StdRng,
) -> (r: Option<Vec<u8>>)
    requires
        fuzz_fixtures.wf(),
    ensures
        r is Some == inputs_match(func@.types(), value_models(generated@)),
        r matches Some(calldata) ==> exists|strategy: CalldataStrategy, places: Seq<Option<usize>>|
            strategy.wf() && strategy.func@ == func@ && strategy.uses(fuzz_fixtures@) && strategy.has_places(places)
                && calldata@ == func@.selector().bytes@ + encoded_values(
                #[trigger] strategy.values(places, value_models(generated@)),
            ) && inputs_match(func@.types(), strategy.values(places, value_models(generated@))),
{
    if !values_fit(func, generated) {
        return None;
    }
    let ghost types = func@.types();
    proof {
        assert forall|i: int| 0 <= i < func@.inputs.len() implies sol_type_named(
            (#[trigger] func@.inputs[i]).selector_type,
        ) is Some by {
            assert(types[i] == func@.inputs[i].selector_type);
        }
    }
    let strategy = fuzz_calldata(func.clone(), fuzz_fixtures);
    proof {
        let models = value_models(generated@);
        assert forall|i: int| 0 <= i < models.len() implies type_matches(
            strategy.params@[i].param@,
            #[trigger] models[i],
        ) by {
            assert(strategy.params@[i].wf());
            assert(types[i] == func@.inputs[i].selector_type);
        }
    }
    Some(strategy.generate(rng, generated))
}

/// Calldata of a function, as [`fuzz_calldata_from_state`] makes it, if there is a generated value for
/// each parameter, of its type.
pub fn try_calldata_from_state(
    func: &AbiFunction,
    dictionary: &FuzzDictionary,
    generated: &Vec<SolValue>,
    rng: &mut StdRng,
) -> (r: Option<Vec<u8>>)
    ensures
        r is Some == inputs_match(func@.types(), value_models(generated@)),
        r matches Some(calldata) ==> exists|values: Seq<SolValueView>| #[trigger]
            values_from_state(*dictionary, func@, value_models(generated@), values) && inputs_match(
                func@.types(),
                values,
            ) && calldata@ == func@.selector().bytes@ + encoded_values(values),
{
    if values_fit(func, generated) {
        Some(fuzz_calldata_from_state(func, dictionary, generated, rng))
    } else {
        None
    }
}

/// The calldata of a function, whatever its values, starts with the selector of the function.
pub proof fn calldata_starts_with_the_selector(func: AbiFunctionView, values: Seq<SolValueView>)
    ensures
        (func.selector().bytes@ + encoded_values(values)).take(4) == func.selector().bytes@,
{
    assert((func.selector().bytes@ + encoded_values(values)).take(4) =~= func.selector().bytes@);
}

/// The fixtures of a parameter stand under its name in small letters: names that differ only in capital letters
/// have the same fixtures, and a name in small letters has the array that stands under it. What is no array is no
/// fixtures.
pub proof fn fixtures_stand_under_small_names(
    fixtures: Map<Seq<char>, SolValueView>,
    name: Seq<char>,
    other: Seq<char>,
)
    ensures
        name.len() == other.len() && (forall|i: int|
            0 <= i < name.len() ==> (#[trigger] name[i] == other[i] || ('A' <= name[i] && name[i] <= 'Z' && other[i] as nat
                == name[i] as nat + 32))) ==> fixtures_of(fixtures, name) == fixtures_of(fixtures, other),
        (forall|i: int| 0 <= i < name.len() ==> !('A' <= #[trigger] name[i] && name[i] <= 'Z')) ==> {
            &&& !fixtures.dom().contains(name) ==> fixtures_of(fixtures, name) is None
            &&& fixtures.dom().contains(name) ==> match fixtures[name] {
                SolValueView::Array(values) => fixtures_of(fixtures, name) == Some(values),
                SolValueView::FixedArray(values) => fixtures_of(fixtures, name) == Some(values),
                _ => fixtures_of(fixtures, name) is None,
            }
        },
{
    let a = name.map_values(|c: char| small(c));
    let b = other.map_values(|c: char| small(c));
    if name.len() == other.len() && (forall|i: int|
        0 <= i < name.len() ==> (#[trigger] name[i] == other[i] || ('A' <= name[i] && name[i] <= 'Z' && other[i] as nat
            == name[i] as nat + 32))) {
        assert forall|i: int| 0 <= i < name.len() implies small(name[i]) == small(other[i]) by {
            if name[i] != other[i] {
                assert(small(name[i]) as nat == other[i] as nat);
            }
        }
        assert(a =~= b);
    }
    if forall|i: int| 0 <= i < name.len() ==> !('A' <= #[trigger] name[i] && name[i] <= 'Z') {
        assert(a =~= name);
    }
}

/// Every parameter has a value of its own: the fixture that was chosen for it, or else the value that was
/// generated for it.
pub proof fn every_parameter_has_its_value(
    strategy: CalldataStrategy,
    places: Seq<Option<usize>>,
    generated: Seq<SolValueView>,
    i: int,
)
    requires
        strategy.has_places(places),
        strategy.takes(generated),
    ensures
        strategy.values(places, generated).len() == strategy.params@.len(),
        generated.len() == strategy.params@.len(),
        places.len() == strategy.params@.len(),
        0 <= i < strategy.params@.len() ==> {
            let value = strategy.values(places, generated)[i];
            &&& places[i] is None && !(generated[i] is String) ==> value == generated[i]
            &&& places[i] matches Some(place) ==> {
                &&& strategy.params@[i].fixtures is Some
                &&& place < strategy.params@[i].fixtures->0@.len()
                &&& !(strategy.params@[i].fixtures->0@[place as int]@ is String) ==> value
                    == strategy.params@[i].fixtures->0@[place as int]@
            }
        },
{
    if 0 <= i < strategy.params@.len() {
        assert(strategy.params@[i].has_fixture(places[i]));
    }
}

/// A strategy has, for each parameter, the type that its type name stands for.
pub proof fn strategies_have_the_types_of_the_parameters(strategy: CalldataStrategy, i: int)
    requires
        strategy.wf(),
    ensures
        strategy.params@.len() == strategy.func@.inputs.len(),
        0 <= i < strategy.params@.len() ==> sol_type_named(strategy.func@.inputs[i].selector_type) == Some(
            strategy.params@[i].param@,
        ),
{
}

/// Fixtures are known by the value under each name.
pub proof fn fixtures_are_known_by_their_values(fixtures: FuzzFixtures, name: Seq<char>)
    ensures
        fixtures@.dom().contains(name) == fixtures.inner@.dom().contains(name),
        fixtures.inner@.dom().contains(name) ==> fixtures@[name] == fixtures.inner@[name]@,
{
}

/// The parameters of a function are known where the type name of each stands for a type.
pub proof fn types_are_known_one_by_one(function: AbiFunctionView, i: int)
    ensures
        has_types(function) && 0 <= i < function.inputs.len() ==> sol_type_named(function.inputs[i].selector_type) is Some,
        0 <= i < function.inputs.len() && sol_type_named(function.inputs[i].selector_type) is None ==> !has_types(function),
        (forall|k: int|
            0 <= k < function.inputs.len() ==> sol_type_named((#[trigger] function.inputs[k]).selector_type) is Some)
            ==> has_types(function),
{
}

/// A strategy uses the fixtures of each parameter for that parameter: all that stand under its name, where each is
/// of its type.
pub proof fn parameters_use_their_own_fixtures(
    strategy: CalldataStrategy,
    fixtures: Map<Seq<char>, SolValueView>,
    i: int,
    known: Seq<SolValueView>,
)
    requires
        strategy.uses(fixtures),
        0 <= i < strategy.params@.len(),
        fixtures_of(fixtures, strategy.func@.inputs[i].name) == Some(known),
        forall|k: int| 0 <= k < known.len() ==> type_matches(strategy.params@[i].param@, #[trigger] known[k]),
    ensures
        strategy.params@[i].fixtures matches Some(used) && value_models(used@) == known,
{
    assert(strategy.params@[i].is_for(
        strategy.params@[i].param@,
        fixtures_of(fixtures, strategy.func@.inputs[i].name),
    ));
}

/// Where the dictionary is consulted, the value of each parameter comes of the value that was generated for it, as
/// one of the type of that parameter; a string is cleaned.
pub proof fn values_come_of_those_generated_for_them(
    dictionary: FuzzDictionary,
    func: AbiFunctionView,
    generated: Seq<SolValueView>,
    values: Seq<SolValueView>,
    i: int,
)
    requires
        values_from_state(dictionary, func, generated, values),
        0 <= i < values.len(),
        i < func.inputs.len(),
    ensures
        values.len() == generated.len(),
        exists|found: SolValueView| #[trigger]
            from_state(dictionary, sol_type_named(func.inputs[i].selector_type)->0, generated[i], found) && (if found is String {
                values[i] == SolValueView::String(cleaned(found->String_0))
            } else {
                values[i] == found
            }),
{
    assert(func.types()[i] == func.inputs[i].selector_type);
    assert(tidied_from_state(dictionary, sol_type_named(func.types()[i])->0, generated[i], values[i]));
}

} // verus!
