//! Values for the parameters of calls: from fixtures, from the dictionary, by mutation, or made up
//! by a generator that the host brings along.

use rand::rngs::StdRng;
use vstd::prelude::*;

use crate::dictionary::{other_types_are_not_sampled, FuzzDictionary};
use crate::filters::SenderFilters;
use crate::fixed::{address_of, address_of_has_the_bytes, word_from_u64, Address, Word};
use crate::random::{random_place, random_ratio, random_up_to};
use crate::sol::{
    clone_values, type_matches, type_models, value_models, SolType, SolTypeView, SolValue, SolValueView,
};
use crate::text::{clean_text, cleaned};

verus! {

/// The largest length of generated arrays.
pub const MAX_ARRAY_LEN: usize = 256;

/// The largest length of generated bytes and strings.
pub const MAX_BYTES_LEN: usize = 32;

/// How integers are generated.
#[derive(Debug)]
pub enum IntDistribution {
    /// All of them alike.
    Uniform,
    /// Integers of `bits` bits, of which some are preferred.
    Mixed { bits: usize, preferred: Vec<Word> },
}

/// How values are generated.
#[derive(Debug)]
pub struct GeneratorConfig {
    pub max_array_len: usize,
    pub max_bytes_len: usize,
    pub signed: IntDistribution,
    pub unsigned: IntDistribution,
}

/// The model of an [`IntDistribution`].
pub enum DistributionView {
    Uniform,
    Mixed { bits: nat, preferred: Seq<Word> },
}

impl View for IntDistribution {
    type V = DistributionView;

    open spec fn view(&self) -> DistributionView {
        match *self {
            IntDistribution::Uniform => DistributionView::Uniform,
            IntDistribution::Mixed { bits, preferred } => {
                DistributionView::Mixed { bits: bits as nat, preferred: preferred@ }
            },
        }
    }
}

/// Where the values of a parameter come from.
#[derive(Debug)]
pub struct ParamStrategy {
    /// The type of the parameter.
    pub param: SolType,
    /// Values that half of the cases take, if there are any.
    pub fixtures: Option<Vec<SolValue>>,
    /// The parameter whose fixtures are not of its type, so that they are not used.
    pub mismatch: Option<String>,
    /// How the other values are generated.
    pub generator: GeneratorConfig,
}

/// The models of optional values.
pub open spec fn optional_values(values: Option<Vec<SolValue>>) -> Option<Seq<SolValueView>> {
    match values {
        Some(values) => Some(value_models(values@)),
        None => None,
    }
}

/// All of `values` are of the type.
pub open spec fn all_of_type(ty: SolTypeView, values: Seq<SolValueView>) -> bool {
    forall|i: int| 0 <= i < values.len() ==> type_matches(ty, #[trigger] values[i])
}

/// The fixtures that are used: all of them, if all are of the type, or else none.
pub open spec fn used_fixtures(ty: SolTypeView, fixtures: Option<Seq<SolValueView>>) -> Option<Seq<SolValueView>> {
    match fixtures {
        Some(values) => if all_of_type(ty, values) {
            Some(values)
        } else {
            None
        },
        None => None,
    }
}

/// The signed integers of `bits` bits among `values`.
pub open spec fn ints_of(bits: nat, values: Seq<SolValueView>) -> Seq<Word>
    decreases values.len(),
{
    if values.len() == 0 {
        Seq::empty()
    } else {
        let front = ints_of(bits, values.drop_last());
        match values.last() {
            SolValueView::Int(word, n) => if n == bits {
                front.push(word)
            } else {
                front
            },
            _ => front,
        }
    }
}

/// The unsigned integers of `bits` bits among `values`.
pub open spec fn uints_of(bits: nat, values: Seq<SolValueView>) -> Seq<Word>
    decreases values.len(),
{
    if values.len() == 0 {
        Seq::empty()
    } else {
        let front = uints_of(bits, values.drop_last());
        match values.last() {
            SolValueView::Uint(word, n) => if n == bits {
                front.push(word)
            } else {
                front
            },
            _ => front,
        }
    }
}

/// The values, or none where there are no fixtures.
pub open spec fn fixture_values(fixtures: Option<Seq<SolValueView>>) -> Seq<SolValueView> {
    match fixtures {
        Some(values) => values,
        None => Seq::empty(),
    }
}

/// The signed integers of `bits` bits among the fixtures.
pub fn int_fixtures(bits: usize, fixtures: &Option<Vec<SolValue>>) -> (r: Vec<Word>)
    ensures
        r@ == ints_of(bits as nat, fixture_values(optional_values(*fixtures))),
{
    let mut out: Vec<Word> = Vec::new();
    if let Some(values) = fixtures {
        let ghost models = value_models(values@);
        let mut i: usize = 0;
        assert(models.take(0) =~= Seq::empty());
        while i < values.len()
            invariant
                i <= values@.len(),
                models == value_models(values@),
                out@ == ints_of(bits as nat, models.take(i as int)),
            decreases values@.len() - i,
        {
            assert(models.take(i + 1).drop_last() =~= models.take(i as int));
            assert(models.take(i + 1).last() == values@[i as int]@);
            if let Some((word, n)) = values[i].as_int() {
                if n == bits {
                    out.push(word);
                }
            }
            i += 1;
        }
        assert(models.take(i as int) =~= models);
    }
    out
}

/// The unsigned integers of `bits` bits among the fixtures.
pub fn uint_fixtures(bits: usize, fixtures: &Option<Vec<SolValue>>) -> (r: Vec<Word>)
    ensures
        r@ == uints_of(bits as nat, fixture_values(optional_values(*fixtures))),
{
    let mut out: Vec<Word> = Vec::new();
    if let Some(values) = fixtures {
        let ghost models = value_models(values@);
        let mut i: usize = 0;
        assert(models.take(0) =~= Seq::empty());
        while i < values.len()
            invariant
                i <= values@.len(),
                models == value_models(values@),
                out@ == uints_of(bits as nat, models.take(i as int)),
            decreases values@.len() - i,
        {
            assert(models.take(i + 1).drop_last() =~= models.take(i as int));
            assert(models.take(i + 1).last() == values@[i as int]@);
            if let Some((word, n)) = values[i].as_uint() {
                if n == bits {
                    out.push(word);
                }
            }
            i += 1;
        }
        assert(models.take(i as int) =~= models);
    }
    out
}

/// How signed integers are generated for a parameter with these fixtures.
pub open spec fn int_distribution(ty: SolTypeView, fixtures: Option<Seq<SolValueView>>) -> DistributionView {
    match ty {
        SolTypeView::Int(n) => if 8 <= n <= 256 {
            DistributionView::Mixed { bits: n, preferred: ints_of(n, fixture_values(fixtures)) }
        } else {
            DistributionView::Uniform
        },
        _ => DistributionView::Uniform,
    }
}

/// How unsigned integers are generated for a parameter with these fixtures.
pub open spec fn uint_distribution(ty: SolTypeView, fixtures: Option<Seq<SolValueView>>) -> DistributionView {
    match ty {
        SolTypeView::Uint(n) => if 8 <= n <= 256 {
            DistributionView::Mixed { bits: n, preferred: uints_of(n, fixture_values(fixtures)) }
        } else {
            DistributionView::Uniform
        },
        _ => DistributionView::Uniform,
    }
}

/// A value as it is handed out: a string is cleaned.
pub open spec fn tidied(value: SolValueView) -> SolValueView {
    match value {
        SolValueView::String(s) => SolValueView::String(cleaned(s)),
        _ => value,
    }
}

/// A value as it is handed out: a string loses white space at its ends, and then trailing NUL
/// characters.
pub fn tidy(value: SolValue) -> (r: SolValue)
    ensures
        r@ == tidied(value@),
{
    match value {
        SolValue::String(s) => SolValue::String(clean_text(s.as_str())),
        _ => value,
    }
}

/// A tidied value is of the same types.
pub proof fn tidying_keeps_the_type(ty: SolTypeView, value: SolValueView)
    ensures
        type_matches(ty, tidied(value)) == type_matches(ty, value),
{
}

impl ParamStrategy {
    /// The fixtures that are used are of the type of the parameter.
    pub open spec fn wf(self) -> bool {
        optional_values(self.fixtures) matches Some(values) ==> all_of_type(self.param@, values)
    }

    /// The strategy is for this type, and uses these of the fixtures.
    pub open spec fn is_for(self, ty: SolTypeView, fixtures: Option<Seq<SolValueView>>) -> bool {
        let used = used_fixtures(ty, fixtures);
        &&& self.param@ == ty
        &&& optional_values(self.fixtures) == used
        &&& self.generator.max_array_len == MAX_ARRAY_LEN
        &&& self.generator.max_bytes_len == MAX_BYTES_LEN
        &&& self.generator.signed@ == int_distribution(ty, used)
        &&& self.generator.unsigned@ == uint_distribution(ty, used)
    }

    /// A place of a fixture, or none.
    pub open spec fn has_fixture(self, place: Option<usize>) -> bool {
        place matches Some(i) ==> self.fixtures matches Some(values) && i < values@.len()
    }

    /// The value with these choices: the fixture at a place, or else the generated value.
    pub open spec fn chosen(self, place: Option<usize>, generated: SolValueView) -> SolValueView {
        match place {
            Some(i) => tidied(self.fixtures->0@[i as int]@),
            None => tidied(generated),
        }
    }

    /// The value with these choices: the fixture at a place, or else the generated value.
    pub fn value_with(&self, place: Option<usize>, generated: SolValue) -> (r: SolValue)
        requires
            self.has_fixture(place),
        ensures
            r@ == self.chosen(place, generated@),
            self.wf() && type_matches(self.param@, generated@) ==> type_matches(self.param@, r@),
    {
        proof {
            tidying_keeps_the_type(self.param@, generated@);
        }
        match place {
            Some(i) => match &self.fixtures {
                Some(values) => {
                    proof {
                        assert(value_models(values@)[i as int] == values@[i as int]@);
                        tidying_keeps_the_type(self.param@, values@[i as int]@);
                    }
                    tidy(values[i].clone())
                },
                None => tidy(generated),
            },
            None => tidy(generated),
        }
    }

    /// The number of fixtures.
    pub open spec fn fixture_count(self) -> nat {
        match self.fixtures {
            Some(values) => values@.len(),
            None => 0,
        }
    }

    /// The fixture that the draws give: the one at the drawn place, if one is to be taken and there is
    /// any.
    pub open spec fn drawn_fixture(self, taken: bool, place: usize) -> Option<usize> {
        if taken && self.fixture_count() > 0 {
            Some(place)
        } else {
            None
        }
    }

    /// The fixture that the draws give: the one at the drawn place, if one is to be taken and there is
    /// any.
    pub fn fixture_for(&self, taken: bool, place: usize) -> (r: Option<usize>)
        requires
            self.fixture_count() > 0 ==> place < self.fixture_count(),
        ensures
            r == self.drawn_fixture(taken, place),
            self.has_fixture(r),
    {
        match &self.fixtures {
            Some(values) => {
                if taken && values.len() > 0 {
                    Some(place)
                } else {
                    None
                }
            },
            None => None,
        }
    }

    /// The fixture to take, if one is taken: some of them in half of the cases, where there are any.
    /// Nothing is drawn where there is none.
    pub fn draw_fixture(&self, rng: &mut StdRng) -> (r: Option<usize>)
        ensures
            self.has_fixture(r),
            exists|taken: bool, place: usize|
                (self.fixture_count() > 0 ==> place < self.fixture_count()) && r == #[trigger] self.drawn_fixture(
                    taken,
                    place,
                ),
            self.fixture_count() == 0 ==> r is None && *final(rng) == *old(rng),
    {
        let count = match &self.fixtures {
            Some(values) => values.len(),
            None => 0,
        };
        let (share, cases) = fixture_share();
        let taken = count > 0 && random_ratio(rng, share, cases);
        let place: usize = if taken {
            random_place(rng, count)
        } else {
            0
        };
        self.fixture_for(taken, place)
    }

    /// A value of the parameter: some fixture in half of the cases, where there are any, or else the
    /// generated value.
    pub fn generate(&self, rng: &mut StdRng, generated: SolValue) -> (r: SolValue)
        ensures
            exists|place: Option<usize>|
                self.has_fixture(place) && r@ == #[trigger] self.chosen(place, generated@),
            self.wf() && type_matches(self.param@, generated@) ==> type_matches(self.param@, r@),
    {
        let place = self.draw_fixture(rng);
        self.value_with(place, generated)
    }
}

/// How many cases of how many take a fixture, where there are any.
pub fn fixture_share() -> (r: (u32, u32))
    ensures
        r == (50u32, 100u32),
{
    (50, 100)
}

/// The strategy for a parameter without fixtures.
pub fn fuzz_param(param: &SolType) -> (r: ParamStrategy)
    ensures
        r.wf(),
        r.is_for(param@, None),
        r.mismatch is None,
{
    fuzz_param_inner(param, None, "")
}

/// The strategy for a parameter with the fixtures of its name. They are used only if all of them
/// are of the type of the parameter.
pub fn fuzz_param_with_fixtures(param: &SolType, fixtures: Option<&Vec<SolValue>>, name: &str) -> (r: ParamStrategy)
    ensures
        r.wf(),
        r.is_for(param@, given_fixtures(fixtures)),
        r.mismatch is Some == (fixtures is Some && used_fixtures(param@, given_fixtures(fixtures)) is None),
        r.mismatch matches Some(s) ==> s@ == name@,
{
    fuzz_param_inner(param, fixtures, name)
}

/// The models of the given fixtures.
pub open spec fn given_fixtures(fixtures: Option<&Vec<SolValue>>) -> Option<Seq<SolValueView>> {
    match fixtures {
        Some(values) => Some(value_models(values@)),
        None => None,
    }
}

/// Whether all of `values` are of the type.
fn are_all_of_type(param: &SolType, values: &Vec<SolValue>) -> (r: bool)
    ensures
        r == all_of_type(param@, value_models(values@)),
{
    let ghost models = value_models(values@);
    let mut i: usize = 0;
    while i < values.len()
        invariant
            i <= values@.len(),
            models == value_models(values@),
            forall|j: int| 0 <= j < i ==> type_matches(param@, #[trigger] models[j]),
        decreases values@.len() - i,
    {
        assert(models[i as int] == values@[i as int]@);
        if !param.matches(&values[i]) {
            return false;
        }
        i += 1;
    }
    true
}

/// The strategy for a parameter, with fixtures or without.
fn fuzz_param_inner(param: &SolType, given: Option<&Vec<SolValue>>, name: &str) -> (r: ParamStrategy)
    ensures
        r.wf(),
        r.is_for(param@, given_fixtures(given)),
        r.mismatch is Some == (given is Some && used_fixtures(param@, given_fixtures(given)) is None),
        r.mismatch matches Some(s) ==> s@ == name@,
{
    let mut fixtures: Option<Vec<SolValue>> = None;
    let mut mismatch: Option<String> = None;
    if let Some(values) = given {
        if are_all_of_type(param, values) {
            fixtures = Some(clone_values(values));
        } else {
            mismatch = Some(name.to_owned());
        }
    }
    let signed = match param {
        SolType::Int(n) => {
            if 8 <= *n && *n <= 256 {
                IntDistribution::Mixed { bits: *n, preferred: int_fixtures(*n, &fixtures) }
            } else {
                IntDistribution::Uniform
            }
        },
        _ => IntDistribution::Uniform,
    };
    let unsigned = match param {
        SolType::Uint(n) => {
            if 8 <= *n && *n <= 256 {
                IntDistribution::Mixed { bits: *n, preferred: uint_fixtures(*n, &fixtures) }
            } else {
                IntDistribution::Uniform
            }
        },
        _ => IntDistribution::Uniform,
    };
    let generator = GeneratorConfig { max_array_len: MAX_ARRAY_LEN, max_bytes_len: MAX_BYTES_LEN, signed, unsigned };
    ParamStrategy { param: param.clone(), fixtures, mismatch, generator }
}

/// Where fixtures are not all of the type of the parameter, no fixture is used: every value is the
/// generated one.
pub proof fn mismatched_fixtures_are_not_used(
    strategy: ParamStrategy,
    fixtures: Seq<SolValueView>,
    place: Option<usize>,
    generated: SolValueView,
)
    requires
        !all_of_type(strategy.param@, fixtures),
        strategy.is_for(strategy.param@, Some(fixtures)),
        strategy.has_fixture(place),
    ensures
        place is None,
        strategy.chosen(place, generated) == tidied(generated),
{
}

/// How values are generated that the dictionary is consulted for.
pub fn state_generator() -> (r: GeneratorConfig)
    ensures
        r.max_array_len == MAX_ARRAY_LEN,
        r.max_bytes_len == MAX_BYTES_LEN,
        r.signed@ == DistributionView::Uniform,
        r.unsigned@ == DistributionView::Uniform,
{
    GeneratorConfig {
        max_array_len: MAX_ARRAY_LEN,
        max_bytes_len: MAX_BYTES_LEN,
        signed: IntDistribution::Uniform,
        unsigned: IntDistribution::Uniform,
    }
}

/// `value` may come of `generated`, a generated value of the type, when the dictionary is consulted
/// at every leaf: each leaf is what the dictionary gives, or the generated one where it gives
/// nothing.
pub open spec fn from_state(
    dictionary: FuzzDictionary,
    ty: SolTypeView,
    generated: SolValueView,
    value: SolValueView,
) -> bool
    decreases ty,
{
    match ty {
        SolTypeView::Array(t) => match generated {
            SolValueView::Array(gs) => value matches SolValueView::Array(vs) && vs.len() == gs.len() && forall|i: int|
                0 <= i < gs.len() ==> from_state(dictionary, *t, #[trigger] gs[i], vs[i]),
            _ => value == generated,
        },
        SolTypeView::FixedArray(t, n) => match generated {
            SolValueView::FixedArray(gs) => value matches SolValueView::FixedArray(vs) && vs.len() == gs.len()
                && forall|i: int| 0 <= i < gs.len() ==> from_state(dictionary, *t, #[trigger] gs[i], vs[i]),
            _ => value == generated,
        },
        SolTypeView::Tuple(ts) => match generated {
            SolValueView::Tuple(gs) => if gs.len() == ts.len() {
                value matches SolValueView::Tuple(vs) && vs.len() == gs.len() && forall|i: int|
                    #![trigger gs[i]]
                    0 <= i < ts.len() ==> from_state(dictionary, ts[i], gs[i], vs[i])
            } else {
                value == generated
            },
            _ => value == generated,
        },
        _ => {
            ||| dictionary.may_sample(ty, Some(value))
            ||| dictionary.may_sample(ty, None) && value == generated
        },
    }
}

/// What comes of a generated value of a type, with the dictionary consulted at every leaf, is of
/// that type.
pub proof fn state_values_keep_the_type(
    dictionary: FuzzDictionary,
    ty: SolTypeView,
    generated: SolValueView,
    value: SolValueView,
)
    requires
        type_matches(ty, generated),
        from_state(dictionary, ty, generated, value),
    ensures
        type_matches(ty, value),
    decreases ty,
{
    match ty {
        SolTypeView::Array(t) => {
            let gs = generated->Array_0;
            let vs = value->Array_0;
            assert forall|i: int| 0 <= i < vs.len() implies type_matches(*t, #[trigger] vs[i]) by {
                assert(type_matches(*t, gs[i]));
                state_values_keep_the_type(dictionary, *t, gs[i], vs[i]);
            }
        },
        SolTypeView::FixedArray(t, n) => {
            let gs = generated->FixedArray_0;
            let vs = value->FixedArray_0;
            assert forall|i: int| 0 <= i < vs.len() implies type_matches(*t, #[trigger] vs[i]) by {
                assert(type_matches(*t, gs[i]));
                state_values_keep_the_type(dictionary, *t, gs[i], vs[i]);
            }
        },
        SolTypeView::Tuple(ts) => {
            let gs = generated->Tuple_0;
            let vs = value->Tuple_0;
            assert forall|i: int|
                #![trigger vs[i]]
                0 <= i < ts.len() implies type_matches(ts[i], vs[i]) by {
                assert(type_matches(ts[i], gs[i]));
                state_values_keep_the_type(dictionary, ts[i], gs[i], vs[i]);
            }
        },
        _ => {},
    }
}

/// A value of a type: the generated value, with the dictionary consulted at every leaf.
fn elements_from_state(
    dictionary: &FuzzDictionary,
    ty: &SolType,
    generated: &Vec<SolValue>,
    rng: &mut StdRng,
) -> (r: Vec<SolValue>)
    ensures
        r@.len() == generated@.len(),
        forall|i: int| 0 <= i < generated@.len() ==> from_state(*dictionary, ty@, (#[trigger] generated@[i])@, r@[i]@),
    decreases ty, 1int,
{
    let mut out: Vec<SolValue> = Vec::new();
    let mut i: usize = 0;
    while i < generated.len()
        invariant
            i <= generated@.len(),
            out@.len() == i,
            forall|j: int| 0 <= j < i ==> from_state(*dictionary, ty@, (#[trigger] generated@[j])@, out@[j]@),
        decreases generated@.len() - i,
    {
        out.push(generate_from_state(dictionary, ty, generated[i].clone(), rng));
        i += 1;
    }
    out
}

/// The elements of a tuple: the generated ones, with the dictionary consulted at every leaf.
fn tuple_from_state(
    dictionary: &FuzzDictionary,
    types: &Vec<SolType>,
    generated: &Vec<SolValue>,
    rng: &mut StdRng,
) -> (r: Vec<SolValue>)
    requires
        types@.len() == generated@.len(),
    ensures
        r@.len() == generated@.len(),
        forall|i: int|
            0 <= i < generated@.len() ==> from_state(*dictionary, types@[i]@, (#[trigger] generated@[i])@, r@[i]@),
    decreases types, 1int,
{
    let mut out: Vec<SolValue> = Vec::new();
    let mut i: usize = 0;
    while i < generated.len()
        invariant
            i <= generated@.len(),
            types@.len() == generated@.len(),
            out@.len() == i,
            forall|j: int| 0 <= j < i ==> from_state(*dictionary, types@[j]@, (#[trigger] generated@[j])@, out@[j]@),
        decreases generated@.len() - i,
    {
        out.push(generate_from_state(dictionary, &types[i], generated[i].clone(), rng));
        i += 1;
    }
    out
}

/// A value of a type: the generated value, with the dictionary consulted at every leaf.
pub fn generate_from_state(
    dictionary: &FuzzDictionary,
    ty: &SolType,
    generated: SolValue,
    rng: &mut StdRng,
) -> (r: SolValue)
    ensures
        from_state(*dictionary, ty@, generated@, r@),
    decreases ty, 0int,
{
    match ty {
        SolType::Array(t) => match generated {
            SolValue::Array(gs) => {
                let vs = elements_from_state(dictionary, &**t, &gs, rng);
                let r = SolValue::Array(vs);
                proof {
                    assert(r@->Array_0 =~= value_models(vs@));
                    assert(generated@->Array_0 =~= value_models(gs@));
                    assert forall|i: int| 0 <= i < gs@.len() implies from_state(
                        *dictionary,
                        t@,
                        #[trigger] value_models(gs@)[i],
                        value_models(vs@)[i],
                    ) by {
                        assert(value_models(gs@)[i] == gs@[i]@);
                    }
                }
                r
            },
            _ => generated,
        },
        SolType::FixedArray(t, _) => match generated {
            SolValue::FixedArray(gs) => {
                let vs = elements_from_state(dictionary, &**t, &gs, rng);
                let r = SolValue::FixedArray(vs);
                proof {
                    assert(r@->FixedArray_0 =~= value_models(vs@));
                    assert(generated@->FixedArray_0 =~= value_models(gs@));
                    assert forall|i: int| 0 <= i < gs@.len() implies from_state(
                        *dictionary,
                        t@,
                        #[trigger] value_models(gs@)[i],
                        value_models(vs@)[i],
                    ) by {
                        assert(value_models(gs@)[i] == gs@[i]@);
                    }
                }
                r
            },
            _ => generated,
        },
        SolType::Tuple(ts) => match generated {
            SolValue::Tuple(gs) => {
                assert(generated@->Tuple_0 =~= value_models(gs@));
                assert(ty@->Tuple_0 =~= type_models(ts@));
                if gs.len() == ts.len() {
                    let vs = tuple_from_state(dictionary, ts, &gs, rng);
                    let r = SolValue::Tuple(vs);
                    proof {
                        assert(r@->Tuple_0 =~= value_models(vs@));
                        assert forall|i: int| 0 <= i < gs@.len() implies from_state(
                            *dictionary,
                            type_models(ts@)[i],
                            #[trigger] value_models(gs@)[i],
                            value_models(vs@)[i],
                        ) by {
                            assert(value_models(gs@)[i] == gs@[i]@);
                        }
                    }
                    r
                } else {
                    SolValue::Tuple(gs)
                }
            },
            _ => generated,
        },
        _ => match dictionary.sample(ty, rng) {
            Some(value) => value,
            None => generated,
        },
    }
}

/// `value` may be handed out for `generated`, a generated value of the type, when the dictionary is
/// consulted at every leaf.
pub open spec fn tidied_from_state(
    dictionary: FuzzDictionary,
    ty: SolTypeView,
    generated: SolValueView,
    value: SolValueView,
) -> bool {
    exists|found: SolValueView| #[trigger] from_state(dictionary, ty, generated, found) && value == tidied(found)
}

/// A value of a parameter: the generated value, with the dictionary consulted at every leaf. A
/// string is cleaned.
pub fn fuzz_param_from_state(
    param: &SolType,
    dictionary: &FuzzDictionary,
    generated: SolValue,
    rng: &mut StdRng,
) -> (r: SolValue)
    ensures
        tidied_from_state(*dictionary, param@, generated@, r@),
        type_matches(param@, generated@) ==> type_matches(param@, r@),
{
    let value = generate_from_state(dictionary, param, generated, rng);
    proof {
        if type_matches(param@, generated@) {
            state_values_keep_the_type(*dictionary, param@, generated@, value@);
        }
        tidying_keeps_the_type(param@, value@);
    }
    tidy(value)
}

/// The addresses that stand in words of the dictionary.
pub open spec fn dictionary_addresses(dictionary: FuzzDictionary) -> Seq<Address> {
    Seq::new(dictionary.values@.len(), |i: int| address_of(dictionary.values@[i].bytes@.skip(12)))
}

/// The addresses to choose another address from: the targeted senders, if there are any, or else
/// those of the dictionary.
pub open spec fn other_addresses(dictionary: FuzzDictionary, senders: Option<&SenderFilters>) -> Seq<Address> {
    match senders {
        Some(senders) => if senders.targeted@.len() > 0 {
            senders.targeted@
        } else {
            dictionary_addresses(dictionary)
        },
        None => dictionary_addresses(dictionary),
    }
}

/// The address at a place, if there is one and it is another than `current`.
pub open spec fn other_address(addresses: Seq<Address>, place: int, current: Address) -> Option<Address> {
    if addresses.len() == 0 || addresses[place] == current {
        None
    } else {
        Some(addresses[place])
    }
}

/// The number of addresses to choose another address from.
fn count_other_addresses(dictionary: &FuzzDictionary, senders: Option<&SenderFilters>) -> (r: usize)
    ensures
        r == other_addresses(*dictionary, senders).len(),
{
    match senders {
        Some(senders) => {
            if senders.targeted.len() > 0 {
                senders.targeted.len()
            } else {
                dictionary.values.len()
            }
        },
        None => dictionary.values.len(),
    }
}

/// The address at a place among those to choose another address from, if there is one and it is
/// another than `current`.
pub fn address_at_place(
    current: Address,
    dictionary: &FuzzDictionary,
    senders: Option<&SenderFilters>,
    place: usize,
) -> (r: Option<Address>)
    requires
        other_addresses(*dictionary, senders).len() > 0 ==> place < other_addresses(*dictionary, senders).len(),
    ensures
        r == other_address(other_addresses(*dictionary, senders), place as int, current),
{
    if count_other_addresses(dictionary, senders) == 0 {
        return None;
    }
    let targeted = match senders {
        Some(senders) => senders.targeted.len() > 0,
        None => false,
    };
    let address = if targeted {
        match senders {
            Some(senders) => senders.targeted[place],
            None => current,
        }
    } else {
        let word = dictionary.values[place];
        let address = Address::from_word(word);
        proof {
            let other = address_of(word.bytes@.skip(12));
            assert(other.bytes@ == word.bytes@.skip(12));
            assert(other.bytes =~= address.bytes);
        }
        address
    };
    if address != current {
        Some(address)
    } else {
        None
    }
}

/// Another address than `current`: one of the targeted senders, if there are any, or else one of
/// the dictionary. There is none where the chosen one is `current`, or where there is none to
/// choose from. Excluded senders are not left out here.
pub fn select_random_address(
    current: Address,
    dictionary: &FuzzDictionary,
    senders: Option<&SenderFilters>,
    rng: &mut StdRng,
) -> (r: Option<Address>)
    ensures
        exists|place: int|
            (other_addresses(*dictionary, senders).len() > 0 ==> 0 <= place < other_addresses(
                *dictionary,
                senders,
            ).len()) && r == #[trigger] other_address(other_addresses(*dictionary, senders), place, current),
{
    let count = count_other_addresses(dictionary, senders);
    let place: usize = if count > 0 {
        random_place(rng, count)
    } else {
        0
    };
    address_at_place(current, dictionary, senders, place)
}

/// A selected address is never the current one, and where there are targeted senders it is one of
/// them.
pub proof fn selected_address_is_another(
    dictionary: FuzzDictionary,
    senders: Option<&SenderFilters>,
    current: Address,
    place: int,
)
    requires
        0 <= place < other_addresses(dictionary, senders).len(),
    ensures
        other_address(other_addresses(dictionary, senders), place, current) matches Some(address) ==> {
            &&& address != current
            &&& senders matches Some(s) ==> s.targeted@.len() > 0 ==> s.targeted@.contains(address)
        },
{
}

/// What a mutator and a generator that the host brings along make of a value. Values are generated as
/// [`state_generator`] says, and arrays are mutated up to [`mutator_max_array_len`].
pub struct OutsideValues {
    /// The address, mutated, if the value is one and its mutation gave something.
    pub mutated_address: Option<Address>,
    /// The value, mutated.
    pub mutated: SolValue,
    /// A generated value of the type.
    pub generated: SolValue,
}

/// The largest length that a mutator gives an array.
pub fn mutator_max_array_len() -> (r: usize)
    ensures
        r == MAX_ARRAY_LEN,
{
    MAX_ARRAY_LEN
}

/// The mutation of an address for a roll from zero to five: in one of six cases another address, in
/// one none, and otherwise what the mutator made of it.
pub open spec fn rolled_address(roll: int, selected: Option<Address>, mutated: Option<Address>) -> Option<Address> {
    if roll == 4 {
        selected
    } else if roll == 5 {
        None
    } else {
        mutated
    }
}

/// The mutation of an address for a roll from zero to five.
pub fn address_for_roll(roll: usize, selected: Option<Address>, mutated: Option<Address>) -> (r: Option<Address>)
    ensures
        r == rolled_address(roll as int, selected, mutated),
{
    match roll {
        4 => selected,
        5 => None,
        _ => mutated,
    }
}

/// `value` comes of mutating an address with this roll, and this place of the addresses to choose
/// from.
pub open spec fn is_mutated_address(
    dictionary: FuzzDictionary,
    senders: Option<&SenderFilters>,
    param: SolTypeView,
    current: Address,
    mutated: Option<Address>,
    generated: SolValueView,
    value: SolValueView,
    roll: int,
    place: int,
) -> bool {
    let addresses = other_addresses(dictionary, senders);
    &&& 0 <= roll <= 5
    &&& addresses.len() > 0 ==> 0 <= place < addresses.len()
    &&& match rolled_address(roll, other_address(addresses, place, current), mutated) {
        Some(address) => value == SolValueView::Address(address),
        None => from_state(dictionary, param, generated, value),
    }
}

/// `value` may come of mutating an address.
pub open spec fn may_mutate_address(
    dictionary: FuzzDictionary,
    senders: Option<&SenderFilters>,
    param: SolTypeView,
    current: Address,
    mutated: Option<Address>,
    generated: SolValueView,
    value: SolValueView,
) -> bool {
    exists|roll: int, place: int| #[trigger]
        is_mutated_address(dictionary, senders, param, current, mutated, generated, value, roll, place)
}

/// Mutates a value: an address becomes another one of the dictionary, a mutated one or a new one,
/// and any other value what the mutator made of it.
pub fn mutate_param_value(
    param: &SolType,
    value: &SolValue,
    dictionary: &FuzzDictionary,
    outside: OutsideValues,
    rng: &mut StdRng,
) -> (r: SolValue)
    ensures
        match value@ {
            SolValueView::Address(current) => may_mutate_address(
                *dictionary,
                None,
                param@,
                current,
                outside.mutated_address,
                outside.generated@,
                r@,
            ),
            _ => r@ == outside.mutated@,
        },
        type_matches(param@, value@) && type_matches(param@, outside.mutated@) && type_matches(
            param@,
            outside.generated@,
        ) ==> type_matches(param@, r@),
{
    mutate_param_value_inner(param, value, dictionary, None, outside, rng)
}

/// Mutates a value, as [`mutate_param_value`] does. Where there are targeted senders, another address
/// is one of them.
pub fn mutate_param_value_with_senders(
    param: &SolType,
    value: &SolValue,
    dictionary: &FuzzDictionary,
    senders: &SenderFilters,
    outside: OutsideValues,
    rng: &mut StdRng,
) -> (r: SolValue)
    ensures
        match value@ {
            SolValueView::Address(current) => may_mutate_address(
                *dictionary,
                Some(senders),
                param@,
                current,
                outside.mutated_address,
                outside.generated@,
                r@,
            ),
            _ => r@ == outside.mutated@,
        },
        type_matches(param@, value@) && type_matches(param@, outside.mutated@) && type_matches(
            param@,
            outside.generated@,
        ) ==> type_matches(param@, r@),
{
    mutate_param_value_inner(param, value, dictionary, Some(senders), outside, rng)
}

/// Mutates a value, with sender filters or without.
fn mutate_param_value_inner(
    param: &SolType,
    value: &SolValue,
    dictionary: &FuzzDictionary,
    senders: Option<&SenderFilters>,
    outside: OutsideValues,
    rng: &mut StdRng,
) -> (r: SolValue)
    ensures
        match value@ {
            SolValueView::Address(current) => may_mutate_address(
                *dictionary,
                senders,
                param@,
                current,
                outside.mutated_address,
                outside.generated@,
                r@,
            ),
            _ => r@ == outside.mutated@,
        },
        type_matches(param@, value@) && type_matches(param@, outside.mutated@) && type_matches(
            param@,
            outside.generated@,
        ) ==> type_matches(param@, r@),
{
    if let SolValue::Address(current) = value {
        let roll = random_place(rng, 6);
        let selected = if roll == 4 {
            select_random_address(*current, dictionary, senders, rng)
        } else {
            None
        };
        let ghost addresses = other_addresses(*dictionary, senders);
        let ghost place: int = if roll == 4 {
            choose|place: int|
                (addresses.len() > 0 ==> 0 <= place < addresses.len()) && selected == #[trigger] other_address(
                    addresses,
                    place,
                    *current,
                )
        } else {
            0
        };
        let r = match address_for_roll(roll, selected, outside.mutated_address) {
            Some(address) => SolValue::Address(address),
            None => {
                let generated = generate_from_state(dictionary, param, outside.generated, rng);
                proof {
                    if type_matches(param@, outside.generated@) {
                        state_values_keep_the_type(*dictionary, param@, outside.generated@, generated@);
                    }
                }
                generated
            },
        };
        assert(is_mutated_address(
            *dictionary,
            senders,
            param@,
            *current,
            outside.mutated_address,
            outside.generated@,
            r@,
            roll as int,
            place,
        ));
        r
    } else {
        outside.mutated
    }
}

/// 0.001 ETH in wei.
pub const MILLI_ETH: u64 = 1_000_000_000_000_000;

/// 1 ETH in wei.
pub const ONE_ETH: u64 = 1_000_000_000_000_000_000;

/// The largest value that is sent for a roll below one hundred, if any is sent: none in 85 of 100
/// cases, up to 1000 wei in 10, up to 0.001 ETH in 4, and up to 1 ETH in one.
pub open spec fn value_limit(roll: int) -> Option<u64> {
    if roll <= 84 {
        None
    } else if roll <= 94 {
        Some(1000)
    } else if roll <= 98 {
        Some(MILLI_ETH)
    } else {
        Some(ONE_ETH)
    }
}

/// The largest value that is sent for a roll below one hundred, if any is sent.
pub fn msg_value_limit(roll: usize) -> (r: Option<u64>)
    ensures
        r == value_limit(roll as int),
{
    if roll <= 84 {
        None
    } else if roll <= 94 {
        Some(1000)
    } else if roll <= 98 {
        Some(MILLI_ETH)
    } else {
        Some(ONE_ETH)
    }
}

/// The value that is sent for a roll below one hundred and an amount up to its limit.
pub fn msg_value_for(roll: usize, amount: u64) -> (r: Option<Word>)
    ensures
        r is Some == value_limit(roll as int) is Some,
        r matches Some(value) ==> value.value() == amount,
{
    match msg_value_limit(roll) {
        Some(_) => Some(word_from_u64(amount)),
        None => None,
    }
}

/// `value` may be drawn for a call of a payable function: none, or a value up to the limit of some
/// roll.
pub open spec fn is_msg_value(value: Option<Word>) -> bool {
    exists|roll: int|
        0 <= roll < 100 && match #[trigger] value_limit(roll) {
            None => value is None,
            Some(limit) => value matches Some(word) && word.value() <= limit,
        }
}

/// No value that is drawn is larger than 1 ETH.
pub proof fn drawn_values_are_bounded(value: Word)
    requires
        is_msg_value(Some(value)),
    ensures
        value.value() <= ONE_ETH,
{
}

/// A value for a call of a payable function: none in most cases, and small ones more often than
/// large ones.
pub fn fuzz_msg_value(rng: &mut StdRng) -> (r: Option<Word>)
    ensures
        is_msg_value(r),
{
    let roll = random_place(rng, 100);
    let amount = match msg_value_limit(roll) {
        Some(limit) => random_up_to(rng, limit),
        None => 0,
    };
    msg_value_for(roll, amount)
}

/// The largest generated value for a roll below one hundred: up to 1000 wei in 60 of 100 cases, up to
/// 0.001 ETH in 30, and up to 1 ETH in 9. In the one that is left the value is the largest word.
pub open spec fn generated_limit(roll: int) -> Option<u64> {
    if roll < 60 {
        Some(1000)
    } else if roll < 90 {
        Some(MILLI_ETH)
    } else if roll < 99 {
        Some(ONE_ETH)
    } else {
        None
    }
}

/// The largest generated value for a roll below one hundred, or none for the largest word.
pub fn generated_value_limit(roll: usize) -> (r: Option<u64>)
    ensures
        r == generated_limit(roll as int),
{
    if roll < 60 {
        Some(1000)
    } else if roll < 90 {
        Some(MILLI_ETH)
    } else if roll < 99 {
        Some(ONE_ETH)
    } else {
        None
    }
}

/// The generated value for a roll below one hundred and an amount up to its limit.
pub fn generated_value_for(roll: usize, amount: u64) -> (r: Word)
    ensures
        match generated_limit(roll as int) {
            Some(_) => r.value() == amount,
            None => forall|i: int| 0 <= i < 32 ==> r.bytes@[i] == 0xff,
        },
{
    match generated_value_limit(roll) {
        Some(_) => word_from_u64(amount),
        None => Word::max(),
    }
}

/// A value for a call of a payable function, small ones more often than large ones.
pub fn generate_msg_value(rng: &mut StdRng) -> (r: Word)
    ensures
        exists|roll: int|
            0 <= roll < 100 && match #[trigger] generated_limit(roll) {
                Some(limit) => r.value() <= limit,
                None => forall|i: int| 0 <= i < 32 ==> r.bytes@[i] == 0xff,
            },
{
    let roll = random_place(rng, 100);
    let amount = match generated_value_limit(roll) {
        Some(limit) => random_up_to(rng, limit),
        None => 0,
    };
    generated_value_for(roll, amount)
}

/// The preferred integers are those fixtures that are integers of the size, signed or unsigned, and no other; all
/// of them where all fixtures are.
pub proof fn preferred_integers_are_fixtures(bits: nat, values: Seq<SolValueView>, word: Word)
    ensures
        ints_of(bits, values).contains(word) <==> values.contains(SolValueView::Int(word, bits)),
        uints_of(bits, values).contains(word) <==> values.contains(SolValueView::Uint(word, bits)),
        all_of_type(SolTypeView::Int(bits), values) ==> ints_of(bits, values).len() == values.len(),
        all_of_type(SolTypeView::Uint(bits), values) ==> uints_of(bits, values).len() == values.len(),
    decreases values.len(),
{
    if values.len() > 0 {
        let rest = values.drop_last();
        let last = values.last();
        preferred_integers_are_fixtures(bits, rest, word);
        let signed = SolValueView::Int(word, bits);
        let unsigned = SolValueView::Uint(word, bits);
        if rest.contains(signed) {
            assert(values[rest.index_of(signed)] == signed);
            let k = ints_of(bits, rest).index_of(word);
            assert(ints_of(bits, values)[k] == word);
        }
        if rest.contains(unsigned) {
            assert(values[rest.index_of(unsigned)] == unsigned);
            let k = uints_of(bits, rest).index_of(word);
            assert(uints_of(bits, values)[k] == word);
        }
        if last == signed {
            assert(values[values.len() - 1] == signed);
            assert(ints_of(bits, values)[ints_of(bits, rest).len() as int] == word);
        }
        if last == unsigned {
            assert(values[values.len() - 1] == unsigned);
            assert(uints_of(bits, values)[uints_of(bits, rest).len() as int] == word);
        }
        if values.contains(signed) && last != signed {
            let k = values.index_of(signed);
            assert(rest[k] == signed);
        }
        if values.contains(unsigned) && last != unsigned {
            let k = values.index_of(unsigned);
            assert(rest[k] == unsigned);
        }
        if ints_of(bits, values).contains(word) && !ints_of(bits, rest).contains(word) {
            let k = ints_of(bits, values).index_of(word);
            if k < ints_of(bits, rest).len() {
                assert(ints_of(bits, rest)[k] == word);
            }
            assert(last == signed);
        }
        if uints_of(bits, values).contains(word) && !uints_of(bits, rest).contains(word) {
            let k = uints_of(bits, values).index_of(word);
            if k < uints_of(bits, rest).len() {
                assert(uints_of(bits, rest)[k] == word);
            }
            assert(last == unsigned);
        }
        assert forall|ty: SolTypeView| #[trigger] all_of_type(ty, values) implies all_of_type(ty, rest) && type_matches(
            ty,
            last,
        ) by {
            assert forall|i: int| 0 <= i < rest.len() implies type_matches(ty, #[trigger] rest[i]) by {
                assert(rest[i] == values[i]);
            }
            assert(type_matches(ty, values[values.len() - 1]));
        }
    }
}

/// Fixtures are used as they are, all of them, exactly where each is of the type; one that is not is enough for
/// none to be used.
pub proof fn fixtures_are_used_all_or_none(ty: SolTypeView, values: Seq<SolValueView>, i: int)
    ensures
        (forall|k: int| 0 <= k < values.len() ==> type_matches(ty, #[trigger] values[k])) ==> used_fixtures(
            ty,
            Some(values),
        ) == Some(values),
        0 <= i < values.len() && !type_matches(ty, values[i]) ==> used_fixtures(ty, Some(values)) is None,
        used_fixtures(ty, None) is None,
        fixture_values(Some(values)) == values,
        fixture_values(None).len() == 0,
{
}

/// Integers of a size that a type has are generated with the fixtures of that size preferred, each sign for its
/// own type; all other values alike.
pub proof fn integers_prefer_their_fixtures(ty: SolTypeView, n: nat, fixtures: Seq<SolValueView>)
    requires
        8 <= n <= 256,
    ensures
        int_distribution(SolTypeView::Int(n), Some(fixtures)) == (DistributionView::Mixed {
            bits: n,
            preferred: ints_of(n, fixtures),
        }),
        uint_distribution(SolTypeView::Uint(n), Some(fixtures)) == (DistributionView::Mixed {
            bits: n,
            preferred: uints_of(n, fixtures),
        }),
        !(ty is Int) ==> int_distribution(ty, Some(fixtures)) is Uniform,
        !(ty is Uint) ==> uint_distribution(ty, Some(fixtures)) is Uniform,
{
}

/// A string is handed out cleaned, and any other value as it is.
pub proof fn only_strings_are_tidied(value: SolValueView, text: Seq<char>)
    ensures
        !(value is String) ==> tidied(value) == value,
        tidied(SolValueView::String(text)) == SolValueView::String(cleaned(text)),
{
}

/// The value of a parameter is the fixture at the place, where one is chosen, and otherwise the generated one;
/// only a string is changed, which is cleaned.
pub proof fn values_are_what_was_chosen(strategy: ParamStrategy, place: usize, generated: SolValueView)
    requires
        strategy.fixtures matches Some(values) && place < values@.len(),
    ensures
        ({
            let fixture = strategy.fixtures->0@[place as int]@;
            &&& strategy.has_fixture(Some(place))
            &&& strategy.has_fixture(None)
            &&& !(fixture is String) ==> strategy.chosen(Some(place), generated) == fixture
            &&& fixture matches SolValueView::String(text) ==> strategy.chosen(Some(place), generated)
                == SolValueView::String(cleaned(text))
            &&& !(generated is String) ==> strategy.chosen(None, generated) == generated
            &&& generated matches SolValueView::String(text) ==> strategy.chosen(None, generated)
                == SolValueView::String(cleaned(text))
        }),
{
}

/// A fixture is taken exactly where one is to be taken and there is any, and it is the one at the drawn place.
pub proof fn drawn_fixtures_are_taken(strategy: ParamStrategy, taken: bool, place: usize)
    ensures
        strategy.fixture_count() == (match strategy.fixtures {
            Some(values) => values@.len(),
            None => 0,
        }),
        taken && strategy.fixture_count() > 0 ==> strategy.drawn_fixture(taken, place) == Some(place),
        !taken || strategy.fixture_count() == 0 ==> strategy.drawn_fixture(taken, place) is None,
{
}

/// What comes of a generated array, with the dictionary consulted, is an array of the same length whose elements
/// come of the generated ones at their places; the same holds of arrays of fixed size and of tuples.
pub proof fn compound_values_keep_their_shape(
    dictionary: FuzzDictionary,
    ty: SolTypeView,
    types: Seq<SolTypeView>,
    generated: Seq<SolValueView>,
    value: SolValueView,
    i: int,
)
    ensures
        from_state(dictionary, SolTypeView::Array(Box::new(ty)), SolValueView::Array(generated), value) ==> (
        value matches SolValueView::Array(values) && values.len() == generated.len() && (0 <= i < values.len()
            ==> from_state(dictionary, ty, generated[i], values[i]))),
        from_state(
            dictionary,
            SolTypeView::FixedArray(Box::new(ty), generated.len()),
            SolValueView::FixedArray(generated),
            value,
        ) ==> (value matches SolValueView::FixedArray(values) && values.len() == generated.len() && (0 <= i
            < values.len() ==> from_state(dictionary, ty, generated[i], values[i]))),
        types.len() == generated.len() && from_state(
            dictionary,
            SolTypeView::Tuple(types),
            SolValueView::Tuple(generated),
            value,
        ) ==> (value matches SolValueView::Tuple(values) && values.len() == generated.len() && (0 <= i < values.len()
            ==> from_state(dictionary, types[i], generated[i], values[i]))),
{
    reveal_with_fuel(from_state, 2);
    let array = SolValueView::Array(generated);
    let fixed = SolValueView::FixedArray(generated);
    let tuple = SolValueView::Tuple(generated);
    assert(array->Array_0[i] == generated[i]);
    assert(fixed->FixedArray_0[i] == generated[i]);
    assert(tuple->Tuple_0[i] == generated[i]);
}

/// A leaf is what the dictionary gives, or the generated value; and the generated value is kept where the
/// dictionary gives nothing, as for booleans and functions always.
pub proof fn leaves_come_from_the_dictionary_or_the_generator(
    dictionary: FuzzDictionary,
    ty: SolTypeView,
    generated: SolValueView,
    value: SolValueView,
)
    requires
        !(ty is Array || ty is FixedArray || ty is Tuple),
        from_state(dictionary, ty, generated, value),
    ensures
        value == generated || dictionary.may_sample(ty, Some(value)),
        ty is Bool || ty is Function ==> value == generated,
{
    if ty is Bool || ty is Function {
        if dictionary.may_sample(ty, Some(value)) {
            other_types_are_not_sampled(dictionary, ty, Some(value));
        }
    }
}

/// Another address is one of the targeted senders, where there are any, and otherwise one whose bytes stand last
/// in a word of the dictionary.
pub proof fn other_addresses_are_senders_or_seen(
    dictionary: FuzzDictionary,
    senders: Option<&SenderFilters>,
    i: int,
)
    ensures
        ({
            let addresses = other_addresses(dictionary, senders);
            let targeted = senders matches Some(s) && s.targeted@.len() > 0;
            &&& targeted ==> addresses == senders->0.targeted@
            &&& !targeted ==> addresses.len() == dictionary.values@.len()
            &&& !targeted && 0 <= i < addresses.len() ==> addresses[i].bytes@ == dictionary.values@[i].bytes@.skip(12)
        }),
{
    if 0 <= i < dictionary.values@.len() {
        address_of_has_the_bytes(dictionary.values@[i].bytes@.skip(12));
    }
}

/// The address at a place is given where it is another than the current one, and otherwise none.
pub proof fn other_addresses_are_given_where_they_differ(addresses: Seq<Address>, place: int, current: Address)
    requires
        0 <= place < addresses.len(),
    ensures
        addresses[place] != current ==> other_address(addresses, place, current) == Some(addresses[place]),
        addresses[place] == current ==> other_address(addresses, place, current) is None,
        other_address(Seq::empty(), place, current) is None,
{
}

/// Four of six rolls give what the mutator made of an address, one the selected address, and one a value as the
/// dictionary and the generator give it.
pub proof fn rolls_decide_how_addresses_are_mutated(
    dictionary: FuzzDictionary,
    senders: Option<&SenderFilters>,
    param: SolTypeView,
    current: Address,
    mutated: Option<Address>,
    generated: SolValueView,
    value: SolValueView,
    roll: int,
    place: int,
)
    requires
        is_mutated_address(dictionary, senders, param, current, mutated, generated, value, roll, place),
    ensures
        0 <= roll < 6,
        roll < 4 && mutated is Some ==> value == SolValueView::Address(mutated->0),
        roll == 4 && other_addresses(dictionary, senders).len() > 0 && other_addresses(dictionary, senders)[place]
            != current ==> value == SolValueView::Address(other_addresses(dictionary, senders)[place]),
        roll == 5 || roll < 4 && mutated is None || roll == 4 && (other_addresses(dictionary, senders).len() == 0
            || other_addresses(dictionary, senders)[place] == current) ==> from_state(
            dictionary,
            param,
            generated,
            value,
        ),
{
}

/// Of a hundred rolls, 85 send nothing, ten up to a thousand wei, four up to a thousandth of an ether and one up
/// to an ether.
pub proof fn rolls_decide_how_much_is_sent(roll: int)
    ensures
        0 <= roll < 85 ==> value_limit(roll) is None,
        85 <= roll < 85 + 10 ==> value_limit(roll) == Some(1000u64),
        95 <= roll < 95 + 4 ==> value_limit(roll) == Some(1_000_000_000_000_000u64),
        roll == 99 ==> value_limit(roll) == Some(1_000_000_000_000_000_000u64),
{
}

/// Of a hundred rolls, sixty generate a value up to a thousand wei, thirty up to a thousandth of an ether, nine up
/// to an ether and one the largest word.
pub proof fn rolls_decide_how_large_generated_values_are(roll: int)
    ensures
        0 <= roll < 60 ==> generated_limit(roll) == Some(1000u64),
        60 <= roll < 60 + 30 ==> generated_limit(roll) == Some(1_000_000_000_000_000u64),
        90 <= roll < 90 + 9 ==> generated_limit(roll) == Some(1_000_000_000_000_000_000u64),
        roll == 99 ==> generated_limit(roll) is None,
{
}

/// Every value up to a limit may be drawn, and so may none.
pub proof fn drawn_values_may_be_any_up_to_an_ether(value: Word)
    ensures
        is_msg_value(None),
        is_msg_value(Some(value)) <==> value.value() <= 1_000_000_000_000_000_000,
{
    assert(value_limit(0) is None);
    assert(value_limit(99) == Some(ONE_ETH));
    if is_msg_value(Some(value)) {
        drawn_values_are_bounded(value);
    }
}

/// A distribution is known by its size and by what is preferred, in order.
pub proof fn distributions_are_known_by_their_parts(distribution: IntDistribution)
    ensures
        distribution is Uniform ==> distribution@ is Uniform,
        distribution matches IntDistribution::Mixed { bits, preferred } ==> distribution@ == (DistributionView::Mixed {
            bits: bits as nat,
            preferred: preferred@,
        }),
{
}

/// A strategy is for the type of its parameter, with all of the fixtures where each is of that type, and with none
/// otherwise; it generates arrays of up to 256 elements, and bytes and strings of up to 32 bytes.
pub proof fn strategies_are_for_their_parameters(
    strategy: ParamStrategy,
    ty: SolTypeView,
    fixtures: Seq<SolValueView>,
)
    requires
        strategy.is_for(ty, Some(fixtures)),
    ensures
        strategy.param@ == ty,
        strategy.generator.max_array_len == 256,
        strategy.generator.max_bytes_len == 32,
        (forall|i: int| 0 <= i < fixtures.len() ==> type_matches(ty, #[trigger] fixtures[i])) ==> (
        strategy.fixtures matches Some(used) && value_models(used@) == fixtures),
        (exists|i: int| 0 <= i < fixtures.len() && !type_matches(ty, #[trigger] fixtures[i])) ==> strategy.fixtures is None,
        !(ty is Int) ==> strategy.generator.signed is Uniform,
        !(ty is Uint) ==> strategy.generator.unsigned is Uniform,
{
}

/// An address may be mutated to what the mutator made of it, and to every other address that there is to choose
/// from.
pub proof fn addresses_may_be_mutated_to_any_other(
    dictionary: FuzzDictionary,
    senders: Option<&SenderFilters>,
    param: SolTypeView,
    current: Address,
    mutated: Option<Address>,
    generated: SolValueView,
    place: int,
)
    ensures
        mutated matches Some(address) ==> may_mutate_address(
            dictionary,
            senders,
            param,
            current,
            mutated,
            generated,
            SolValueView::Address(address),
        ),
        ({
            let addresses = other_addresses(dictionary, senders);
            0 <= place < addresses.len() && addresses[place] != current ==> may_mutate_address(
                dictionary,
                senders,
                param,
                current,
                mutated,
                generated,
                SolValueView::Address(addresses[place]),
            )
        }),
{
    let addresses = other_addresses(dictionary, senders);
    if let Some(address) = mutated {
        let value = SolValueView::Address(address);
        assert(is_mutated_address(dictionary, senders, param, current, mutated, generated, value, 0, 0));
    }
    if 0 <= place < addresses.len() && addresses[place] != current {
        let value = SolValueView::Address(addresses[place]);
        assert(is_mutated_address(dictionary, senders, param, current, mutated, generated, value, 4, place));
    }
}

} // verus!
