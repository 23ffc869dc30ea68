//! Solidity types and values.

use vstd::prelude::*;

use crate::fixed::{Address, FixedBytes, Word};

verus! {

/// A Solidity type. Integer sizes are in bits, fixed byte string sizes in bytes.
#[derive(Debug)]
pub enum SolType {
    Bool,
    Int(usize),
    Uint(usize),
    FixedBytes(usize),
    Address,
    Function,
    Bytes,
    String,
    Array(Box<SolType>),
    FixedArray(Box<SolType>, usize),
    Tuple(Vec<SolType>),
}

/// The model of a [`SolType`].
pub enum SolTypeView {
    Bool,
    Int(nat),
    Uint(nat),
    FixedBytes(nat),
    Address,
    Function,
    Bytes,
    String,
    Array(Box<SolTypeView>),
    FixedArray(Box<SolTypeView>, nat),
    Tuple(Seq<SolTypeView>),
}

/// A Solidity value. Integers are held as two's complement words.
#[derive(Debug)]
pub enum SolValue {
    Bool(bool),
    Int(Word, usize),
    Uint(Word, usize),
    FixedBytes(Word, usize),
    Address(Address),
    Function(FixedBytes<24>),
    Bytes(Vec<u8>),
    String(String),
    Array(Vec<SolValue>),
    FixedArray(Vec<SolValue>),
    Tuple(Vec<SolValue>),
}

/// The model of a [`SolValue`].
pub enum SolValueView {
    Bool(bool),
    Int(Word, nat),
    Uint(Word, nat),
    FixedBytes(Word, nat),
    Address(Address),
    Function(FixedBytes<24>),
    Bytes(Seq<u8>),
    String(Seq<char>),
    Array(Seq<SolValueView>),
    FixedArray(Seq<SolValueView>),
    Tuple(Seq<SolValueView>),
}

impl SolType {
    /// The model of the type.
    pub open spec fn model(self) -> SolTypeView
        decreases self,
    {
        match self {
            SolType::Bool => SolTypeView::Bool,
            SolType::Int(n) => SolTypeView::Int(n as nat),
            SolType::Uint(n) => SolTypeView::Uint(n as nat),
            SolType::FixedBytes(n) => SolTypeView::FixedBytes(n as nat),
            SolType::Address => SolTypeView::Address,
            SolType::Function => SolTypeView::Function,
            SolType::Bytes => SolTypeView::Bytes,
            SolType::String => SolTypeView::String,
            SolType::Array(t) => SolTypeView::Array(Box::new(t.model())),
            SolType::FixedArray(t, n) => SolTypeView::FixedArray(Box::new(t.model()), n as nat),
            SolType::Tuple(ts) => SolTypeView::Tuple(
                Seq::new(
                    ts@.len(),
                    |i: int|
                        if 0 <= i < ts@.len() {
                            ts@[i].model()
                        } else {
                            arbitrary()
                        },
                ),
            ),
        }
    }
}

impl View for SolType {
    type V = SolTypeView;

    open spec fn view(&self) -> SolTypeView {
        self.model()
    }
}

/// The models of `types`.
pub open spec fn type_models(types: Seq<SolType>) -> Seq<SolTypeView> {
    Seq::new(types.len(), |i: int| types[i]@)
}

impl SolValue {
    /// The model of the value.
    pub open spec fn model(self) -> SolValueView
        decreases self,
    {
        match self {
            SolValue::Bool(b) => SolValueView::Bool(b),
            SolValue::Int(w, n) => SolValueView::Int(w, n as nat),
            SolValue::Uint(w, n) => SolValueView::Uint(w, n as nat),
            SolValue::FixedBytes(w, n) => SolValueView::FixedBytes(w, n as nat),
            SolValue::Address(a) => SolValueView::Address(a),
            SolValue::Function(f) => SolValueView::Function(f),
            SolValue::Bytes(b) => SolValueView::Bytes(b@),
            SolValue::String(s) => SolValueView::String(s@),
            SolValue::Array(vs) => SolValueView::Array(
                Seq::new(
                    vs@.len(),
                    |i: int|
                        if 0 <= i < vs@.len() {
                            vs@[i].model()
                        } else {
                            arbitrary()
                        },
                ),
            ),
            SolValue::FixedArray(vs) => SolValueView::FixedArray(
                Seq::new(
                    vs@.len(),
                    |i: int|
                        if 0 <= i < vs@.len() {
                            vs@[i].model()
                        } else {
                            arbitrary()
                        },
                ),
            ),
            SolValue::Tuple(vs) => SolValueView::Tuple(
                Seq::new(
                    vs@.len(),
                    |i: int|
                        if 0 <= i < vs@.len() {
                            vs@[i].model()
                        } else {
                            arbitrary()
                        },
                ),
            ),
        }
    }
}

impl View for SolValue {
    type V = SolValueView;

    open spec fn view(&self) -> SolValueView {
        self.model()
    }
}

/// The models of `values`.
pub open spec fn value_models(values: Seq<SolValue>) -> Seq<SolValueView> {
    Seq::new(values.len(), |i: int| values[i]@)
}

/// Whether `value` has the type `ty`.
pub open spec fn type_matches(ty: SolTypeView, value: SolValueView) -> bool
    decreases ty,
{
    match (ty, value) {
        (SolTypeView::Bool, SolValueView::Bool(_)) => true,
        (SolTypeView::Int(n), SolValueView::Int(_, m)) => n == m,
        (SolTypeView::Uint(n), SolValueView::Uint(_, m)) => n == m,
        (SolTypeView::FixedBytes(n), SolValueView::FixedBytes(_, m)) => n == m,
        (SolTypeView::Address, SolValueView::Address(_)) => true,
        (SolTypeView::Function, SolValueView::Function(_)) => true,
        (SolTypeView::Bytes, SolValueView::Bytes(_)) => true,
        (SolTypeView::String, SolValueView::String(_)) => true,
        (SolTypeView::Array(t), SolValueView::Array(vs)) => forall|i: int|
            0 <= i < vs.len() ==> type_matches(*t, #[trigger] vs[i]),
        (SolTypeView::FixedArray(t, n), SolValueView::FixedArray(vs)) => vs.len() == n && forall|i: int|
            0 <= i < vs.len() ==> type_matches(*t, #[trigger] vs[i]),
        (SolTypeView::Tuple(ts), SolValueView::Tuple(vs)) => vs.len() == ts.len() && forall|i: int|
            #![trigger vs[i]]
            0 <= i < ts.len() ==> type_matches(ts[i], vs[i]),
        _ => false,
    }
}

/// Whether every value has the type `ty`.
fn all_match(ty: &SolType, values: &Vec<SolValue>) -> (r: bool)
    ensures
        r == (forall|i: int| 0 <= i < values@.len() ==> type_matches(ty@, (#[trigger] values@[i])@)),
    decreases ty, 1int,
{
    let mut i: usize = 0;
    while i < values.len()
        invariant
            i <= values@.len(),
            forall|j: int| 0 <= j < i ==> type_matches(ty@, (#[trigger] values@[j])@),
        decreases values@.len() - i,
    {
        if !ty.matches(&values[i]) {
            return false;
        }
        i += 1;
    }
    true
}

impl SolType {
    /// Whether `value` has this type.
    pub fn matches(&self, value: &SolValue) -> (r: bool)
        ensures
            r == type_matches(self@, value@),
        decreases self, 0int,
    {
        match (self, value) {
            (SolType::Bool, SolValue::Bool(_)) => true,
            (SolType::Int(n), SolValue::Int(_, m)) => *n == *m,
            (SolType::Uint(n), SolValue::Uint(_, m)) => *n == *m,
            (SolType::FixedBytes(n), SolValue::FixedBytes(_, m)) => *n == *m,
            (SolType::Address, SolValue::Address(_)) => true,
            (SolType::Function, SolValue::Function(_)) => true,
            (SolType::Bytes, SolValue::Bytes(_)) => true,
            (SolType::String, SolValue::String(_)) => true,
            (SolType::Array(t), SolValue::Array(vs)) => {
                let r = all_match(&**t, vs);
                assert(value@->Array_0 =~= value_models(vs@));
                assert(forall|i: int| 0 <= i < vs@.len() ==> value_models(vs@)[i] == #[trigger] vs@[i]@);
                r
            },
            (SolType::FixedArray(t, n), SolValue::FixedArray(vs)) => {
                let r = all_match(&**t, vs);
                assert(value@->FixedArray_0 =~= value_models(vs@));
                assert(forall|i: int| 0 <= i < vs@.len() ==> value_models(vs@)[i] == #[trigger] vs@[i]@);
                vs.len() == *n && r
            },
            (SolType::Tuple(ts), SolValue::Tuple(vs)) => {
                if ts.len() != vs.len() {
                    return false;
                }
                let mut i: usize = 0;
                while i < ts.len()
                    invariant
                        i <= ts@.len(),
                        ts@.len() == vs@.len(),
                        *self == SolType::Tuple(*ts),
                        *value == SolValue::Tuple(*vs),
                        forall|j: int| 0 <= j < i ==> type_matches(ts@[j]@, (#[trigger] vs@[j])@),
                    decreases ts@.len() - i,
                {
                    if !ts[i].matches(&vs[i]) {
                        assert(!type_matches(self@->Tuple_0[i as int], value@->Tuple_0[i as int]));
                        return false;
                    }
                    i += 1;
                }
                assert(value@->Tuple_0 =~= value_models(vs@));
                assert(self@->Tuple_0 =~= type_models(ts@));
                true
            },
            _ => false,
        }
    }
}

/// A copy of `values`.
pub fn clone_values(values: &Vec<SolValue>) -> (r: Vec<SolValue>)
    ensures
        value_models(r@) == value_models(values@),
    decreases values,
{
    let mut out: Vec<SolValue> = Vec::new();
    let mut i: usize = 0;
    while i < values.len()
        invariant
            i <= values@.len(),
            out@.len() == i,
            forall|j: int| 0 <= j < i ==> (#[trigger] out@[j])@ == values@[j]@,
        decreases values@.len() - i,
    {
        out.push(values[i].clone());
        i += 1;
    }
    assert(value_models(out@) =~= value_models(values@));
    out
}

impl Clone for SolValue {
    fn clone(&self) -> (r: Self)
        ensures
            r@ == self@,
        decreases self,
    {
        match self {
            SolValue::Bool(b) => SolValue::Bool(*b),
            SolValue::Int(w, n) => SolValue::Int(*w, *n),
            SolValue::Uint(w, n) => SolValue::Uint(*w, *n),
            SolValue::FixedBytes(w, n) => SolValue::FixedBytes(*w, *n),
            SolValue::Address(a) => SolValue::Address(*a),
            SolValue::Function(f) => SolValue::Function(*f),
            SolValue::Bytes(b) => SolValue::Bytes(b.clone()),
            SolValue::String(s) => SolValue::String(s.clone()),
            SolValue::Array(vs) => {
                let copy = clone_values(vs);
                let r = SolValue::Array(copy);
                assert(r@->Array_0 =~= value_models(copy@));
                assert(self@->Array_0 =~= value_models(vs@));
                r
            },
            SolValue::FixedArray(vs) => {
                let copy = clone_values(vs);
                let r = SolValue::FixedArray(copy);
                assert(r@->FixedArray_0 =~= value_models(copy@));
                assert(self@->FixedArray_0 =~= value_models(vs@));
                r
            },
            SolValue::Tuple(vs) => {
                let copy = clone_values(vs);
                let r = SolValue::Tuple(copy);
                assert(r@->Tuple_0 =~= value_models(copy@));
                assert(self@->Tuple_0 =~= value_models(vs@));
                r
            },
        }
    }
}

/// A copy of `types`.
pub fn clone_types(types: &Vec<SolType>) -> (r: Vec<SolType>)
    ensures
        type_models(r@) == type_models(types@),
    decreases types,
{
    let mut out: Vec<SolType> = Vec::new();
    let mut i: usize = 0;
    while i < types.len()
        invariant
            i <= types@.len(),
            out@.len() == i,
            forall|j: int| 0 <= j < i ==> (#[trigger] out@[j])@ == types@[j]@,
        decreases types@.len() - i,
    {
        out.push(types[i].clone());
        i += 1;
    }
    assert(type_models(out@) =~= type_models(types@));
    out
}

impl Clone for SolType {
    fn clone(&self) -> (r: Self)
        ensures
            r@ == self@,
        decreases self,
    {
        match self {
            SolType::Bool => SolType::Bool,
            SolType::Int(n) => SolType::Int(*n),
            SolType::Uint(n) => SolType::Uint(*n),
            SolType::FixedBytes(n) => SolType::FixedBytes(*n),
            SolType::Address => SolType::Address,
            SolType::Function => SolType::Function,
            SolType::Bytes => SolType::Bytes,
            SolType::String => SolType::String,
            SolType::Array(t) => SolType::Array(Box::new((&**t).clone())),
            SolType::FixedArray(t, n) => SolType::FixedArray(Box::new((&**t).clone()), *n),
            SolType::Tuple(ts) => {
                let out = clone_types(ts);
                let r = SolType::Tuple(out);
                assert(r@->Tuple_0 =~= type_models(out@));
                assert(self@->Tuple_0 =~= type_models(ts@));
                r
            },
        }
    }
}

impl SolValue {
    /// The signed integer and its size in bits, if this is one.
    pub fn as_int(&self) -> (r: Option<(Word, usize)>)
        ensures
            r == (match *self {
                SolValue::Int(w, n) => Some((w, n)),
                _ => None,
            }),
    {
        match self {
            SolValue::Int(w, n) => Some((*w, *n)),
            _ => None,
        }
    }

    /// The unsigned integer and its size in bits, if this is one.
    pub fn as_uint(&self) -> (r: Option<(Word, usize)>)
        ensures
            r == (match *self {
                SolValue::Uint(w, n) => Some((w, n)),
                _ => None,
            }),
    {
        match self {
            SolValue::Uint(w, n) => Some((*w, *n)),
            _ => None,
        }
    }
}

/// Values of simple types are told apart by their types, and those of sizes by their sizes.
pub proof fn simple_values_match_their_own_type(value: SolValueView, n: nat)
    ensures
        type_matches(SolTypeView::Bool, value) == value is Bool,
        type_matches(SolTypeView::Address, value) == value is Address,
        type_matches(SolTypeView::Function, value) == value is Function,
        type_matches(SolTypeView::Bytes, value) == value is Bytes,
        type_matches(SolTypeView::String, value) == value is String,
        type_matches(SolTypeView::Int(n), value) == (value matches SolValueView::Int(_, m) && m == n),
        type_matches(SolTypeView::Uint(n), value) == (value matches SolValueView::Uint(_, m) && m == n),
        type_matches(SolTypeView::FixedBytes(n), value) == (value matches SolValueView::FixedBytes(_, m) && m == n),
{
}

/// The values of an array are all of the type of its elements, as many as a fixed size says; those of a tuple are
/// as many as its types, each of the type at its place.
pub proof fn compound_values_match_element_by_element(
    ty: SolTypeView,
    types: Seq<SolTypeView>,
    n: nat,
    values: Seq<SolValueView>,
)
    ensures
        type_matches(SolTypeView::Array(Box::new(ty)), SolValueView::Array(values)) == (forall|i: int|
            0 <= i < values.len() ==> type_matches(ty, #[trigger] values[i])),
        type_matches(SolTypeView::FixedArray(Box::new(ty), n), SolValueView::FixedArray(values)) == (values.len() == n
            && (forall|i: int| 0 <= i < values.len() ==> type_matches(ty, #[trigger] values[i]))),
        type_matches(SolTypeView::Tuple(types), SolValueView::Tuple(values)) == (values.len() == types.len() && (forall|
            i: int,
        |
            0 <= i < values.len() ==> type_matches(types[i], #[trigger] values[i]))),
{
    reveal_with_fuel(type_matches, 2);
    if type_matches(SolTypeView::Array(Box::new(ty)), SolValueView::Array(values)) {
        let array = SolValueView::Array(values);
        assert forall|i: int| 0 <= i < values.len() implies type_matches(ty, #[trigger] values[i]) by {
            assert(type_matches(ty, array->Array_0[i]));
        }
    }
}

/// An array, an array of fixed size and a tuple match no type but their own kind.
pub proof fn compound_values_match_no_other_type(ty: SolTypeView, value: SolValueView)
    requires
        type_matches(ty, value),
    ensures
        value is Array == ty is Array,
        value is FixedArray == ty is FixedArray,
        value is Tuple == ty is Tuple,
{
}

/// Values and types are known by all of their parts, one by one.
pub proof fn values_are_known_by_their_parts(values: Vec<SolValue>, types: Vec<SolType>, i: int)
    ensures
        value_models(values@).len() == values@.len(),
        0 <= i < values@.len() ==> value_models(values@)[i] == values@[i]@,
        SolValue::Array(values)@ == SolValueView::Array(value_models(values@)),
        SolValue::FixedArray(values)@ == SolValueView::FixedArray(value_models(values@)),
        SolValue::Tuple(values)@ == SolValueView::Tuple(value_models(values@)),
        type_models(types@).len() == types@.len(),
        0 <= i < types@.len() ==> type_models(types@)[i] == types@[i]@,
        SolType::Tuple(types)@ == SolTypeView::Tuple(type_models(types@)),
{
    assert(SolValue::Array(values)@->Array_0 =~= value_models(values@));
    assert(SolValue::FixedArray(values)@->FixedArray_0 =~= value_models(values@));
    assert(SolValue::Tuple(values)@->Tuple_0 =~= value_models(values@));
    assert(SolType::Tuple(types)@->Tuple_0 =~= type_models(types@));
}

/// Simple values are known by what they hold.
pub proof fn simple_values_are_known_by_what_they_hold(
    flag: bool,
    word: Word,
    n: usize,
    address: Address,
    function: FixedBytes<24>,
    bytes: Vec<u8>,
    text: String,
)
    ensures
        SolValue::Bool(flag)@ == SolValueView::Bool(flag),
        SolValue::Int(word, n)@ == SolValueView::Int(word, n as nat),
        SolValue::Uint(word, n)@ == SolValueView::Uint(word, n as nat),
        SolValue::FixedBytes(word, n)@ == SolValueView::FixedBytes(word, n as nat),
        SolValue::Address(address)@ == SolValueView::Address(address),
        SolValue::Function(function)@ == SolValueView::Function(function),
        SolValue::Bytes(bytes)@ == SolValueView::Bytes(bytes@),
        SolValue::String(text)@ == SolValueView::String(text@),
{
}

} // verus!
