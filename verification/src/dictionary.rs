//! The dictionary of a fuzzer: values seen on the chain and literals of the source, and how a
//! value of a type is taken from them.

use rand::rngs::StdRng;
use vstd::arithmetic::power2::pow2;
use vstd::prelude::*;
use vstd::string::*;
use vstd::utf8::encode_utf8;

use crate::fixed::{
    address_of, address_of_has_the_bytes, be_digits, be_digits_spell_the_number, be_value, be_value_is_injective,
    word_from_u64, word_ge, word_of, word_of_has_the_bytes, word_of_its_bytes, word_rem, word_wrapping_shl,
    word_wrapping_sub, Address, FixedBytes, Word,
};
use crate::random::{avoid_with_seed, random_place, random_ratio, seeded_address, MAX_DRAWS};
use crate::sol::{type_matches, SolType, SolTypeView, SolValue, SolValueView};

verus! {

/// The seed of the addresses that stand in for deployed libraries.
pub const LIBRARY_SEED: u64 = 0x1337;

/// A type whose values are taken from words.
#[derive(Clone, Copy, Debug, PartialEq, Eq, Structural)]
pub enum WordType {
    Address,
    FixedBytes(usize),
    Bytes,
    Int(usize),
    Uint(usize),
}

/// The type of words, if values of the type are taken from words.
pub open spec fn word_type(ty: SolTypeView) -> Option<WordType> {
    match ty {
        SolTypeView::Address => Some(WordType::Address),
        SolTypeView::FixedBytes(n) => if 1 <= n <= 32 {
            Some(WordType::FixedBytes(n as usize))
        } else {
            None
        },
        SolTypeView::Bytes => Some(WordType::Bytes),
        SolTypeView::Int(n) => if 8 <= n <= 256 {
            Some(WordType::Int(n as usize))
        } else {
            None
        },
        SolTypeView::Uint(n) => if 8 <= n <= 256 {
            Some(WordType::Uint(n as usize))
        } else {
            None
        },
        _ => None,
    }
}

impl SolType {
    /// The type of words, if values of this type are taken from words.
    pub fn word_type(&self) -> (r: Option<WordType>)
        ensures
            r == word_type(self@),
    {
        match self {
            SolType::Address => Some(WordType::Address),
            SolType::FixedBytes(n) => {
                if 1 <= *n && *n <= 32 {
                    Some(WordType::FixedBytes(*n))
                } else {
                    None
                }
            },
            SolType::Bytes => Some(WordType::Bytes),
            SolType::Int(n) => {
                if 8 <= *n && *n <= 256 {
                    Some(WordType::Int(*n))
                } else {
                    None
                }
            },
            SolType::Uint(n) => {
                if 8 <= *n && *n <= 256 {
                    Some(WordType::Uint(*n))
                } else {
                    None
                }
            },
            _ => None,
        }
    }
}

/// The first `size` bytes of `word`, padded with zeros.
pub open spec fn head_of(word: Word, size: nat) -> Word {
    word_of(
        Seq::new(
            32,
            |i: int|
                if i < size {
                    word.bytes@[i]
                } else {
                    0u8
                },
        ),
    )
}

/// The first `size` bytes of `word`, padded with zeros.
pub fn keep_head(word: Word, size: usize) -> (r: Word)
    ensures
        r == head_of(word, size as nat),
        forall|i: int| size <= i < 32 ==> #[trigger] r.bytes@[i] == 0,
{
    let mut bytes: [u8; 32] = [0; 32];
    let mut i: usize = 0;
    while i < 32
        invariant
            i <= 32,
            forall|j: int|
                0 <= j < 32 ==> #[trigger] bytes@[j] == (if j < i && j < size {
                    word.bytes@[j]
                } else {
                    0u8
                }),
        decreases 32 - i,
    {
        if i < size {
            bytes[i] = word.bytes[i];
        }
        i += 1;
    }
    let r: Word = FixedBytes { bytes };
    proof {
        assert(r.bytes@ =~= Seq::new(
            32,
            |i: int|
                if i < size {
                    word.bytes@[i]
                } else {
                    0u8
                },
        ));
        word_of_its_bytes(r);
    }
    r
}

/// The word with the unsigned value `value`, modulo `2^256`.
pub open spec fn word_with_value(value: int) -> Word {
    choose|word: Word| word.value() == value % pow2(256) as int
}

/// A word is the only one with its value.
pub proof fn word_with_its_value(word: Word, value: int)
    requires
        word.value() == value % pow2(256) as int,
    ensures
        word_with_value(value) == word,
{
    let other = word_with_value(value);
    assert(other.value() == value % pow2(256) as int);
    be_value_is_injective(other.bytes@, word.bytes@);
    assert(other.bytes =~= word.bytes);
}

/// The word with a value has that value, modulo `2^256`.
pub proof fn word_with_value_has_it(value: int)
    ensures
        word_with_value(value).value() == value % pow2(256) as int,
{
    vstd::arithmetic::power2::lemma_pow2_pos(256);
    vstd::arithmetic::div_mod::lemma_mod_bound(value, pow2(256) as int);
    let low = (value % pow2(256) as int) as nat;
    be_digits_spell_the_number(low, 32);
    word_of_has_the_bytes(be_digits(low, 32));
    assert(word_of(be_digits(low, 32)).value() == value % pow2(256) as int);
}

/// The head of a word has the first bytes of the word, and zeros after them.
pub proof fn head_of_has_the_bytes(word: Word, size: nat)
    ensures
        forall|i: int|
            0 <= i < 32 ==> #[trigger] head_of(word, size).bytes@[i] == (if i < size {
                word.bytes@[i]
            } else {
                0u8
            }),
{
    word_of_has_the_bytes(
        Seq::new(
            32,
            |i: int|
                if i < size {
                    word.bytes@[i]
                } else {
                    0u8
                },
        ),
    );
}

/// `word` modulo `2^bits`.
pub open spec fn low_bits(word: Word, bits: nat) -> int {
    word.value() as int % pow2(bits) as int
}

/// `word` modulo `2^bits`, read as a two's complement number of `bits` bits.
pub open spec fn low_signed(word: Word, bits: nat) -> int {
    let low = low_bits(word, bits);
    if low >= pow2((bits - 1) as nat) {
        low - pow2(bits)
    } else {
        low
    }
}

/// The value of type `ty` that `word` stands for: its last 20 bytes for an address, its first bytes
/// for a fixed byte string, all of it for bytes, and its value modulo the size of an integer type.
pub open spec fn decoded(ty: WordType, word: Word) -> SolValueView {
    match ty {
        WordType::Address => SolValueView::Address(address_of(word.bytes@.skip(12))),
        WordType::FixedBytes(size) => SolValueView::FixedBytes(head_of(word, size as nat), size as nat),
        WordType::Bytes => SolValueView::Bytes(word.bytes@),
        WordType::Int(bits) => SolValueView::Int(word_with_value(low_signed(word, bits as nat)), bits as nat),
        WordType::Uint(bits) => SolValueView::Uint(word_with_value(low_bits(word, bits as nat)), bits as nat),
    }
}

/// A power of two is larger than any smaller one.
proof fn pow2_grows(a: nat, b: nat)
    requires
        a < b,
    ensures
        pow2(a) < pow2(b),
        pow2(a) > 0,
{
    vstd::arithmetic::power2::lemma_pow2_strictly_increases(a, b);
    vstd::arithmetic::power2::lemma_pow2_pos(a);
}

/// Words have values below `2^256`.
pub proof fn words_are_bounded(bytes: Seq<u8>)
    ensures
        be_value(bytes) < pow2(8 * bytes.len()),
    decreases bytes.len(),
{
    if bytes.len() == 0 {
        vstd::arithmetic::power2::lemma2_to64();
    } else {
        let front = bytes.drop_last();
        words_are_bounded(front);
        vstd::arithmetic::power2::lemma_pow2_adds(8 * front.len(), 8);
        vstd::arithmetic::power2::lemma2_to64();
        assert(8 * bytes.len() == 8 * front.len() + 8);
        let p = pow2(8 * front.len());
        assert(pow2(8 * bytes.len()) == p * 256);
        let v = be_value(front);
        assert(v * 256 + 255 < p * 256) by (nonlinear_arith)
            requires
                v + 1 <= p,
        ;
    }
}

/// The word modulo `2^bits`.
fn uint_of(word: Word, bits: usize) -> (r: Word)
    requires
        8 <= bits <= 256,
    ensures
        r == word_with_value(low_bits(word, bits as nat)),
        r.value() == low_bits(word, bits as nat),
        r.value() < pow2(bits as nat),
{
    proof {
        words_are_bounded(word.bytes@);
        vstd::arithmetic::power2::lemma_pow2_pos(bits as nat);
        vstd::arithmetic::power2::lemma_pow2_pos(256);
        vstd::arithmetic::div_mod::lemma_mod_bound(word.value() as int, pow2(bits as nat) as int);
    }
    if bits / 8 == 32 {
        proof {
            vstd::arithmetic::div_mod::lemma_small_mod(word.value(), pow2(256));
            word_with_its_value(word, low_bits(word, bits as nat));
        }
        word
    } else {
        let one = word_from_u64(1);
        let modulus = word_wrapping_shl(one, bits);
        proof {
            pow2_grows(bits as nat, 256);
            assert(one.value() * pow2(bits as nat) == pow2(bits as nat)) by (nonlinear_arith)
                requires
                    one.value() == 1,
            ;
            vstd::arithmetic::div_mod::lemma_small_mod(pow2(bits as nat), pow2(256));
        }
        let r = word_rem(word, modulus);
        proof {
            vstd::arithmetic::div_mod::lemma_mod_bound(word.value() as int, pow2(bits as nat) as int);
            vstd::arithmetic::div_mod::lemma_small_mod(r.value(), pow2(256));
            word_with_its_value(r, low_bits(word, bits as nat));
        }
        r
    }
}

/// The word modulo `2^bits`, as a two's complement number.
fn int_of(word: Word, bits: usize) -> (r: Word)
    requires
        8 <= bits <= 256,
    ensures
        r == word_with_value(low_signed(word, bits as nat)),
        r.signed_value() == low_signed(word, bits as nat),
        -pow2((bits - 1) as nat) <= low_signed(word, bits as nat) < pow2((bits - 1) as nat),
{
    let low = uint_of(word, bits);
    proof {
        pow2_grows((bits - 1) as nat, bits as nat);
        vstd::arithmetic::power2::lemma_pow2_unfold(bits as nat);
        vstd::arithmetic::power2::lemma_pow2_unfold(256);
        words_are_bounded(word.bytes@);
        words_are_bounded(low.bytes@);
        vstd::arithmetic::power2::lemma_pow2_pos(bits as nat);
        vstd::arithmetic::power2::lemma_pow2_pos(256);
        vstd::arithmetic::div_mod::lemma_mod_bound(word.value() as int, pow2(bits as nat) as int);
    }
    if bits / 8 == 32 {
        proof {
            let v = low.value() as int;
            vstd::arithmetic::div_mod::lemma_small_mod(low.value(), pow2(256));
            vstd::arithmetic::div_mod::lemma_mod_add_multiples_vanish(v - pow2(256), pow2(256) as int);
            word_with_its_value(low, low_signed(word, bits as nat));
        }
        low
    } else {
        let one = word_from_u64(1);
        let sign_bit = word_wrapping_shl(one, bits - 1);
        proof {
            pow2_grows((bits - 1) as nat, 256);
            pow2_grows(bits as nat, 256);
            assert(one.value() * pow2((bits - 1) as nat) == pow2((bits - 1) as nat)) by (nonlinear_arith)
                requires
                    one.value() == 1,
            ;
            assert(one.value() * pow2(bits as nat) == pow2(bits as nat)) by (nonlinear_arith)
                requires
                    one.value() == 1,
            ;
            vstd::arithmetic::div_mod::lemma_small_mod(pow2((bits - 1) as nat), pow2(256));
            vstd::arithmetic::div_mod::lemma_small_mod(pow2(bits as nat), pow2(256));
            vstd::arithmetic::div_mod::lemma_small_mod(low.value(), pow2(256));
        }
        if word_ge(low, sign_bit) {
            let modulus = word_wrapping_shl(one, bits);
            let r = word_wrapping_sub(low, modulus);
            proof {
                let below = low.value() - pow2(bits as nat);
                pow2_grows((bits - 1) as nat, 255);
                vstd::arithmetic::div_mod::lemma_mod_add_multiples_vanish(below, pow2(256) as int);
                vstd::arithmetic::div_mod::lemma_small_mod((pow2(256) + below) as nat, pow2(256));
                assert(r.value() == pow2(256) + below);
                word_with_its_value(r, low_signed(word, bits as nat));
            }
            r
        } else {
            proof {
                pow2_grows((bits - 1) as nat, 255);
                word_with_its_value(low, low_signed(word, bits as nat));
            }
            low
        }
    }
}

/// The word type is one that values are taken from words for.
pub open spec fn is_word_type(ty: WordType) -> bool {
    match ty {
        WordType::Address | WordType::Bytes => true,
        WordType::FixedBytes(n) => 1 <= n <= 32,
        WordType::Int(n) | WordType::Uint(n) => 8 <= n <= 256,
    }
}

/// An integer is one of the integers of its size, and a fixed byte string has no bytes beyond its
/// size.
pub open spec fn in_range(value: SolValueView) -> bool {
    match value {
        SolValueView::Uint(word, bits) => word.value() < pow2(bits),
        SolValueView::Int(word, bits) => -pow2((bits - 1) as nat) <= word.signed_value() < pow2((bits - 1) as nat),
        SolValueView::FixedBytes(word, size) => forall|i: int| size <= i < 32 ==> #[trigger] word.bytes@[i] == 0,
        _ => true,
    }
}

/// The value of a type that `word` stands for. It is in the range of its type.
pub fn decode_word(ty: WordType, word: Word) -> (r: SolValue)
    requires
        is_word_type(ty),
    ensures
        r@ == decoded(ty, word),
        spells(ty, word, r@),
        in_range(r@),
{
    proof {
        decoded_values_are_spelled_by_words(ty, word);
    }
    match ty {
        WordType::Address => {
            let address = Address::from_word(word);
            proof {
                let other = address_of(word.bytes@.skip(12));
                assert(other.bytes@ == word.bytes@.skip(12));
                assert(other.bytes =~= address.bytes);
            }
            SolValue::Address(address)
        },
        WordType::FixedBytes(size) => SolValue::FixedBytes(keep_head(word, size), size),
        WordType::Bytes => SolValue::Bytes(word.to_vec()),
        WordType::Int(bits) => SolValue::Int(int_of(word, bits), bits),
        WordType::Uint(bits) => SolValue::Uint(uint_of(word, bits), bits),
    }
}

/// `value` is spelled as `word` says for the type: an address has its last 20 bytes, a fixed byte
/// string its first bytes and zeros after them, bytes all of its bytes, and an integer has its value
/// modulo the size of the type.
pub open spec fn spells(ty: WordType, word: Word, value: SolValueView) -> bool {
    match ty {
        WordType::Address => value matches SolValueView::Address(address) && address.bytes@ == word.bytes@.skip(12),
        WordType::FixedBytes(size) => value matches SolValueView::FixedBytes(head, n) && n == size && forall|i: int|
            0 <= i < 32 ==> #[trigger] head.bytes@[i] == (if i < size {
                word.bytes@[i]
            } else {
                0u8
            }),
        WordType::Bytes => value == SolValueView::Bytes(word.bytes@),
        WordType::Int(bits) => value matches SolValueView::Int(low, n) && n == bits && low.signed_value()
            == low_signed(word, bits as nat),
        WordType::Uint(bits) => value matches SolValueView::Uint(low, n) && n == bits && low.value() == low_bits(
            word,
            bits as nat,
        ),
    }
}

/// The value that a word stands for is spelled as the word says, and is in the range of its type.
pub proof fn decoded_values_are_spelled_by_words(ty: WordType, word: Word)
    requires
        is_word_type(ty),
    ensures
        spells(ty, word, decoded(ty, word)),
        in_range(decoded(ty, word)),
{
    match ty {
        WordType::Address => {
            address_of_has_the_bytes(word.bytes@.skip(12));
        },
        WordType::FixedBytes(size) => {
            head_of_has_the_bytes(word, size as nat);
        },
        WordType::Bytes => {},
        WordType::Int(bits) => {
            let signed = low_signed(word, bits as nat);
            vstd::arithmetic::power2::lemma_pow2_pos(bits as nat);
            vstd::arithmetic::div_mod::lemma_mod_bound(word.value() as int, pow2(bits as nat) as int);
            vstd::arithmetic::power2::lemma_pow2_unfold(bits as nat);
            vstd::arithmetic::power2::lemma_pow2_unfold(256);
            pow2_grows((bits - 1) as nat, bits as nat);
            if bits < 256 {
                pow2_grows((bits - 1) as nat, 255);
            }
            word_with_value_has_it(signed);
            if signed < 0 {
                vstd::arithmetic::div_mod::lemma_mod_add_multiples_vanish(signed, pow2(256) as int);
                vstd::arithmetic::div_mod::lemma_small_mod((pow2(256) + signed) as nat, pow2(256));
            } else {
                vstd::arithmetic::div_mod::lemma_small_mod(signed as nat, pow2(256));
            }
        },
        WordType::Uint(bits) => {
            let low = low_bits(word, bits as nat);
            vstd::arithmetic::power2::lemma_pow2_pos(bits as nat);
            vstd::arithmetic::div_mod::lemma_mod_bound(word.value() as int, pow2(bits as nat) as int);
            if bits < 256 {
                pow2_grows(bits as nat, 256);
            }
            word_with_value_has_it(low);
            vstd::arithmetic::div_mod::lemma_small_mod(low as nat, pow2(256));
        },
    }
}

/// What a fuzzer has seen and read.
pub struct FuzzDictionary {
    /// Words seen on the chain.
    pub values: Vec<Word>,
    /// Words seen as values of a type.
    pub samples: Vec<(WordType, Vec<Word>)>,
    /// String literals of the source.
    pub ast_strings: Vec<String>,
    /// Byte string literals of the source.
    pub ast_bytes: Vec<Vec<u8>>,
    /// The addresses of deployed libraries.
    pub deployed_libs: Vec<Address>,
}

/// The words of the first of `samples` that are for `ty`.
pub open spec fn samples_for(samples: Seq<(WordType, Vec<Word>)>, ty: WordType) -> Option<Seq<Word>>
    decreases samples.len(),
{
    if samples.len() == 0 {
        None
    } else if samples[0].0 == ty {
        Some(samples[0].1@)
    } else {
        samples_for(samples.drop_first(), ty)
    }
}

impl FuzzDictionary {
    /// An empty dictionary.
    pub fn new() -> (r: FuzzDictionary)
        ensures
            r.values@.len() == 0,
            r.samples@.len() == 0,
            r.ast_strings@.len() == 0,
            r.ast_bytes@.len() == 0,
            r.deployed_libs@.len() == 0,
    {
        FuzzDictionary {
            values: Vec::new(),
            samples: Vec::new(),
            ast_strings: Vec::new(),
            ast_bytes: Vec::new(),
            deployed_libs: Vec::new(),
        }
    }

    /// The words to choose from for values of a type: those seen as such values, where `typed` is
    /// set and there are any such, or those seen on the chain.
    pub open spec fn pool(self, ty: WordType, typed: bool) -> Seq<Word> {
        match samples_for(self.samples@, ty) {
            Some(words) => if typed {
                words
            } else {
                self.values@
            },
            None => self.values@,
        }
    }

    /// The word at a place among those to choose from, or none where there is none to choose from.
    pub open spec fn word_at(self, ty: WordType, typed: bool, place: int) -> Option<Word> {
        if self.pool(ty, typed).len() == 0 {
            None
        } else {
            Some(self.pool(ty, typed)[place])
        }
    }

    /// The words to choose from for values of a type.
    pub fn words_for(&self, ty: WordType, typed: bool) -> (r: &Vec<Word>)
        ensures
            r@ == self.pool(ty, typed),
    {
        if typed {
            let mut i: usize = 0;
            assert(self.samples@.skip(0) =~= self.samples@);
            while i < self.samples.len()
                invariant
                    i <= self.samples@.len(),
                    typed,
                    samples_for(self.samples@, ty) == samples_for(self.samples@.skip(i as int), ty),
                decreases self.samples@.len() - i,
            {
                assert(self.samples@.skip(i as int)[0] == self.samples@[i as int]);
                assert(self.samples@.skip(i as int).drop_first() =~= self.samples@.skip(i + 1));
                if self.samples[i].0 == ty {
                    return &self.samples[i].1;
                }
                i += 1;
            }
        }
        &self.values
    }

    /// The word at a place among those to choose from, or none where there is none to choose from.
    pub fn pick_word(&self, ty: WordType, typed: bool, place: usize) -> (r: Option<Word>)
        requires
            self.pool(ty, typed).len() > 0 ==> place < self.pool(ty, typed).len(),
        ensures
            r == self.word_at(ty, typed, place as int),
    {
        let words = self.words_for(ty, typed);
        if words.len() == 0 {
            None
        } else {
            Some(words[place])
        }
    }

    /// A word for a value of a type: in half of the cases from those seen as such values, where
    /// there are any such, and otherwise from those seen on the chain. There is none where there is
    /// none to choose from.
    pub fn sample_dict_word(&self, ty: WordType, rng: &mut StdRng) -> (r: Option<Word>)
        ensures
            exists|typed: bool, place: int|
                (self.pool(ty, typed).len() > 0 ==> 0 <= place < self.pool(ty, typed).len()) && r
                    == #[trigger] self.word_at(ty, typed, place),
    {
        let (typed, place) = self.draw_word(ty, rng);
        self.pick_word(ty, typed, place)
    }

    /// Whether words seen as values of the type are preferred, and the place of the word that is then
    /// taken.
    fn draw_word(&self, ty: WordType, rng: &mut StdRng) -> (r: (bool, usize))
        ensures
            self.pool(ty, r.0).len() > 0 ==> r.1 < self.pool(ty, r.0).len(),
    {
        let (share, cases) = typed_share();
        let typed = random_ratio(rng, share, cases);
        (typed, random_place_or_zero(rng, self.words_for(ty, typed).len()))
    }

    /// The draws are places of what there is to choose from.
    pub open spec fn fits(self, ty: SolTypeView, draws: SampleDraws) -> bool {
        &&& self.ast_strings@.len() > 0 ==> draws.string_place < self.ast_strings@.len()
        &&& self.ast_bytes@.len() > 0 ==> draws.bytes_place < self.ast_bytes@.len()
        &&& word_type(ty) matches Some(wt) ==> self.pool(wt, draws.typed).len() > 0 ==> draws.word_place < self.pool(
            wt,
            draws.typed,
        ).len()
    }

    /// `value` is what the dictionary gives for a type, with these draws: for a string a literal,
    /// where that is drawn and there are any; for bytes the same, or a literal of bytes; and for
    /// bytes otherwise, for fixed byte strings, addresses and integers, what a word stands for. It
    /// gives nothing for other types.
    pub open spec fn gives(self, ty: SolTypeView, draws: SampleDraws, value: Option<SolValueView>) -> bool {
        let strings = self.ast_strings@;
        let word = match word_type(ty) {
            Some(wt) => self.word_at(wt, draws.typed, draws.word_place as int),
            None => None,
        };
        if ty is String {
            value == (if draws.string_literal && strings.len() > 0 {
                Some(SolValueView::String(strings[draws.string_place as int]@))
            } else {
                None
            })
        } else if ty is Bytes && draws.string_literal && strings.len() > 0 {
            value == Some(SolValueView::Bytes(encode_utf8(strings[draws.string_place as int]@)))
        } else if ty is Bytes && draws.bytes_literal && self.ast_bytes@.len() > 0 {
            value == Some(SolValueView::Bytes(self.ast_bytes@[draws.bytes_place as int]@))
        } else if word is None {
            value is None
        } else if ty is Address {
            value matches Some(SolValueView::Address(address)) && stands_for(
                decoded(WordType::Address, word->0),
                self.deployed_libs@,
                address,
            )
        } else {
            value == Some(decoded(word_type(ty)->0, word->0))
        }
    }

    /// `value` is what the dictionary may give for a type.
    pub open spec fn may_sample(self, ty: SolTypeView, value: Option<SolValueView>) -> bool {
        exists|draws: SampleDraws| self.fits(ty, draws) && #[trigger] self.gives(ty, draws, value)
    }

    /// What the dictionary gives for a type, with these draws. The address of a deployed library is
    /// not given.
    pub fn sample_with(&self, ty: &SolType, draws: &SampleDraws) -> (r: Option<SolValue>)
        requires
            self.fits(ty@, *draws),
        ensures
            self.gives(ty@, *draws, optional_value(r)),
            r matches Some(value) ==> type_matches(ty@, value@) && in_range(value@),
            r matches Some(SolValue::Address(address)) ==> !self.deployed_libs@.contains(address),
    {
        match ty {
            SolType::String => {
                if draws.string_literal && self.ast_strings.len() > 0 {
                    return Some(SolValue::String(self.ast_strings[draws.string_place].clone()));
                }
                return None;
            },
            SolType::Bytes => {
                if draws.string_literal && self.ast_strings.len() > 0 {
                    return Some(SolValue::Bytes(bytes_of(self.ast_strings[draws.string_place].as_str())));
                }
                if draws.bytes_literal && self.ast_bytes.len() > 0 {
                    return Some(SolValue::Bytes(self.ast_bytes[draws.bytes_place].clone()));
                }
            },
            _ => {},
        }
        let wt = match ty.word_type() {
            Some(wt) => wt,
            None => {
                return None;
            },
        };
        let word = match self.pick_word(wt, draws.typed, draws.word_place) {
            Some(word) => word,
            None => {
                return None;
            },
        };
        let value = decode_word(wt, word);
        match value {
            SolValue::Address(candidate) => {
                let address = avoid_with_seed(candidate, &self.deployed_libs, LIBRARY_SEED);
                Some(SolValue::Address(address))
            },
            _ => Some(value),
        }
    }

    /// What the dictionary gives for a type. A string literal is taken in three of ten cases for a
    /// string and in one of ten for bytes, a literal of bytes in two of ten, and words are taken
    /// from those seen as values of the type in half of the cases. Nothing is drawn for a type that the
    /// dictionary is not consulted for.
    pub fn sample(&self, ty: &SolType, rng: &mut StdRng) -> (r: Option<SolValue>)
        ensures
            self.may_sample(ty@, optional_value(r)),
            r matches Some(value) ==> type_matches(ty@, value@) && in_range(value@),
            r matches Some(SolValue::Address(address)) ==> !self.deployed_libs@.contains(address),
            !is_sampled(ty@) ==> r is None && *final(rng) == *old(rng),
    {
        let mut draws = SampleDraws {
            string_literal: false,
            string_place: 0,
            bytes_literal: false,
            bytes_place: 0,
            typed: false,
            word_place: 0,
        };
        match ty {
            SolType::String | SolType::Bytes => {
                let (share, cases) = literal_share(ty);
                if random_ratio(rng, share, cases) && self.ast_strings.len() > 0 {
                    draws.string_literal = true;
                    draws.string_place = random_place(rng, self.ast_strings.len());
                    return self.sample_with(ty, &draws);
                }
            },
            _ => {},
        }
        if let SolType::Bytes = ty {
            let (share, cases) = bytes_literal_share();
            if random_ratio(rng, share, cases) && self.ast_bytes.len() > 0 {
                draws.bytes_literal = true;
                draws.bytes_place = random_place(rng, self.ast_bytes.len());
                return self.sample_with(ty, &draws);
            }
        }
        if let Some(wt) = ty.word_type() {
            let (typed, place) = self.draw_word(wt, rng);
            draws.typed = typed;
            draws.word_place = place;
        }
        self.sample_with(ty, &draws)
    }
}

/// The dictionary is consulted for values of the type.
pub open spec fn is_sampled(ty: SolTypeView) -> bool {
    ty is String || word_type(ty) is Some
}

/// How many cases of how many take a string literal for a value of a type.
pub fn literal_share(ty: &SolType) -> (r: (u32, u32))
    ensures
        r == (if ty@ is String {
            (3u32, 10u32)
        } else {
            (1u32, 10u32)
        }),
{
    match ty {
        SolType::String => (3, 10),
        _ => (1, 10),
    }
}

/// How many cases of how many take a literal of bytes for bytes that no string literal is taken for.
pub fn bytes_literal_share() -> (r: (u32, u32))
    ensures
        r == (2u32, 10u32),
{
    (2, 10)
}

/// How many cases of how many prefer words seen as values of the type.
pub fn typed_share() -> (r: (u32, u32))
    ensures
        r == (1u32, 2u32),
{
    (1, 2)
}

/// The dictionary never gives the address of a deployed library, and what it gives is of the type
/// that it is asked for.
pub proof fn samples_are_of_their_type(dictionary: FuzzDictionary, ty: SolTypeView, value: SolValueView)
    requires
        dictionary.may_sample(ty, Some(value)),
    ensures
        type_matches(ty, value),
        value matches SolValueView::Address(address) ==> !dictionary.deployed_libs@.contains(address),
{
}

/// The dictionary is not consulted for booleans, functions, arrays and tuples.
pub proof fn other_types_are_not_sampled(dictionary: FuzzDictionary, ty: SolTypeView, value: Option<SolValueView>)
    requires
        ty is Bool || ty is Function || ty is Array || ty is FixedArray || ty is Tuple,
        dictionary.may_sample(ty, value),
    ensures
        value is None,
{
}

/// The draws that decide what a dictionary gives.
#[derive(Clone, Copy, Debug, PartialEq, Eq, Structural)]
pub struct SampleDraws {
    /// Whether a string literal is taken.
    pub string_literal: bool,
    /// Which one.
    pub string_place: usize,
    /// Whether a literal of bytes is taken.
    pub bytes_literal: bool,
    /// Which one.
    pub bytes_place: usize,
    /// Whether words seen as values of the type are preferred.
    pub typed: bool,
    /// Which word is taken.
    pub word_place: usize,
}

/// The model of an optional value.
pub open spec fn optional_value(value: Option<SolValue>) -> Option<SolValueView> {
    match value {
        Some(value) => Some(value@),
        None => None,
    }
}

/// Some place below `len`, or zero where there is none. Nothing is drawn where there is none.
fn random_place_or_zero(rng: &mut StdRng, len: usize) -> (r: usize)
    ensures
        len > 0 ==> r < len,
        len == 0 ==> r == 0 && *final(rng) == *old(rng),
{
    if len > 0 {
        random_place(rng, len)
    } else {
        0
    }
}

/// `address` is what is given for a decoded address: itself, or where that is the address of a
/// library, the first of the generated addresses that is not.
pub open spec fn stands_for(decoded: SolValueView, libraries: Seq<Address>, address: Address) -> bool {
    &&& decoded matches SolValueView::Address(candidate)
    &&& !libraries.contains(candidate) ==> address == candidate
    &&& !libraries.contains(address)
    &&& forall|k: int|
        0 <= k < MAX_DRAWS && libraries.contains(candidate) && !libraries.contains(
            #[trigger] seeded_address(LIBRARY_SEED, k),
        ) && (forall|j: int| 0 <= j < k ==> libraries.contains(#[trigger] seeded_address(LIBRARY_SEED, j)))
            ==> address == seeded_address(LIBRARY_SEED, k)
}

/// The bytes of a text.
fn bytes_of(s: &str) -> (r: Vec<u8>)
    ensures
        r@ == encode_utf8(s@),
{
    let bytes = s.as_bytes();
    let mut out: Vec<u8> = Vec::new();
    let mut i: usize = 0;
    while i < bytes.len()
        invariant
            i <= bytes@.len(),
            out@ == bytes@.take(i as int),
        decreases bytes@.len() - i,
    {
        out.push(bytes[i]);
        assert(bytes@.take(i + 1) =~= bytes@.take(i as int).push(bytes@[i as int]));
        i += 1;
    }
    assert(bytes@.take(i as int) =~= bytes@);
    out
}

/// The dictionary has seen the word: on the chain, or as a value of the type.
pub open spec fn has_seen(dictionary: FuzzDictionary, ty: WordType, word: Word) -> bool {
    ||| exists|i: int| 0 <= i < dictionary.values@.len() && #[trigger] dictionary.values@[i] == word
    ||| exists|s: int, i: int|
        0 <= s < dictionary.samples@.len() && dictionary.samples@[s].0 == ty && 0 <= i
            < dictionary.samples@[s].1@.len() && #[trigger] dictionary.samples@[s].1@[i] == word
}

/// The words seen as values of a type are those of the first entry for the type, and there are none where there
/// is no entry for it.
pub proof fn samples_are_those_of_the_first_entry(samples: Seq<(WordType, Vec<Word>)>, ty: WordType, first: int)
    ensures
        0 <= first < samples.len() && samples[first].0 == ty && (forall|i: int|
            0 <= i < first ==> (#[trigger] samples[i]).0 != ty) ==> samples_for(samples, ty) == Some(samples[first].1@),
        (forall|i: int| 0 <= i < samples.len() ==> (#[trigger] samples[i]).0 != ty) ==> samples_for(samples, ty) is None,
    decreases samples.len(),
{
    if samples.len() > 0 {
        let rest = samples.drop_first();
        samples_are_those_of_the_first_entry(rest, ty, first - 1);
        assert forall|i: int| 0 <= i < rest.len() implies #[trigger] rest[i] == samples[i + 1] by {
        }
        if samples[0].0 != ty {
            if 0 <= first < samples.len() && samples[first].0 == ty {
                assert(first > 0);
                assert(rest[first - 1] == samples[first]);
                if forall|i: int| 0 <= i < first ==> (#[trigger] samples[i]).0 != ty {
                    assert forall|i: int| 0 <= i < first - 1 implies (#[trigger] rest[i]).0 != ty by {
                        assert(rest[i] == samples[i + 1]);
                    }
                }
            }
            if forall|i: int| 0 <= i < samples.len() ==> (#[trigger] samples[i]).0 != ty {
                assert forall|i: int| 0 <= i < rest.len() implies (#[trigger] rest[i]).0 != ty by {
                    assert(rest[i] == samples[i + 1]);
                }
            }
        }
    }
}

/// Words seen as values of a type are in the entry of the type.
proof fn samples_are_in_an_entry(samples: Seq<(WordType, Vec<Word>)>, ty: WordType, place: int)
    requires
        samples_for(samples, ty) matches Some(words) && 0 <= place < words.len(),
    ensures
        exists|s: int, i: int|
            0 <= s < samples.len() && samples[s].0 == ty && 0 <= i < samples[s].1@.len() && #[trigger] samples[s].1@[i]
                == samples_for(samples, ty)->0[place],
    decreases samples.len(),
{
    if samples[0].0 == ty {
        assert(samples[0].1@[place] == samples_for(samples, ty)->0[place]);
    } else {
        let rest = samples.drop_first();
        samples_are_in_an_entry(rest, ty, place);
        let (s, i) = choose|s: int, i: int|
            0 <= s < rest.len() && rest[s].0 == ty && 0 <= i < rest[s].1@.len() && #[trigger] rest[s].1@[i]
                == samples_for(rest, ty)->0[place];
        assert(samples[s + 1].1@[i] == samples_for(samples, ty)->0[place]);
    }
}

/// A word that is taken was seen.
proof fn taken_words_were_seen(dictionary: FuzzDictionary, ty: WordType, typed: bool, place: int)
    requires
        0 <= place < dictionary.pool(ty, typed).len(),
    ensures
        dictionary.word_at(ty, typed, place) matches Some(word) && has_seen(dictionary, ty, word),
{
    let word = dictionary.pool(ty, typed)[place];
    if typed && samples_for(dictionary.samples@, ty) is Some {
        samples_are_in_an_entry(dictionary.samples@, ty, place);
        let (s, i) = choose|s: int, i: int|
            0 <= s < dictionary.samples@.len() && dictionary.samples@[s].0 == ty && 0 <= i
                < dictionary.samples@[s].1@.len() && #[trigger] dictionary.samples@[s].1@[i] == word;
        assert(dictionary.samples@[s].1@[i] == word);
    } else {
        assert(dictionary.values@[place] == word);
    }
}

/// What the dictionary gives comes from what it has: for a string one of the string literals; for bytes those of
/// a string literal, a literal of bytes, or a word that was seen; for an integer, a fixed byte string or an
/// address a word that was seen, cut to the size of the type. Only an address of a deployed library is replaced.
pub proof fn samples_come_from_what_was_seen(dictionary: FuzzDictionary, ty: SolTypeView, value: SolValueView)
    requires
        dictionary.may_sample(ty, Some(value)),
    ensures
        ty is String ==> exists|i: int|
            0 <= i < dictionary.ast_strings@.len() && value == SolValueView::String(
                (#[trigger] dictionary.ast_strings@[i])@,
            ),
        ty is Bytes ==> {
            ||| exists|i: int|
                0 <= i < dictionary.ast_strings@.len() && value == SolValueView::Bytes(
                    encode_utf8((#[trigger] dictionary.ast_strings@[i])@),
                )
            ||| exists|i: int|
                0 <= i < dictionary.ast_bytes@.len() && value == SolValueView::Bytes(
                    (#[trigger] dictionary.ast_bytes@[i])@,
                )
            ||| exists|word: Word|
                #[trigger] has_seen(dictionary, WordType::Bytes, word) && value == SolValueView::Bytes(word.bytes@)
        },
        ty matches SolTypeView::Uint(n) ==> (value matches SolValueView::Uint(low, m) && m == n && exists|word: Word|
            #[trigger] has_seen(dictionary, WordType::Uint(n as usize), word) && low.value() == word.value() % pow2(n)),
        ty matches SolTypeView::Int(n) ==> (value matches SolValueView::Int(low, m) && m == n && exists|word: Word|
            #[trigger] has_seen(dictionary, WordType::Int(n as usize), word) && low.signed_value() == word.value() % pow2(n)
                - (if word.value() % pow2(n) >= pow2((n - 1) as nat) {
                pow2(n)
            } else {
                0
            })),
        ty matches SolTypeView::FixedBytes(n) ==> (value matches SolValueView::FixedBytes(head, m) && m == n && exists|
            word: Word,
        |
            #[trigger] has_seen(dictionary, WordType::FixedBytes(n as usize), word) && (forall|i: int|
                0 <= i < 32 ==> #[trigger] head.bytes@[i] == (if i < n {
                    word.bytes@[i]
                } else {
                    0u8
                }))),
        ty is Address ==> (value matches SolValueView::Address(address) && exists|word: Word|
            #[trigger] has_seen(dictionary, WordType::Address, word) && (address.bytes@ == word.bytes@.skip(12) || exists|
                i: int,
            |
                0 <= i < dictionary.deployed_libs@.len() && (#[trigger] dictionary.deployed_libs@[i]).bytes@
                    == word.bytes@.skip(12))),
{
    let draws = choose|draws: SampleDraws| dictionary.fits(ty, draws) && #[trigger] dictionary.gives(ty, draws, Some(value));
    let strings = dictionary.ast_strings@;
    let literal = draws.string_literal && strings.len() > 0 && (ty is String || ty is Bytes);
    let of_bytes = draws.bytes_literal && dictionary.ast_bytes@.len() > 0 && ty is Bytes;
    if literal {
        assert(strings[draws.string_place as int]@ == strings[draws.string_place as int]@);
    } else if of_bytes {
        assert(dictionary.ast_bytes@[draws.bytes_place as int]@ == dictionary.ast_bytes@[draws.bytes_place as int]@);
    } else if let Some(wt) = word_type(ty) {
        let word = dictionary.word_at(wt, draws.typed, draws.word_place as int)->0;
        taken_words_were_seen(dictionary, wt, draws.typed, draws.word_place as int);
        decoded_values_are_spelled_by_words(wt, word);
        assert(has_seen(dictionary, wt, word));
        if ty is Address {
            let candidate = address_of(word.bytes@.skip(12));
            address_of_has_the_bytes(word.bytes@.skip(12));
            if dictionary.deployed_libs@.contains(candidate) {
                let i = dictionary.deployed_libs@.index_of(candidate);
                assert(dictionary.deployed_libs@[i].bytes@ == word.bytes@.skip(12));
            }
        }
    }
}

/// Everything that the dictionary has may be given: every string literal for a string, and every word seen on
/// the chain for an integer.
pub proof fn everything_seen_may_be_given(dictionary: FuzzDictionary, i: int, n: nat)
    requires
        dictionary.values@.len() <= usize::MAX,
        dictionary.ast_strings@.len() <= usize::MAX,
    ensures
        0 <= i < dictionary.ast_strings@.len() ==> dictionary.may_sample(
            SolTypeView::String,
            Some(SolValueView::String(dictionary.ast_strings@[i]@)),
        ),
        0 <= i < dictionary.values@.len() && 8 <= n <= 256 ==> exists|low: Word|
            #[trigger] dictionary.may_sample(SolTypeView::Uint(n), Some(SolValueView::Uint(low, n))) && low.value()
                == dictionary.values@[i].value() % pow2(n),
        0 <= i < dictionary.values@.len() ==> dictionary.may_sample(
            SolTypeView::Bytes,
            Some(SolValueView::Bytes(dictionary.values@[i].bytes@)),
        ),
{
    if 0 <= i < dictionary.ast_strings@.len() {
        let draws = SampleDraws {
            string_literal: true,
            string_place: i as usize,
            bytes_literal: false,
            bytes_place: 0,
            typed: false,
            word_place: 0,
        };
        assert(dictionary.fits(SolTypeView::String, draws));
        assert(dictionary.gives(
            SolTypeView::String,
            draws,
            Some(SolValueView::String(dictionary.ast_strings@[i]@)),
        ));
    }
    if 0 <= i < dictionary.values@.len() {
        let word = dictionary.values@[i];
        let draws = SampleDraws {
            string_literal: false,
            string_place: 0,
            bytes_literal: false,
            bytes_place: 0,
            typed: false,
            word_place: i as usize,
        };
        assert(dictionary.fits(SolTypeView::Bytes, draws));
        assert(dictionary.gives(SolTypeView::Bytes, draws, Some(SolValueView::Bytes(word.bytes@))));
        if 8 <= n <= 256 {
            let ty = SolTypeView::Uint(n);
            let wt = WordType::Uint(n as usize);
            decoded_values_are_spelled_by_words(wt, word);
            let low = decoded(wt, word)->Uint_0;
            assert(dictionary.fits(ty, draws));
            assert(dictionary.gives(ty, draws, Some(SolValueView::Uint(low, n))));
            assert(dictionary.may_sample(ty, Some(SolValueView::Uint(low, n))));
        }
    }
}

/// Where there are no string literals no string is given, and where nothing was seen or read nothing is given at
/// all.
pub proof fn empty_dictionaries_give_nothing(dictionary: FuzzDictionary, ty: SolTypeView, value: SolValueView)
    requires
        dictionary.ast_strings@.len() == 0,
        ty is String || dictionary.ast_bytes@.len() == 0 && dictionary.values@.len() == 0
            && dictionary.samples@.len() == 0,
    ensures
        !dictionary.may_sample(ty, Some(value)),
{
    if dictionary.may_sample(ty, Some(value)) {
        samples_are_of_their_type(dictionary, ty, value);
        samples_come_from_what_was_seen(dictionary, ty, value);
        if !(ty is Uint || ty is Int || ty is FixedBytes || ty is Address || ty is Bytes || ty is String) {
            other_types_are_not_sampled(dictionary, ty, Some(value));
        }
    }
}

/// An address that is no library is given as it is, and in place of a library the first address that is none of
/// those that the generator with the seed `0x1337` gives.
pub proof fn libraries_are_replaced(candidate: Address, libraries: Seq<Address>, address: Address, k: int)
    requires
        stands_for(SolValueView::Address(candidate), libraries, address),
    ensures
        !libraries.contains(address),
        !libraries.contains(candidate) ==> address == candidate,
        libraries.contains(candidate) && 0 <= k < 1000 && !libraries.contains(seeded_address(0x1337, k)) && (forall|
            j: int,
        |
            0 <= j < k ==> libraries.contains(#[trigger] seeded_address(0x1337, j))) ==> address == seeded_address(
            0x1337,
            k,
        ),
{
}

/// The draws decide what is given: the literal at the drawn place, where one is to be taken and there is any; and
/// otherwise what the word at the drawn place stands for, of those seen as values of the type where these are
/// preferred and there is an entry for the type, and else of those seen on the chain. Where there is no word
/// nothing is given.
pub proof fn draws_decide_what_is_given(
    dictionary: FuzzDictionary,
    ty: SolTypeView,
    draws: SampleDraws,
    value: Option<SolValueView>,
    first: int,
)
    requires
        dictionary.fits(ty, draws),
        dictionary.gives(ty, draws, value),
    ensures
        ({
            let strings = dictionary.ast_strings@;
            let literals = dictionary.ast_bytes@;
            let string = draws.string_literal && strings.len() > 0;
            let literal = draws.bytes_literal && literals.len() > 0;
            &&& ty is String && string ==> value == Some(SolValueView::String(strings[draws.string_place as int]@))
            &&& ty is String && !string ==> value is None
            &&& ty is Bytes && string ==> value == Some(
                SolValueView::Bytes(encode_utf8(strings[draws.string_place as int]@)),
            )
            &&& ty is Bytes && !string && literal ==> value == Some(
                SolValueView::Bytes(literals[draws.bytes_place as int]@),
            )
        }),
        ({
            let wt = match ty {
                SolTypeView::Bytes => WordType::Bytes,
                SolTypeView::Uint(n) => WordType::Uint(n as usize),
                _ => WordType::Address,
            };
            let entry = 0 <= first < dictionary.samples@.len() && dictionary.samples@[first].0 == wt && (forall|i: int|
                0 <= i < first ==> (#[trigger] dictionary.samples@[i]).0 != wt);
            let words = if draws.typed && entry {
                dictionary.samples@[first].1@
            } else {
                dictionary.values@
            };
            let drawn = words[draws.word_place as int];
            let by_literal = ty is Bytes && (draws.string_literal && dictionary.ast_strings@.len() > 0
                || draws.bytes_literal && dictionary.ast_bytes@.len() > 0);
            !draws.typed || entry ==> {
                &&& ty is Bytes && !by_literal ==> value == (if words.len() > 0 {
                    Some(SolValueView::Bytes(drawn.bytes@))
                } else {
                    None
                })
                &&& ty is Uint && words.len() > 0 && 8 <= ty->Uint_0 <= 256 ==> (value matches Some(
                    SolValueView::Uint(low, m),
                ) && m == ty->Uint_0 && low.value() == drawn.value() % pow2(m))
                &&& ty is Address && words.len() > 0 && (forall|i: int|
                    0 <= i < dictionary.deployed_libs@.len() ==> (#[trigger] dictionary.deployed_libs@[i]).bytes@
                        != drawn.bytes@.skip(12)) ==> (value matches Some(SolValueView::Address(address))
                    && address.bytes@ == drawn.bytes@.skip(12))
                &&& (ty is Uint || ty is Address) && words.len() == 0 ==> value is None
            }
        }),
{
    if let Some(wt) = word_type(ty) {
        samples_are_those_of_the_first_entry(dictionary.samples@, wt, first);
        if let Some(word) = dictionary.word_at(wt, draws.typed, draws.word_place as int) {
            decoded_values_are_spelled_by_words(wt, word);
            if ty is Address {
                address_of_has_the_bytes(word.bytes@.skip(12));
                let candidate = address_of(word.bytes@.skip(12));
                if dictionary.deployed_libs@.contains(candidate) {
                    let i = dictionary.deployed_libs@.index_of(candidate);
                    assert(dictionary.deployed_libs@[i].bytes@ == word.bytes@.skip(12));
                }
            }
        }
    }
}

} // verus!
