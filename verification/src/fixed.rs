//! Fixed-length byte strings: addresses, function selectors and 256-bit EVM words.

use vstd::prelude::*;
use vstd::arithmetic::power2::pow2;

verus! {

/// `N` bytes, in big-endian order where they stand for a number.
#[derive(Clone, Copy, Debug)]
pub struct FixedBytes<const N: usize> {
    pub bytes: [u8; N],
}

/// An account address.
pub type Address = FixedBytes<20>;

/// A function selector.
pub type Selector = FixedBytes<4>;

/// A 256-bit EVM word.
pub type Word = FixedBytes<32>;

impl<const N: usize> PartialEq for FixedBytes<N> {
    fn eq(&self, other: &Self) -> (r: bool) {
        let mut i: usize = 0;
        while i < N
            invariant
                i <= N,
                forall|j: int| 0 <= j < i ==> self.bytes@[j] == other.bytes@[j],
            decreases N - i,
        {
            if self.bytes[i] != other.bytes[i] {
                assert(self.bytes@[i as int] != other.bytes@[i as int]);
                return false;
            }
            i += 1;
        }
        assert(self.bytes =~= other.bytes);
        true
    }
}

impl<const N: usize> Eq for FixedBytes<N> {

}

impl<const N: usize> vstd::std_specs::cmp::PartialEqSpecImpl for FixedBytes<N> {
    open spec fn obeys_eq_spec() -> bool {
        true
    }

    open spec fn eq_spec(&self, other: &Self) -> bool {
        *self == *other
    }
}

/// The number that `bytes` spell in big-endian order.
pub open spec fn be_value(bytes: Seq<u8>) -> nat
    decreases bytes.len(),
{
    if bytes.len() == 0 {
        0
    } else {
        be_value(bytes.drop_last()) * 256 + bytes.last() as nat
    }
}

/// Two byte strings of one length that spell the same number are equal.
pub proof fn be_value_is_injective(a: Seq<u8>, b: Seq<u8>)
    requires
        a.len() == b.len(),
        be_value(a) == be_value(b),
    ensures
        a == b,
    decreases a.len(),
{
    if a.len() > 0 {
        let va = be_value(a.drop_last());
        let vb = be_value(b.drop_last());
        assert(va == vb && a.last() == b.last()) by {
            assert(va * 256 + a.last() as nat == vb * 256 + b.last() as nat);
        }
        be_value_is_injective(a.drop_last(), b.drop_last());
        assert(a =~= a.drop_last().push(a.last()));
        assert(b =~= b.drop_last().push(b.last()));
    } else {
        assert(a =~= b);
    }
}

/// The `len` bytes that spell `value` in big-endian order.
pub open spec fn be_digits(value: nat, len: nat) -> Seq<u8>
    decreases len,
{
    if len == 0 {
        Seq::empty()
    } else {
        be_digits(value / 256, (len - 1) as nat).push((value % 256) as u8)
    }
}

/// A number that fits into `len` bytes is spelled by them.
pub proof fn be_digits_spell_the_number(value: nat, len: nat)
    requires
        value < pow2(8 * len),
    ensures
        be_digits(value, len).len() == len,
        be_value(be_digits(value, len)) == value,
    decreases len,
{
    vstd::arithmetic::power2::lemma2_to64();
    if len > 0 {
        let front = be_digits(value / 256, (len - 1) as nat);
        vstd::arithmetic::power2::lemma_pow2_adds(8 * (len - 1) as nat, 8);
        assert(8 * len == 8 * (len - 1) as nat + 8);
        let p = pow2(8 * (len - 1) as nat);
        assert(value / 256 < p) by (nonlinear_arith)
            requires
                value < p * 256,
        ;
        be_digits_spell_the_number(value / 256, (len - 1) as nat);
        assert(be_digits(value, len).drop_last() =~= front);
    }
}

/// Bytes that are all zero spell zero.
pub proof fn be_value_of_zeros(a: Seq<u8>)
    requires
        forall|i: int| 0 <= i < a.len() ==> a[i] == 0,
    ensures
        be_value(a) == 0,
    decreases a.len(),
{
    if a.len() > 0 {
        be_value_of_zeros(a.drop_last());
    }
}

impl<const N: usize> FixedBytes<N> {
    /// Every byte is `byte`.
    pub fn repeat_byte(byte: u8) -> (r: Self)
        ensures
            forall|i: int| 0 <= i < N ==> r.bytes@[i] == byte,
    {
        FixedBytes { bytes: [byte; N] }
    }

    /// All bytes are zero.
    pub fn zero() -> (r: Self)
        ensures
            forall|i: int| 0 <= i < N ==> r.bytes@[i] == 0,
    {
        FixedBytes { bytes: [0; N] }
    }

    /// The bytes, as a vector.
    pub fn to_vec(&self) -> (r: Vec<u8>)
        ensures
            r@ == self.bytes@,
    {
        let mut out: Vec<u8> = Vec::new();
        let mut i: usize = 0;
        while i < N
            invariant
                i <= N,
                out@ == self.bytes@.take(i as int),
            decreases N - i,
        {
            out.push(self.bytes[i]);
            assert(self.bytes@.take(i + 1) =~= self.bytes@.take(i as int).push(self.bytes@[i as int]));
            i += 1;
        }
        assert(self.bytes@.take(N as int) =~= self.bytes@);
        out
    }
}

impl FixedBytes<20> {
    /// The address that the last 20 bytes of `word` spell.
    pub fn from_word(word: Word) -> (r: Address)
        ensures
            r.bytes@ == word.bytes@.skip(12),
    {
        let mut out: [u8; 20] = [0; 20];
        let mut i: usize = 0;
        while i < 20
            invariant
                i <= 20,
                forall|j: int| 0 <= j < i ==> out@[j] == word.bytes@[j + 12],
            decreases 20 - i,
        {
            out[i] = word.bytes[i + 12];
            i += 1;
        }
        assert(out@ =~= word.bytes@.skip(12));
        FixedBytes { bytes: out }
    }

    /// The address, padded on the left with zeros to a word.
    pub fn into_word(self) -> (r: Word)
        ensures
            r.bytes@ == Seq::new(12, |i: int| 0u8) + self.bytes@,
    {
        let mut out: [u8; 32] = [0; 32];
        let mut i: usize = 0;
        while i < 20
            invariant
                i <= 20,
                forall|j: int| 0 <= j < 12 ==> out@[j] == 0,
                forall|j: int| 0 <= j < i ==> out@[j + 12] == #[trigger] self.bytes@[j],
            decreases 20 - i,
        {
            out[i + 12] = self.bytes[i];
            i += 1;
        }
        assert(out@ =~= Seq::new(12, |i: int| 0u8) + self.bytes@) by {
            assert forall|j: int| 12 <= j < 32 implies out@[j] == self.bytes@[j - 12] by {
                assert(out@[(j - 12) + 12] == self.bytes@[j - 12]);
            }
        }
        FixedBytes { bytes: out }
    }
}

/// Padding an address to a word and reading it back gives the address.
pub proof fn address_word_round_trip(address: Address, word: Word)
    requires
        word.bytes@ == Seq::new(12, |i: int| 0u8) + address.bytes@,
    ensures
        word.bytes@.skip(12) == address.bytes@,
{
    assert(word.bytes@.skip(12) =~= address.bytes@);
}

impl FixedBytes<32> {
    /// The word read as an unsigned integer.
    pub open spec fn value(self) -> nat {
        be_value(self.bytes@)
    }

    /// The word read as a two's complement integer.
    pub open spec fn signed_value(self) -> int {
        if self.value() < pow2(255) {
            self.value() as int
        } else {
            self.value() - pow2(256)
        }
    }

    /// Whether the word is zero.
    pub fn is_zero(&self) -> (r: bool)
        ensures
            r == (self.value() == 0),
    {
        let zero = Word::zero();
        proof {
            be_value_of_zeros(zero.bytes@);
            if self.value() == 0 {
                be_value_is_injective(self.bytes@, zero.bytes@);
                assert(self.bytes =~= zero.bytes);
            }
        }
        *self == zero
    }

    /// The largest word.
    pub fn max() -> (r: Word)
        ensures
            forall|i: int| 0 <= i < 32 ==> r.bytes@[i] == 0xff,
    {
        Word::repeat_byte(0xff)
    }
}

/// The word that `bytes` make up.
pub open spec fn word_of(bytes: Seq<u8>) -> Word {
    choose|word: Word| word.bytes@ == bytes
}

/// The word that the bytes of a word make up is that word.
pub proof fn word_of_its_bytes(word: Word)
    ensures
        word_of(word.bytes@) == word,
{
    let other = word_of(word.bytes@);
    assert(other.bytes@ == word.bytes@);
    assert(other.bytes =~= word.bytes);
}

/// The word that 32 bytes make up has those bytes.
pub proof fn word_of_has_the_bytes(bytes: Seq<u8>)
    requires
        bytes.len() == 32,
    ensures
        word_of(bytes).bytes@ == bytes,
{
    let word: Word = FixedBytes {
        bytes: [
            bytes[0], bytes[1], bytes[2], bytes[3], bytes[4], bytes[5], bytes[6], bytes[7],
            bytes[8], bytes[9], bytes[10], bytes[11], bytes[12], bytes[13], bytes[14], bytes[15],
            bytes[16], bytes[17], bytes[18], bytes[19], bytes[20], bytes[21], bytes[22], bytes[23],
            bytes[24], bytes[25], bytes[26], bytes[27], bytes[28], bytes[29], bytes[30], bytes[31],
        ],
    };
    assert(word.bytes@ =~= bytes);
}

/// The address that `bytes` make up.
pub open spec fn address_of(bytes: Seq<u8>) -> Address {
    choose|address: Address| address.bytes@ == bytes
}

/// The address that 20 bytes make up has those bytes.
pub proof fn address_of_has_the_bytes(bytes: Seq<u8>)
    requires
        bytes.len() == 20,
    ensures
        address_of(bytes).bytes@ == bytes,
{
    let address: Address = FixedBytes {
        bytes: [
            bytes[0], bytes[1], bytes[2], bytes[3], bytes[4], bytes[5], bytes[6], bytes[7],
            bytes[8], bytes[9], bytes[10], bytes[11], bytes[12], bytes[13], bytes[14], bytes[15],
            bytes[16], bytes[17], bytes[18], bytes[19],
        ],
    };
    assert(address.bytes@ =~= bytes);
}

/// `alloy_primitives::U256::from`, on a `u64`: the word with that value.
#[verifier::external_body]
pub(crate) fn word_from_u64(n: u64) -> (r: Word)
    ensures
        r.value() == n,
{
    FixedBytes { bytes: alloy_primitives::U256::from(n).to_be_bytes() }
}

/// `alloy_primitives::U256`'s `%`: the remainder of the unsigned values. The divisor is not zero.
#[verifier::external_body]
pub(crate) fn word_rem(a: Word, b: Word) -> (r: Word)
    requires
        b.value() != 0,
    ensures
        r.value() == a.value() % b.value(),
{
    let a = alloy_primitives::U256::from_be_bytes(a.bytes);
    let b = alloy_primitives::U256::from_be_bytes(b.bytes);
    FixedBytes { bytes: (a % b).to_be_bytes() }
}

/// `alloy_primitives::U256::wrapping_shl`: the value times a power of two, modulo `2^256`.
#[verifier::external_body]
pub(crate) fn word_wrapping_shl(a: Word, bits: usize) -> (r: Word)
    ensures
        r.value() == (a.value() * pow2(bits as nat)) % pow2(256),
{
    let a = alloy_primitives::U256::from_be_bytes(a.bytes);
    FixedBytes { bytes: a.wrapping_shl(bits).to_be_bytes() }
}

/// `alloy_primitives::U256::wrapping_add`, which is what `+` does there: the sum modulo `2^256`.
#[verifier::external_body]
pub(crate) fn word_wrapping_add(a: Word, b: Word) -> (r: Word)
    ensures
        r.value() == (a.value() + b.value()) % pow2(256),
{
    let a = alloy_primitives::U256::from_be_bytes(a.bytes);
    let b = alloy_primitives::U256::from_be_bytes(b.bytes);
    FixedBytes { bytes: a.wrapping_add(b).to_be_bytes() }
}

/// `alloy_primitives::U256::wrapping_sub`: the difference modulo `2^256`.
#[verifier::external_body]
pub(crate) fn word_wrapping_sub(a: Word, b: Word) -> (r: Word)
    ensures
        r.value() == (a.value() - b.value()) % (pow2(256) as int),
{
    let a = alloy_primitives::U256::from_be_bytes(a.bytes);
    let b = alloy_primitives::U256::from_be_bytes(b.bytes);
    FixedBytes { bytes: a.wrapping_sub(b).to_be_bytes() }
}

/// `alloy_primitives::U256`'s `>=`: the order of the unsigned values.
#[verifier::external_body]
pub(crate) fn word_ge(a: Word, b: Word) -> (r: bool)
    ensures
        r == (a.value() >= b.value()),
{
    alloy_primitives::U256::from_be_bytes(a.bytes) >= alloy_primitives::U256::from_be_bytes(b.bytes)
}

/// `alloy_primitives::I256`'s `>`: the order of the two's complement values.
#[verifier::external_body]
pub(crate) fn word_signed_gt(a: Word, b: Word) -> (r: bool)
    ensures
        r == (a.signed_value() > b.signed_value()),
{
    let a = alloy_primitives::U256::from_be_bytes(a.bytes);
    let b = alloy_primitives::U256::from_be_bytes(b.bytes);
    alloy_primitives::I256::from_raw(a) > alloy_primitives::I256::from_raw(b)
}

/// `alloy_primitives::I256::try_from_be_slice`: 32 bytes or fewer are read as a big-endian
/// number and give a word with that value; more give nothing.
#[verifier::external_body]
pub(crate) fn word_try_from_be_slice(bytes: &Vec<u8>) -> (r: Option<Word>)
    ensures
        r is Some <==> bytes@.len() <= 32,
        r matches Some(w) ==> w.value() == be_value(bytes@),
{
    let value = alloy_primitives::I256::try_from_be_slice(bytes)?;
    Some(FixedBytes { bytes: value.into_raw().to_be_bytes() })
}

/// Bytes spell a number with the most significant one first: one byte more behind them makes it 256 times as large
/// and adds that byte.
pub proof fn bytes_spell_numbers_from_the_front(bytes: Seq<u8>, byte: u8)
    ensures
        be_value(Seq::<u8>::empty()) == 0,
        be_value(bytes.push(byte)) == be_value(bytes) * 256 + byte,
{
    assert(bytes.push(byte).drop_last() =~= bytes);
}

/// A word is read as a signed number as two's complement has it: the signed and the unsigned value are the same
/// below half of the range, and otherwise differ by the whole range.
pub proof fn words_are_signed_in_twos_complement(word: Word)
    ensures
        word.value() == be_value(word.bytes@),
        word.signed_value() >= 0 <==> word.value() < pow2(255),
        word.signed_value() >= 0 ==> word.signed_value() == word.value(),
        word.signed_value() < 0 ==> word.signed_value() + pow2(256) == word.value(),
        word.value() >= pow2(255) ==> word.signed_value() == word.value() - pow2(256),
{
    words_have_values_below_the_range(word.bytes@);
    vstd::arithmetic::power2::lemma_pow2_pos(255);
}

/// Bytes spell numbers below what they can spell.
proof fn words_have_values_below_the_range(bytes: Seq<u8>)
    ensures
        be_value(bytes) < pow2(8 * bytes.len()),
    decreases bytes.len(),
{
    if bytes.len() == 0 {
        vstd::arithmetic::power2::lemma2_to64();
    } else {
        let rest = bytes.drop_last();
        words_have_values_below_the_range(rest);
        vstd::arithmetic::power2::lemma2_to64();
        vstd::arithmetic::power2::lemma_pow2_adds(8 * rest.len(), 8);
        assert(8 * bytes.len() == 8 * rest.len() + 8);
        assert(pow2(8 * bytes.len()) == pow2(8 * rest.len()) * 256);
    }
}

/// The bytes of a number are its digits to the base 256: the last one is what is left of it when it is divided,
/// and those before it are the bytes of the quotient.
pub proof fn digits_are_those_of_the_number(value: nat, len: nat)
    requires
        len > 0,
    ensures
        be_digits(value, len).len() == len,
        be_digits(value, len).last() == value % 256,
        be_digits(value, len).drop_last() == be_digits(value / 256, (len - 1) as nat),
{
    digits_are_as_many_as_asked_for(value / 256, (len - 1) as nat);
    assert(be_digits(value, len).drop_last() =~= be_digits(value / 256, (len - 1) as nat));
}

/// There are as many digits as are asked for.
proof fn digits_are_as_many_as_asked_for(value: nat, len: nat)
    ensures
        be_digits(value, len).len() == len,
    decreases len,
{
    if len > 0 {
        digits_are_as_many_as_asked_for(value / 256, (len - 1) as nat);
    }
}

} // verus!
