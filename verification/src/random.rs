//! Random choices. What they give is left open, but for the range they keep to.

use std::sync::Arc;

use proptest::arbitrary::any;
use proptest::sample::{Index, Selector};
use proptest::strategy::{Just, Strategy, TupleUnion, ValueTree};
use proptest::test_runner::{RngAlgorithm, TestRng, TestRunner};
use rand::rngs::StdRng;
use rand::seq::IteratorRandom;
use rand::{Rng, RngCore, SeedableRng};
use vstd::prelude::*;

use crate::filters::contains_address;
use crate::fixed::{
    address_of, address_of_has_the_bytes, be_value, be_value_is_injective, Address, FixedBytes, Word,
};
use crate::shared::be_bytes;

verus! {

/// `rand::rngs::StdRng`, a generator of random numbers.
#[verifier::external_type_specification]
#[verifier::external_body]
pub struct ExStdRng(StdRng);

/// `proptest::test_runner::TestRunner`, which strategies draw their values with.
#[verifier::external_type_specification]
#[verifier::external_body]
pub struct ExTestRunner(TestRunner);

/// `rand::Rng::random_ratio`: true with a probability of `numerator` to `denominator`, so always or
/// never at its ends. Which it is between them is left to chance.
#[verifier::external_body]
pub(crate) fn random_ratio(rng: &mut StdRng, numerator: u32, denominator: u32) -> (r: bool)
    requires
        0 < denominator,
        numerator <= denominator,
    ensures
        numerator == denominator ==> r,
        numerator == 0 ==> !r,
{
    rng.random_ratio(numerator, denominator)
}

/// `rand::Rng::random_range`, on a range with its end: some number up to `limit`. Which it is is left to
/// chance.
#[verifier::external_body]
pub(crate) fn random_up_to(rng: &mut StdRng, limit: u64) -> (r: u64)
    ensures
        r <= limit,
{
    rng.random_range(0..=limit)
}

/// Some place below `len`.
pub fn random_place(rng: &mut StdRng, len: usize) -> (r: usize)
    requires
        len > 0,
    ensures
        r < len,
{
    random_up_to(rng, (len - 1) as u64) as usize
}

/// The first `len` bytes of the generator with this seed.
pub uninterp spec fn bytes_from_seed(seed: u64, len: nat) -> Seq<u8>;

/// `rand::RngCore::fill_bytes`, on `rand::rngs::StdRng` from `rand::SeedableRng::seed_from_u64`:
/// bytes that depend on the seed and on how many are asked for.
#[verifier::external_body]
pub(crate) fn seeded_bytes(seed: u64, len: usize) -> (r: Vec<u8>)
    ensures
        r@.len() == len,
        r@ == bytes_from_seed(seed, len as nat),
{
    let mut bytes = vec![0; len];
    StdRng::seed_from_u64(seed).fill_bytes(&mut bytes);
    bytes
}

/// `alloy_primitives::Address::random`: an address from the generator of the machine. Which it is is
/// left to chance.
#[verifier::external_body]
pub(crate) fn random_address() -> (r: Address) {
    FixedBytes { bytes: alloy_primitives::Address::random().into_array() }
}

/// `rand::seq::IteratorRandom::choose`, with the generator of the thread: some place below `len`.
#[verifier::external_body]
pub(crate) fn choose_place(len: usize) -> (r: usize)
    requires
        len > 0,
    ensures
        r < len,
{
    (0..len).choose(&mut rand::rng()).unwrap_or(0)
}

/// `proptest::sample::Selector::select`: some place below `len`.
#[verifier::external_body]
pub(crate) fn select_place(runner: &mut TestRunner, len: usize) -> (r: usize)
    requires
        len > 0,
    ensures
        r < len,
{
    any::<Selector>().new_tree(runner).unwrap().current().select(0..len)
}

/// `proptest::sample::Index::index`: some place below `len`.
#[verifier::external_body]
pub(crate) fn index_place(runner: &mut TestRunner, len: usize) -> (r: usize)
    requires
        len > 0,
    ensures
        r < len,
{
    any::<Index>().new_tree(runner).unwrap().current().index(len)
}

/// `proptest::strategy::TupleUnion`: true with weight `yes` and false with weight `no`. What has no
/// weight never comes.
#[verifier::external_body]
pub(crate) fn weighted(runner: &mut TestRunner, yes: u32, no: u32) -> (r: bool)
    requires
        yes > 0 || no > 0,
    ensures
        yes == 0 ==> !r,
        no == 0 ==> r,
{
    let union = TupleUnion::new(((yes, Arc::new(Just(true))), (no, Arc::new(Just(false)))));
    union.new_tree(runner).unwrap().current()
}

/// `proptest::arbitrary::any`, on 32 bytes: some word. Which it is is left to chance.
#[verifier::external_body]
pub(crate) fn any_word(runner: &mut TestRunner) -> (r: Word) {
    FixedBytes { bytes: any::<[u8; 32]>().new_tree(runner).unwrap().current() }
}

/// `Clone` of `proptest::test_runner::TestRunner`: the same runner again, which goes on as this one
/// does. What a runner will choose is not stated.
#[verifier::external_body]
pub(crate) fn same_runner(runner: &TestRunner) -> (r: TestRunner)
    ensures
        r == *runner,
{
    runner.clone()
}

/// The runner with the configuration of `base` that chooses by this seed.
pub uninterp spec fn seeded_runner(base: TestRunner, seed: Word) -> TestRunner;

/// `proptest::test_runner::TestRunner::new_with_rng`, with the configuration of `runner` and
/// `proptest::test_runner::TestRng::from_seed`: a runner that depends on these two alone. What a runner
/// will choose is not stated.
#[verifier::external_body]
pub(crate) fn runner_with_seed(runner: &TestRunner, seed: Word) -> (r: TestRunner)
    ensures
        r == seeded_runner(*runner, seed),
{
    let rng = TestRng::from_seed(RngAlgorithm::ChaCha, &seed.bytes);
    TestRunner::new_with_rng(runner.config().clone(), rng)
}

/// The number of addresses that are drawn before one is made up that is allowed.
pub const MAX_DRAWS: u32 = 1000;

/// The address whose last eight bytes spell `n`, and whose others are zero.
pub open spec fn is_numbered(address: Address, n: nat) -> bool {
    &&& forall|i: int| 0 <= i < 12 ==> #[trigger] address.bytes@[i] == 0
    &&& be_value(address.bytes@.skip(12)) == n
}

/// The address whose last eight bytes spell `n`, and whose others are zero.
fn numbered_address(n: u64) -> (r: Address)
    ensures
        is_numbered(r, n as nat),
{
    let tail = be_bytes(n);
    let mut bytes: [u8; 20] = [0; 20];
    let mut i: usize = 0;
    while i < 8
        invariant
            i <= 8,
            tail@.len() == 8,
            forall|j: int| 0 <= j < 12 ==> bytes@[j] == 0,
            forall|j: int| 0 <= j < i ==> bytes@[j + 12] == #[trigger] tail@[j],
        decreases 8 - i,
    {
        bytes[i + 12] = tail[i];
        i += 1;
    }
    assert(bytes@.skip(12) =~= tail@) by {
        assert forall|j: int| 0 <= j < 8 implies bytes@.skip(12)[j] == tail@[j] by {
            assert(bytes@[j + 12] == tail@[j]);
        }
    }
    FixedBytes { bytes }
}

/// More addresses than `taken` holds cannot all be in it.
proof fn not_all_are_taken(taken: Seq<Address>, numbered: Seq<Address>)
    requires
        numbered.len() == taken.len() + 1,
        forall|i: int| 0 <= i < numbered.len() ==> is_numbered(#[trigger] numbered[i], i as nat),
    ensures
        exists|i: int| 0 <= i < numbered.len() && !taken.contains(#[trigger] numbered[i]),
{
    assert(numbered.no_duplicates()) by {
        assert forall|i: int, j: int| 0 <= i < numbered.len() && 0 <= j < numbered.len() && i != j implies numbered[i]
            != numbered[j] by {
            assert(is_numbered(numbered[i], i as nat));
            assert(is_numbered(numbered[j], j as nat));
        }
    }
    numbered.unique_seq_to_set();
    taken.lemma_cardinality_of_set();
    if forall|i: int| 0 <= i < numbered.len() ==> taken.contains(#[trigger] numbered[i]) {
        assert(numbered.to_set().subset_of(taken.to_set())) by {
            assert forall|a: Address| numbered.to_set().contains(a) implies taken.to_set().contains(a) by {
                let i = numbered.index_of(a);
                assert(taken.contains(numbered[i]));
            }
        }
        vstd::set_lib::lemma_len_subset(numbered.to_set(), taken.to_set());
    }
}

/// There is one address for each number.
pub proof fn numbered_addresses_are_unique(a: Address, b: Address, n: nat)
    requires
        is_numbered(a, n),
        is_numbered(b, n),
    ensures
        a == b,
{
    be_value_is_injective(a.bytes@.skip(12), b.bytes@.skip(12));
    assert forall|i: int| 0 <= i < 20 implies a.bytes@[i] == b.bytes@[i] by {
        if i >= 12 {
            assert(a.bytes@.skip(12)[i - 12] == a.bytes@[i]);
            assert(b.bytes@.skip(12)[i - 12] == b.bytes@[i]);
        }
    }
    assert(a.bytes =~= b.bytes);
}

/// `taken` holds every address with a number below `n`.
pub open spec fn holds_numbers_below(taken: Seq<Address>, n: nat) -> bool {
    forall|address: Address, m: nat| m < n && #[trigger] is_numbered(address, m) ==> taken.contains(address)
}

/// The first numbered address that `taken` does not hold.
pub fn free_address(taken: &Vec<Address>) -> (r: Address)
    ensures
        !taken@.contains(r),
        exists|n: nat| #[trigger] is_numbered(r, n) && holds_numbers_below(taken@, n),
{
    let mut n: u64 = 0;
    let mut address = numbered_address(0);
    let ghost mut seen: Seq<Address> = Seq::empty();
    let count: usize = taken.len();
    while (n as usize) < count && contains_address(taken, address)
        invariant
            n <= count,
            count == taken@.len(),
            seen.len() == n,
            is_numbered(address, n as nat),
            forall|i: int| 0 <= i < seen.len() ==> is_numbered(#[trigger] seen[i], i as nat),
            forall|i: int| 0 <= i < seen.len() ==> taken@.contains(#[trigger] seen[i]),
        decreases count - n,
    {
        proof {
            seen = seen.push(address);
        }
        n += 1;
        address = numbered_address(n);
    }
    proof {
        if taken@.contains(address) {
            let all = seen.push(address);
            not_all_are_taken(taken@, all);
            let i = choose|i: int| 0 <= i < all.len() && !taken@.contains(#[trigger] all[i]);
            assert(i < seen.len() ==> all[i] == seen[i]);
        }
        assert forall|a: Address, m: nat| m < n && #[trigger] is_numbered(a, m) implies taken@.contains(a) by {
            numbered_addresses_are_unique(a, seen[m as int], m);
        }
        assert(is_numbered(address, n as nat) && holds_numbers_below(taken@, n as nat));
    }
    address
}

/// The number of bytes that [`MAX_DRAWS`] addresses take.
pub const DRAWN_BYTES: usize = 20_000;

/// The address with number `k` of those that the generator with this seed gives.
pub open spec fn seeded_address(seed: u64, k: int) -> Address {
    address_of(bytes_from_seed(seed, DRAWN_BYTES as nat).subrange(20 * k, 20 * k + 20))
}

/// The 20 bytes from `from` on, as an address.
fn address_at(bytes: &Vec<u8>, from: usize) -> (r: Address)
    requires
        from + 20 <= bytes@.len(),
    ensures
        r == address_of(bytes@.subrange(from as int, from + 20)),
{
    let mut out: [u8; 20] = [0; 20];
    let n = bytes.len();
    let mut i: usize = 0;
    while i < 20
        invariant
            i <= 20,
            n == bytes@.len(),
            from + 20 <= n,
            forall|j: int| 0 <= j < i ==> out@[j] == bytes@[from + j],
        decreases 20 - i,
    {
        out[i] = bytes[from + i];
        i += 1;
    }
    let r: Address = FixedBytes { bytes: out };
    proof {
        let wanted = bytes@.subrange(from as int, from + 20);
        assert(r.bytes@ =~= wanted);
        let other = address_of(wanted);
        assert(other.bytes@ == wanted);
        assert(other.bytes =~= r.bytes);
    }
    r
}

/// The candidate, or where it is forbidden, the first address of the generator with this seed that
/// is not.
pub fn avoid_with_seed(candidate: Address, forbidden: &Vec<Address>, seed: u64) -> (r: Address)
    ensures
        !forbidden@.contains(r),
        !forbidden@.contains(candidate) ==> r == candidate,
        forall|k: int|
            0 <= k < MAX_DRAWS && forbidden@.contains(candidate) && !forbidden@.contains(
                #[trigger] seeded_address(seed, k),
            ) && (forall|j: int| 0 <= j < k ==> forbidden@.contains(#[trigger] seeded_address(seed, j))) ==> r
                == seeded_address(seed, k),
{
    if !contains_address(forbidden, candidate) {
        return candidate;
    }
    let bytes = seeded_bytes(seed, DRAWN_BYTES);
    let mut draws: u32 = 0;
    while draws < MAX_DRAWS
        invariant
            draws <= MAX_DRAWS,
            bytes@.len() == DRAWN_BYTES,
            bytes@ == bytes_from_seed(seed, DRAWN_BYTES as nat),
            forbidden@.contains(candidate),
            forall|j: int| 0 <= j < draws ==> forbidden@.contains(#[trigger] seeded_address(seed, j)),
        decreases MAX_DRAWS - draws,
    {
        let address = address_at(&bytes, 20 * (draws as usize));
        assert(address == seeded_address(seed, draws as int));
        if !contains_address(forbidden, address) {
            return address;
        }
        draws += 1;
    }
    free_address(forbidden)
}

/// The candidate, or where it is forbidden, random addresses until one is not.
pub fn avoid(candidate: Address, forbidden: &Vec<Address>) -> (r: Address)
    ensures
        !forbidden@.contains(r),
        !forbidden@.contains(candidate) ==> r == candidate,
{
    if !contains_address(forbidden, candidate) {
        return candidate;
    }
    let mut draws: u32 = 0;
    while draws < MAX_DRAWS
        invariant
            draws <= MAX_DRAWS,
            forbidden@.contains(candidate),
        decreases MAX_DRAWS - draws,
    {
        let address = random_address();
        if !contains_address(forbidden, address) {
            return address;
        }
        draws += 1;
    }
    free_address(forbidden)
}

/// The addresses of a generator stand one behind the other in its bytes: each takes the twenty bytes behind those
/// of the one before.
pub proof fn generated_addresses_stand_one_behind_the_other(seed: u64, k: int, i: int)
    requires
        0 <= k < 1000,
        0 <= i < 20,
    ensures
        bytes_from_seed(seed, 20_000).len() == 20_000 ==> seeded_address(seed, k).bytes@[i] == bytes_from_seed(
            seed,
            20_000,
        )[20 * k + i],
        MAX_DRAWS == 1000,
{
    if bytes_from_seed(seed, 20_000).len() == 20_000 {
        address_of_has_the_bytes(bytes_from_seed(seed, 20_000).subrange(20 * k, 20 * k + 20));
    }
}

} // verus!
