//! Filters on senders and on artifacts.

use vstd::prelude::*;

use crate::abi::texts;
use crate::fixed::{address_of, address_of_has_the_bytes, Address, FixedBytes, Selector};
use crate::ordered::OrderedMap;
use crate::text::same_text;

verus! {

/// Whether `addresses` holds `address`.
pub fn contains_address(addresses: &Vec<Address>, address: Address) -> (r: bool)
    ensures
        r == addresses@.contains(address),
{
    let mut i: usize = 0;
    while i < addresses.len()
        invariant
            i <= addresses@.len(),
            forall|j: int| 0 <= j < i ==> addresses@[j] != address,
        decreases addresses@.len() - i,
    {
        if addresses[i] == address {
            return true;
        }
        i += 1;
    }
    false
}

/// Whether `selectors` holds `selector`.
pub fn contains_selector(selectors: &Vec<Selector>, selector: Selector) -> (r: bool)
    ensures
        r == selectors@.contains(selector),
{
    let mut i: usize = 0;
    while i < selectors.len()
        invariant
            i <= selectors@.len(),
            forall|j: int| 0 <= j < i ==> selectors@[j] != selector,
        decreases selectors@.len() - i,
    {
        if selectors[i] == selector {
            return true;
        }
        i += 1;
    }
    false
}

/// Whether `strings` holds the text `text`.
pub fn contains_text(strings: &Vec<String>, text: &str) -> (r: bool)
    ensures
        r == texts(strings@).contains(text@),
{
    let mut i: usize = 0;
    let ghost models = texts(strings@);
    while i < strings.len()
        invariant
            i <= strings@.len(),
            models == texts(strings@),
            forall|j: int| 0 <= j < i ==> models[j] != text@,
        decreases strings@.len() - i,
    {
        if same_text(strings[i].as_str(), text) {
            assert(models[i as int] == text@);
            return true;
        }
        i += 1;
    }
    false
}

/// `address` is the zero address.
pub open spec fn is_zero_address(address: Address) -> bool {
    forall|i: int| 0 <= i < 20 ==> #[trigger] address.bytes@[i] == 0
}

/// Some address of `addresses` is zero.
pub open spec fn has_zero_address(addresses: Seq<Address>) -> bool {
    exists|i: int| 0 <= i < addresses.len() && is_zero_address(#[trigger] addresses[i])
}

/// `address` is the sender that stands in for excluded ones, `0x30000`.
pub open spec fn is_fallback_sender(address: Address) -> bool {
    forall|i: int| 0 <= i < 20 ==> #[trigger] address.bytes@[i] == (if i == 17 { 3u8 } else { 0u8 })
}

/// The sender that stands in for excluded ones, `0x30000`.
pub fn fallback_sender() -> (r: Address)
    ensures
        is_fallback_sender(r),
        r == fallback_address(),
{
    let mut bytes: [u8; 20] = [0; 20];
    bytes[17] = 3;
    let r: Address = FixedBytes { bytes };
    proof {
        assert(is_fallback_sender(r));
        fallback_sender_is_unique(r, fallback_address());
    }
    r
}

/// There is one fallback sender.
pub proof fn fallback_sender_is_unique(a: Address, b: Address)
    requires
        is_fallback_sender(a),
        is_fallback_sender(b),
    ensures
        a == b,
{
    assert forall|i: int| 0 <= i < 20 implies a.bytes@[i] == b.bytes@[i] by {
        assert(a.bytes@[i] == (if i == 17 { 3u8 } else { 0u8 }));
        assert(b.bytes@[i] == (if i == 17 { 3u8 } else { 0u8 }));
    }
    assert(a.bytes =~= b.bytes);
}

/// The sender that stands in for excluded ones.
pub open spec fn fallback_address() -> Address {
    choose|address: Address| is_fallback_sender(address)
}

/// The sender that stands in for excluded ones is the fallback sender.
pub proof fn fallback_address_is_the_fallback_sender()
    ensures
        is_fallback_sender(fallback_address()),
{
    let bytes = Seq::new(
        20,
        |i: int|
            if i == 17 {
                3u8
            } else {
                0u8
            },
    );
    address_of_has_the_bytes(bytes);
    assert(is_fallback_sender(address_of(bytes)));
}

/// The sender to use for `sender`: itself, or the fallback sender where it is excluded.
pub open spec fn resolved_sender(excluded: Seq<Address>, sender: Address) -> Address {
    if excluded.contains(sender) {
        fallback_address()
    } else {
        sender
    }
}

/// Which senders may be used: the targeted ones, or all but the excluded ones where none is
/// targeted.
#[derive(Debug)]
pub struct SenderFilters {
    pub targeted: Vec<Address>,
    pub excluded: Vec<Address>,
}

impl Clone for SenderFilters {
    fn clone(&self) -> (r: Self)
        ensures
            r.targeted@ == self.targeted@,
            r.excluded@ == self.excluded@,
    {
        SenderFilters { targeted: clone_addresses(&self.targeted), excluded: clone_addresses(&self.excluded) }
    }
}

/// A copy of `addresses`.
pub fn clone_addresses(addresses: &Vec<Address>) -> (r: Vec<Address>)
    ensures
        r@ == addresses@,
{
    let mut out: Vec<Address> = Vec::new();
    let mut i: usize = 0;
    while i < addresses.len()
        invariant
            i <= addresses@.len(),
            out@ == addresses@.take(i as int),
        decreases addresses@.len() - i,
    {
        out.push(addresses[i]);
        assert(addresses@.take(i + 1) =~= addresses@.take(i as int).push(addresses@[i as int]));
        i += 1;
    }
    assert(addresses@.take(i as int) =~= addresses@);
    out
}

/// A copy of `selectors`.
pub fn clone_selectors(selectors: &Vec<Selector>) -> (r: Vec<Selector>)
    ensures
        r@ == selectors@,
{
    let mut out: Vec<Selector> = Vec::new();
    let mut i: usize = 0;
    while i < selectors.len()
        invariant
            i <= selectors@.len(),
            out@ == selectors@.take(i as int),
        decreases selectors@.len() - i,
    {
        out.push(selectors[i]);
        assert(selectors@.take(i + 1) =~= selectors@.take(i as int).push(selectors@[i as int]));
        i += 1;
    }
    assert(selectors@.take(i as int) =~= selectors@);
    out
}

/// `all` is `excluded`, with the zero address behind it where `excluded` does not hold it.
pub open spec fn with_zero_address(excluded: Seq<Address>, all: Seq<Address>) -> bool {
    &&& has_zero_address(all)
    &&& if has_zero_address(excluded) {
        all == excluded
    } else {
        all.len() == excluded.len() + 1 && all.drop_last() == excluded
    }
}

impl SenderFilters {
    /// The filters with these senders; the zero address is always excluded.
    pub fn new(targeted: Vec<Address>, excluded: Vec<Address>) -> (r: SenderFilters)
        ensures
            r.targeted@ == targeted@,
            with_zero_address(excluded@, r.excluded@),
    {
        let zero = Address::zero();
        proof {
            assert(is_zero_address(zero));
            if has_zero_address(excluded@) {
                let i = choose|i: int| 0 <= i < excluded@.len() && is_zero_address(#[trigger] excluded@[i]);
                assert(excluded@[i].bytes =~= zero.bytes);
                assert(excluded@[i] == zero);
            }
            if excluded@.contains(zero) {
                let i = excluded@.index_of(zero);
                assert(is_zero_address(excluded@[i]));
            }
        }
        let ghost given = excluded@;
        let mut excluded = excluded;
        if !contains_address(&excluded, zero) {
            excluded.push(zero);
            assert(excluded@.drop_last() =~= given);
            assert(is_zero_address(excluded@[given.len() as int]));
        }
        SenderFilters { targeted, excluded }
    }

    /// The sender to use for `sender`: itself, or the fallback sender where it is excluded.
    pub fn resolve(&self, sender: Address) -> (r: Address)
        ensures
            r == resolved_sender(self.excluded@, sender),
    {
        if contains_address(&self.excluded, sender) {
            fallback_sender()
        } else {
            sender
        }
    }
}

/// No sender resolves to an excluded one, unless the fallback sender itself is excluded; and what
/// a sender resolves to resolves to itself.
pub proof fn resolved_sender_is_not_excluded(excluded: Seq<Address>, sender: Address)
    ensures
        excluded.contains(resolved_sender(excluded, sender)) ==> excluded.contains(fallback_address()),
        resolved_sender(excluded, resolved_sender(excluded, sender)) == resolved_sender(excluded, sender),
{
}

/// Which artifacts are fuzzed: the targeted ones with the selectors chosen for each, and never
/// the excluded ones. Artifacts are named by their identifiers.
pub struct ArtifactFilters {
    pub targeted: OrderedMap<String, Vec<Selector>>,
    pub excluded: Vec<String>,
}

/// The model of [`ArtifactFilters`].
pub struct ArtifactFiltersView {
    pub targeted: Map<Seq<char>, Seq<Selector>>,
    pub excluded: Seq<Seq<char>>,
}

impl View for ArtifactFilters {
    type V = ArtifactFiltersView;

    open spec fn view(&self) -> ArtifactFiltersView {
        ArtifactFiltersView {
            targeted: self.targeted@.map_values(|s: Vec<Selector>| s@),
            excluded: texts(self.excluded@),
        }
    }
}

impl ArtifactFiltersView {
    /// No filters.
    pub open spec fn none() -> ArtifactFiltersView {
        ArtifactFiltersView { targeted: Map::empty(), excluded: Seq::empty() }
    }
}

impl ArtifactFilters {
    /// The targeted artifacts are in the order of their identifiers.
    pub open spec fn wf(self) -> bool {
        self.targeted.wf()
    }

    /// No filters.
    pub fn new() -> (r: ArtifactFilters)
        ensures
            r.wf(),
            r@ == ArtifactFiltersView::none(),
    {
        let r = ArtifactFilters { targeted: OrderedMap::new(), excluded: Vec::new() };
        assert(r@.targeted =~= Map::empty());
        assert(r@.excluded =~= Seq::empty());
        r
    }
}

/// A sender that is not excluded is used as it is, and in place of one that is excluded the address whose bytes
/// spell `0x30000` is used.
pub proof fn excluded_senders_are_replaced(excluded: Seq<Address>, sender: Address, i: int)
    ensures
        (forall|k: int| 0 <= k < excluded.len() ==> #[trigger] excluded[k] != sender) ==> resolved_sender(
            excluded,
            sender,
        ) == sender,
        0 <= i < excluded.len() && excluded[i] == sender ==> {
            let address = resolved_sender(excluded, sender);
            &&& address.bytes@[17] == 3
            &&& forall|b: int| 0 <= b < 20 && b != 17 ==> #[trigger] address.bytes@[b] == 0
        },
{
    fallback_address_is_the_fallback_sender();
    if 0 <= i < excluded.len() && excluded[i] == sender {
        assert(excluded.contains(sender));
        assert(is_fallback_sender(fallback_address()));
        assert(fallback_address().bytes@[17] == 3u8);
    }
}

/// The zero address is always excluded, once, behind the senders that are excluded otherwise; all of these stay.
pub proof fn the_zero_address_is_excluded(excluded: Seq<Address>, all: Seq<Address>, i: int)
    requires
        with_zero_address(excluded, all),
    ensures
        exists|z: int| 0 <= z < all.len() && forall|b: int| 0 <= b < 20 ==> #[trigger] (#[trigger] all[z]).bytes@[b] == 0,
        excluded.len() <= all.len() <= excluded.len() + 1,
        0 <= i < excluded.len() ==> all[i] == excluded[i],
{
    let z = choose|z: int| 0 <= z < all.len() && is_zero_address(#[trigger] all[z]);
    assert(is_zero_address(all[z]));
    if !has_zero_address(excluded) && 0 <= i < excluded.len() {
        assert(all.drop_last()[i] == all[i]);
    }
}

/// Artifact filters are known by the selectors of each targeted artifact and by each excluded one.
pub proof fn filters_are_known_by_their_parts(filters: ArtifactFilters, id: Seq<char>, i: int)
    ensures
        filters@.targeted.dom().contains(id) == filters.targeted@.dom().contains(id),
        filters.targeted@.dom().contains(id) ==> filters@.targeted[id] == filters.targeted@[id]@,
        filters@.excluded.len() == filters.excluded@.len(),
        0 <= i < filters.excluded@.len() ==> filters@.excluded[i] == filters.excluded@[i]@,
        ArtifactFiltersView::none().excluded.len() == 0,
        !ArtifactFiltersView::none().targeted.dom().contains(id),
{
}

} // verus!
