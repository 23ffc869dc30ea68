//! The contracts that a campaign calls.

use vstd::prelude::*;
use vstd::string::*;

use crate::abi::{Abi, AbiView};
use crate::filters::clone_selectors;
use crate::fixed::{Address, Selector};
use crate::ordered::{
    aligned_entries, entry_keys, key_order, map_of, map_of_next, sorted_entries_follow_key_order, sorted_entry_is_mapped,
    sorted_prefix, OrderedKey, OrderedMap,
};

verus! {

/// A contract to call.
pub struct TargetedContract {
    /// The identifier of its artifact.
    pub identifier: String,
    /// Its interface.
    pub abi: Abi,
    /// The selectors of the functions chosen to be called.
    pub targeted_functions: Vec<Selector>,
    /// The selectors of the functions that are not called.
    pub excluded_functions: Vec<Selector>,
    /// Whether its storage layout is known.
    pub storage_layout: bool,
}

/// The model of a [`TargetedContract`].
pub struct TargetView {
    pub identifier: Seq<char>,
    pub abi: AbiView,
    pub targeted_functions: Seq<Selector>,
    pub excluded_functions: Seq<Selector>,
    pub storage_layout: bool,
}

impl View for TargetedContract {
    type V = TargetView;

    open spec fn view(&self) -> TargetView {
        TargetView {
            identifier: self.identifier@,
            abi: self.abi@,
            targeted_functions: self.targeted_functions@,
            excluded_functions: self.excluded_functions@,
            storage_layout: self.storage_layout,
        }
    }
}

impl Clone for TargetedContract {
    fn clone(&self) -> (r: Self)
        ensures
            self.wf() ==> r.wf() && r@ == self@,
    {
        TargetedContract {
            identifier: self.identifier.clone(),
            abi: self.abi.clone(),
            targeted_functions: clone_selectors(&self.targeted_functions),
            excluded_functions: clone_selectors(&self.excluded_functions),
            storage_layout: self.storage_layout,
        }
    }
}

impl TargetView {
    /// A contract of which no function is chosen or excluded.
    pub open spec fn plain(identifier: Seq<char>, abi: AbiView, storage_layout: bool) -> TargetView {
        TargetView {
            identifier,
            abi,
            targeted_functions: Seq::empty(),
            excluded_functions: Seq::empty(),
            storage_layout,
        }
    }

    /// The contract with `selectors` added to the excluded or the chosen ones.
    pub open spec fn with_selectors(self, selectors: Seq<Selector>, should_exclude: bool) -> TargetView {
        if should_exclude {
            TargetView { excluded_functions: self.excluded_functions + selectors, ..self }
        } else {
            TargetView { targeted_functions: self.targeted_functions + selectors, ..self }
        }
    }
}

/// The number of `selectors` before the first that `abi` has no function for.
pub open spec fn known_prefix(abi: AbiView, selectors: Seq<Selector>) -> nat
    decreases selectors.len(),
{
    if selectors.len() == 0 {
        0
    } else if known_prefix(abi, selectors.drop_last()) == selectors.len() - 1 && abi.has_selector(selectors.last()) {
        selectors.len()
    } else {
        known_prefix(abi, selectors.drop_last())
    }
}

/// The known selectors come first, and the one behind them is not known.
pub proof fn known_prefix_is_the_longest(abi: AbiView, selectors: Seq<Selector>)
    ensures
        known_prefix(abi, selectors) <= selectors.len(),
        forall|i: int| 0 <= i < known_prefix(abi, selectors) ==> abi.has_selector(#[trigger] selectors[i]),
        known_prefix(abi, selectors) < selectors.len() ==> !abi.has_selector(
            selectors[known_prefix(abi, selectors) as int],
        ),
    decreases selectors.len(),
{
    if selectors.len() > 0 {
        let front = selectors.drop_last();
        known_prefix_is_the_longest(abi, front);
        assert forall|i: int| 0 <= i < known_prefix(abi, selectors) implies abi.has_selector(#[trigger] selectors[i]) by {
            if i < known_prefix(abi, front) {
                assert(front[i] == selectors[i]);
            }
        }
    }
}

/// A selector that a contract has no function for.
#[derive(Debug)]
pub struct UnknownSelector {
    pub identifier: String,
    pub selector: Selector,
}

impl TargetedContract {
    /// The groups of functions are in the order of their names.
    pub open spec fn wf(self) -> bool {
        self.abi.wf()
    }

    /// A contract of which no function is chosen or excluded, and whose storage layout is not
    /// known.
    pub fn new(identifier: String, abi: Abi) -> (r: TargetedContract)
        requires
            abi.wf(),
        ensures
            r.wf(),
            r@ == TargetView::plain(identifier@, abi@, false),
    {
        TargetedContract {
            identifier,
            abi,
            targeted_functions: Vec::new(),
            excluded_functions: Vec::new(),
            storage_layout: false,
        }
    }

    /// Whether the groups of functions are in the order of their names.
    pub fn is_valid(&self) -> (r: bool)
        ensures
            r == self.wf(),
    {
        self.abi.is_valid()
    }

    /// Adds `selectors` to the excluded or to the chosen ones, up to the first that the contract
    /// has no function for.
    pub fn add_selectors(&mut self, selectors: &Vec<Selector>, should_exclude: bool) -> (r: Result<
        (),
        UnknownSelector,
    >)
        requires
            old(self).wf(),
        ensures
            final(self).wf(),
            final(self)@ == old(self)@.with_selectors(
                selectors@.take(known_prefix(old(self)@.abi, selectors@) as int),
                should_exclude,
            ),
            r is Ok == (known_prefix(old(self)@.abi, selectors@) == selectors@.len()),
            r matches Err(e) ==> {
                &&& e.identifier@ == old(self)@.identifier
                &&& e.selector == selectors@[known_prefix(old(self)@.abi, selectors@) as int]
            },
    {
        let ghost known = known_prefix(self@.abi, selectors@);
        proof {
            known_prefix_is_the_longest(self@.abi, selectors@);
            assert(selectors@.take(0) =~= Seq::empty());
            assert(self@.targeted_functions + Seq::<Selector>::empty() =~= self@.targeted_functions);
            assert(self@.excluded_functions + Seq::<Selector>::empty() =~= self@.excluded_functions);
        }
        let mut i: usize = 0;
        while i < selectors.len()
            invariant
                i <= known,
                known <= selectors@.len(),
                self.wf(),
                known == known_prefix(old(self)@.abi, selectors@),
                forall|j: int| 0 <= j < known ==> old(self)@.abi.has_selector(#[trigger] selectors@[j]),
                known < selectors@.len() ==> !old(self)@.abi.has_selector(selectors@[known as int]),
                self@ == old(self)@.with_selectors(selectors@.take(i as int), should_exclude),
            decreases selectors@.len() - i,
        {
            let selector = selectors[i];
            assert(selector == selectors@[i as int]);
            if !self.abi.has_selector(selector) {
                return Err(UnknownSelector { identifier: self.identifier.clone(), selector });
            }
            let ghost before = self@;
            if should_exclude {
                self.excluded_functions.push(selector);
                assert(self@.excluded_functions =~= old(self)@.excluded_functions + selectors@.take(i + 1));
            } else {
                self.targeted_functions.push(selector);
                assert(self@.targeted_functions =~= old(self)@.targeted_functions + selectors@.take(i + 1));
            }
            i += 1;
        }
        Ok(())
    }
}

/// The contracts to call, by their addresses.
pub struct TargetedContracts {
    pub inner: OrderedMap<Address, TargetedContract>,
}

/// The models of targeted contracts.
pub open spec fn target_models(targets: Map<Address, TargetedContract>) -> Map<Address, TargetView> {
    targets.map_values(|target: TargetedContract| target@)
}

impl View for TargetedContracts {
    type V = Map<Address, TargetView>;

    open spec fn view(&self) -> Map<Address, TargetView> {
        target_models(self.inner@)
    }
}

impl TargetedContracts {
    /// The contracts are in the order of their addresses, and each is well formed.
    pub open spec fn wf(self) -> bool {
        &&& self.inner.wf()
        &&& forall|i: int| 0 <= i < self.inner.entries@.len() ==> (#[trigger] self.inner.entries@[i]).1.wf()
    }

    /// No contracts.
    pub fn new() -> (r: TargetedContracts)
        ensures
            r.wf(),
            r@ == Map::<Address, TargetView>::empty(),
    {
        let r = TargetedContracts { inner: OrderedMap::new() };
        assert(r@ =~= Map::<Address, TargetView>::empty());
        r
    }

    /// The number of contracts.
    pub fn len(&self) -> (r: usize)
        requires
            self.wf(),
        ensures
            r == self@.dom().len(),
    {
        assert(self@.dom() =~= self.inner@.dom());
        self.inner.len()
    }

    /// Whether there is no contract.
    pub fn is_empty(&self) -> (r: bool)
        requires
            self.wf(),
        ensures
            r == (self@.dom().len() == 0),
    {
        assert(self@.dom() =~= self.inner@.dom());
        self.inner.is_empty()
    }

    /// The contract at `address`.
    pub fn get(&self, address: &Address) -> (r: Option<&TargetedContract>)
        requires
            self.wf(),
        ensures
            r is Some == self@.dom().contains(*address),
            r matches Some(target) ==> target.wf() && target@ == self@[*address],
    {
        let p = self.inner.position(address);
        if p.found {
            proof {
                sorted_entry_is_mapped(self.inner.entries@, p.index as int);
            }
            assert(self.inner.entries@[p.index as int].1.wf());
            Some(&self.inner.entries[p.index].1)
        } else {
            None
        }
    }

    /// The addresses of the contracts, in order.
    pub fn addresses(&self) -> (r: Vec<Address>)
        requires
            self.wf(),
        ensures
            r@ == key_order::<Address>(self@.dom()),
    {
        let mut out: Vec<Address> = Vec::new();
        let ghost keys = entry_keys(self.inner.entries@);
        let mut i: usize = 0;
        while i < self.inner.entries.len()
            invariant
                i <= self.inner.entries@.len(),
                keys == entry_keys(self.inner.entries@),
                out@ == keys.take(i as int),
            decreases self.inner.entries@.len() - i,
        {
            out.push(self.inner.entries[i].0);
            assert(keys.take(i + 1) =~= keys.take(i as int).push(keys[i as int]));
            i += 1;
        }
        proof {
            assert(keys.take(i as int) =~= keys);
            assert(self@.dom() =~= self.inner@.dom());
            sorted_entries_follow_key_order(self.inner.entries@);
        }
        out
    }

    /// Puts `target` at `address`, in place of what was there.
    pub fn insert(&mut self, address: Address, target: TargetedContract)
        requires
            old(self).wf(),
            target.wf(),
        ensures
            final(self).wf(),
            final(self)@ == old(self)@.insert(address, target@),
    {
        let ghost before = self.inner;
        self.inner.insert(address, target);
        proof {
            assert(self@ =~= old(self)@.insert(address, target@));
            assert forall|i: int| 0 <= i < self.inner.entries@.len() implies (#[trigger] self.inner.entries@[i]).1.wf() by {
                sorted_entry_is_mapped(self.inner.entries@, i);
                let key = self.inner.entries@[i].0;
                if key != address {
                    assert(before@.dom().contains(key));
                    let j = choose|j: int|
                        0 <= j < before.entries@.len() && #[trigger] before.entries@[j].0.model() == key;
                    sorted_entry_is_mapped(before.entries@, j);
                    assert(before.entries@[j].1.wf());
                }
            }
        }
    }

    /// Adds the contracts of `other`, which take the place of those at the same addresses.
    pub fn extend(&mut self, other: TargetedContracts)
        requires
            old(self).wf(),
            other.wf(),
        ensures
            final(self).wf(),
            final(self)@ == old(self)@.union_prefer_right(other@),
    {
        let ghost entries = other.inner.entries@;
        let mut i: usize = 0;
        assert(self@ =~= old(self)@.union_prefer_right(target_models(map_of(entries.take(0)))));
        while i < other.inner.entries.len()
            invariant
                i <= entries.len(),
                entries == other.inner.entries@,
                other.wf(),
                self.wf(),
                self@ == old(self)@.union_prefer_right(target_models(map_of(entries.take(i as int)))),
            decreases entries.len() - i,
        {
            let entry = &other.inner.entries[i];
            let ghost before = self@;
            assert(entries[i as int].1.wf());
            let target = entry.1.clone();
            self.insert(entry.0, target);
            proof {
                sorted_prefix(entries, i as int);
                map_of_next(entries, i as int);
                assert(self@ =~= old(self)@.union_prefer_right(target_models(map_of(entries.take(i + 1)))));
            }
            i += 1;
        }
        assert(entries.take(i as int) =~= entries);
    }

    /// Takes the contract at `address` out.
    pub fn remove(&mut self, address: &Address) -> (r: Option<TargetedContract>)
        requires
            old(self).wf(),
        ensures
            final(self).wf(),
            final(self)@ == old(self)@.remove(*address),
            r is Some == old(self)@.dom().contains(*address),
            r matches Some(target) ==> target.wf() && target@ == old(self)@[*address],
    {
        let ghost before = self.inner;
        let r = self.inner.remove(address);
        proof {
            assert(self@ =~= old(self)@.remove(*address));
            assert forall|i: int| 0 <= i < self.inner.entries@.len() implies (#[trigger] self.inner.entries@[i]).1.wf() by {
                sorted_entry_is_mapped(self.inner.entries@, i);
                let key = self.inner.entries@[i].0;
                assert(before@.dom().contains(key));
                let j = choose|j: int|
                    0 <= j < before.entries@.len() && #[trigger] before.entries@[j].0.model() == key;
                sorted_entry_is_mapped(before.entries@, j);
                assert(before.entries@[j].1.wf());
            }
            if before@.dom().contains(*address) {
                let j = choose|j: int|
                    0 <= j < before.entries@.len() && #[trigger] before.entries@[j].0.model() == *address;
                sorted_entry_is_mapped(before.entries@, j);
                assert(before.entries@[j].1.wf());
            }
        }
        r
    }
}

impl Clone for TargetedContracts {
    fn clone(&self) -> (r: Self)
        ensures
            self.wf() ==> r.wf() && r@ == self@,
    {
        let mut entries: Vec<(Address, TargetedContract)> = Vec::new();
        let mut i: usize = 0;
        while i < self.inner.entries.len()
            invariant
                i <= self.inner.entries@.len(),
                entries@.len() == i,
                forall|j: int| 0 <= j < i ==> (#[trigger] entries@[j]).0.model() == self.inner.entries@[j].0.model(),
                forall|j: int|
                    0 <= j < i && self.inner.entries@[j].1.wf() ==> {
                        &&& (#[trigger] entries@[j]).1.wf()
                        &&& entries@[j].1@ == self.inner.entries@[j].1@
                    },
            decreases self.inner.entries@.len() - i,
        {
            entries.push((self.inner.entries[i].0, self.inner.entries[i].1.clone()));
            i += 1;
        }
        let r = TargetedContracts { inner: OrderedMap { entries } };
        proof {
            if self.wf() {
                let ours = self.inner.entries@;
                assert forall|j: int| 0 <= j < ours.len() implies #[trigger] ours[j].0.model() == entries@[j].0.model() by {
                    assert(entries@[j].0.model() == ours[j].0.model());
                }
                aligned_entries(ours, entries@);
                assert forall|j: int| 0 <= j < entries@.len() implies (#[trigger] entries@[j]).1.wf() by {
                    assert(ours[j].1.wf());
                }
                assert(r@ =~= self@) by {
                    assert forall|address: Address| self@.dom().contains(address) implies r@[address] == self@[address] by {
                        let j = choose|j: int| 0 <= j < ours.len() && #[trigger] ours[j].0.model() == address;
                        assert(ours[j].1.wf());
                        assert(entries@[j].1@ == ours[j].1@);
                    }
                }
            }
        }
        r
    }
}

/// The contracts that a run calls. Contracts that a run creates are called too where the targets
/// are updatable.
pub struct FuzzRunIdentifiedContracts {
    pub targets: TargetedContracts,
    pub is_updatable: bool,
}

/// `targets` without the contracts at `addresses`.
pub open spec fn without_targets(targets: Map<Address, TargetView>, addresses: Seq<Address>) -> Map<
    Address,
    TargetView,
> {
    targets.remove_keys(addresses.to_set())
}

impl FuzzRunIdentifiedContracts {
    /// The contracts of a campaign.
    pub fn new(targets: TargetedContracts, is_updatable: bool) -> (r: FuzzRunIdentifiedContracts)
        ensures
            r.targets == targets,
            r.is_updatable == is_updatable,
    {
        FuzzRunIdentifiedContracts { targets, is_updatable }
    }

    /// Takes out the contracts that a run created.
    pub fn clear_created_contracts(&mut self, created: &Vec<Address>)
        requires
            old(self).targets.wf(),
        ensures
            final(self).targets.wf(),
            final(self).is_updatable == old(self).is_updatable,
            final(self).targets@ == without_targets(old(self).targets@, created@),
    {
        let mut i: usize = 0;
        assert(self.targets@ =~= without_targets(old(self).targets@, created@.take(0)));
        while i < created.len()
            invariant
                i <= created@.len(),
                self.targets.wf(),
                self.is_updatable == old(self).is_updatable,
                self.targets@ == without_targets(old(self).targets@, created@.take(i as int)),
            decreases created@.len() - i,
        {
            let address = created[i];
            self.targets.remove(&address);
            proof {
                let front = created@.take(i as int);
                let next = created@.take(i + 1);
                assert(next =~= front.push(address));
                assert forall|a: Address| next.to_set().contains(a) == (front.to_set().contains(a) || a == address) by {
                    if front.to_set().contains(a) {
                        let k = front.index_of(a);
                        assert(next[k] == a);
                    }
                    assert(next[i as int] == address);
                    if next.to_set().contains(a) {
                        let k = next.index_of(a);
                        if k < i {
                            assert(front[k] == a);
                        }
                    }
                }
                assert(self.targets@ =~= without_targets(old(self).targets@, next));
            }
            i += 1;
        }
        assert(created@.take(i as int) =~= created@);
    }
}

impl Clone for FuzzRunIdentifiedContracts {
    fn clone(&self) -> (r: Self)
        ensures
            self.targets.wf() ==> r.targets.wf() && r.targets@ == self.targets@,
            r.is_updatable == self.is_updatable,
    {
        FuzzRunIdentifiedContracts { targets: self.targets.clone(), is_updatable: self.is_updatable }
    }
}

/// Selectors that are added join those that are there: adding excluded ones takes no excluded one away and
/// touches no chosen one, adding chosen ones takes no chosen one away and touches no excluded one, and nothing
/// else of the contract changes.
pub proof fn added_selectors_join_those_before(
    target: TargetView,
    selectors: Seq<Selector>,
    should_exclude: bool,
    selector: Selector,
)
    ensures
        ({
            let after = target.with_selectors(selectors, should_exclude);
            &&& after.identifier == target.identifier
            &&& after.abi == target.abi
            &&& after.storage_layout == target.storage_layout
            &&& should_exclude ==> {
                &&& after.targeted_functions == target.targeted_functions
                &&& after.excluded_functions == target.excluded_functions + selectors
                &&& after.excluded_functions.contains(selector) == (target.excluded_functions.contains(selector)
                    || selectors.contains(selector))
            }
            &&& !should_exclude ==> {
                &&& after.excluded_functions == target.excluded_functions
                &&& after.targeted_functions == target.targeted_functions + selectors
                &&& after.targeted_functions.contains(selector) == (target.targeted_functions.contains(selector)
                    || selectors.contains(selector))
            }
        }),
{
    let before = if should_exclude {
        target.excluded_functions
    } else {
        target.targeted_functions
    };
    let all = before + selectors;
    if before.contains(selector) {
        assert(all[before.index_of(selector)] == selector);
    }
    if selectors.contains(selector) {
        assert(all[before.len() + selectors.index_of(selector)] == selector);
    }
    if all.contains(selector) {
        let k = all.index_of(selector);
        if k < before.len() {
            assert(before[k] == selector);
        } else {
            assert(selectors[k - before.len()] == selector);
        }
    }
}

/// The contracts that a run created are no targets any more after it, and all others are as before.
pub proof fn only_created_contracts_are_taken_out(
    targets: Map<Address, TargetView>,
    created: Seq<Address>,
    address: Address,
)
    ensures
        created.contains(address) ==> !without_targets(targets, created).dom().contains(address),
        !created.contains(address) ==> without_targets(targets, created).dom().contains(address)
            == targets.dom().contains(address),
        !created.contains(address) && targets.dom().contains(address) ==> without_targets(targets, created)[address]
            == targets[address],
{
}

/// A contract that becomes a target has no chosen and no excluded functions, and its own identifier, interface
/// and layout.
pub proof fn new_targets_are_plain(identifier: Seq<char>, abi: AbiView, storage_layout: bool)
    ensures
        ({
            let target = TargetView::plain(identifier, abi, storage_layout);
            &&& target.identifier == identifier
            &&& target.abi == abi
            &&& target.storage_layout == storage_layout
            &&& target.targeted_functions.len() == 0
            &&& target.excluded_functions.len() == 0
        }),
{
}

/// Targets are known by all of their parts, each at its address.
pub proof fn targets_are_known_by_their_parts(targets: TargetedContracts, address: Address)
    ensures
        targets@.dom().contains(address) == targets.inner@.dom().contains(address),
        targets.inner@.dom().contains(address) ==> {
            let target = targets.inner@[address];
            &&& targets@[address].identifier == target.identifier@
            &&& targets@[address].abi == target.abi@
            &&& targets@[address].targeted_functions == target.targeted_functions@
            &&& targets@[address].excluded_functions == target.excluded_functions@
            &&& targets@[address].storage_layout == target.storage_layout
        },
{
}

/// Selectors are added, in their order, up to the first one without a function.
pub proof fn selectors_are_added_up_to_the_first_unknown(abi: AbiView, selectors: Seq<Selector>, k: int)
    ensures
        (forall|i: int| 0 <= i < selectors.len() ==> abi.has_selector(#[trigger] selectors[i])) ==> known_prefix(
            abi,
            selectors,
        ) == selectors.len(),
        0 <= k < selectors.len() && !abi.has_selector(selectors[k]) && (forall|i: int|
            0 <= i < k ==> abi.has_selector(#[trigger] selectors[i])) ==> known_prefix(abi, selectors) == k,
{
    known_prefix_is_the_longest(abi, selectors);
    let known = known_prefix(abi, selectors) as int;
    if known < selectors.len() {
        assert(!abi.has_selector(selectors[known]));
    }
}

} // verus!
