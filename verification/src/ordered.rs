//! A map kept as a vector of entries in strictly increasing key order.

use vstd::prelude::*;
use vstd::string::*;

use crate::fixed::FixedBytes;

verus! {

/// Whether `a` comes before `b` in lexicographic order.
pub open spec fn lex_before(a: Seq<int>, b: Seq<int>) -> bool
    decreases a.len(),
{
    if b.len() == 0 {
        false
    } else if a.len() == 0 {
        true
    } else {
        a[0] < b[0] || (a[0] == b[0] && lex_before(a.drop_first(), b.drop_first()))
    }
}

/// No sequence comes before itself.
pub proof fn lex_irreflexive(a: Seq<int>)
    ensures
        !lex_before(a, a),
    decreases a.len(),
{
    if a.len() > 0 {
        lex_irreflexive(a.drop_first());
    }
}

/// The lexicographic order is transitive.
pub proof fn lex_transitive(a: Seq<int>, b: Seq<int>, c: Seq<int>)
    requires
        lex_before(a, b),
        lex_before(b, c),
    ensures
        lex_before(a, c),
    decreases a.len(),
{
    if a.len() > 0 && b.len() > 0 && c.len() > 0 && a[0] == b[0] && b[0] == c[0] {
        lex_transitive(a.drop_first(), b.drop_first(), c.drop_first());
    }
}

/// Of two different sequences one comes before the other.
pub proof fn lex_total(a: Seq<int>, b: Seq<int>)
    ensures
        lex_before(a, b) || a == b || lex_before(b, a),
    decreases a.len(),
{
    if a.len() == 0 && b.len() == 0 {
        assert(a =~= b);
    } else if a.len() > 0 && b.len() > 0 && a[0] == b[0] {
        lex_total(a.drop_first(), b.drop_first());
        if a.drop_first() == b.drop_first() {
            assert(a =~= seq![a[0]] + a.drop_first());
            assert(b =~= seq![b[0]] + b.drop_first());
        }
    }
}

/// A first difference decides the order.
proof fn lex_at(a: Seq<int>, b: Seq<int>, k: int)
    requires
        0 <= k <= a.len(),
        k <= b.len(),
        forall|j: int| 0 <= j < k ==> a[j] == b[j],
    ensures
        k < a.len() && k < b.len() && a[k] < b[k] ==> lex_before(a, b),
        k < a.len() && k < b.len() && a[k] > b[k] ==> !lex_before(a, b),
        k == a.len() && k < b.len() ==> lex_before(a, b),
        k == b.len() ==> !lex_before(a, b),
    decreases k,
{
    if k > 0 {
        lex_at(a.drop_first(), b.drop_first(), k - 1);
    }
}

/// A key with a strict total order on the value that it stands for.
pub trait OrderedKey: Sized {
    type Model;

    /// The value that the key stands for.
    spec fn model(&self) -> Self::Model;

    /// Whether `a` comes before `b`.
    spec fn before(a: Self::Model, b: Self::Model) -> bool;

    proof fn before_is_irreflexive(a: Self::Model)
        ensures
            !Self::before(a, a),
    ;

    proof fn before_is_transitive(a: Self::Model, b: Self::Model, c: Self::Model)
        requires
            Self::before(a, b),
            Self::before(b, c),
        ensures
            Self::before(a, c),
    ;

    proof fn before_is_total(a: Self::Model, b: Self::Model)
        ensures
            Self::before(a, b) || a == b || Self::before(b, a),
    ;

    /// Whether this key comes before `other`.
    fn precedes(&self, other: &Self) -> (r: bool)
        ensures
            r == Self::before(self.model(), other.model()),
    ;
}

/// The code points of `s`.
pub open spec fn code_points(s: Seq<char>) -> Seq<int> {
    s.map_values(|c: char| c as int)
}

/// Text is ordered by its code points.
impl OrderedKey for String {
    type Model = Seq<char>;

    open spec fn model(&self) -> Seq<char> {
        self@
    }

    open spec fn before(a: Seq<char>, b: Seq<char>) -> bool {
        lex_before(code_points(a), code_points(b))
    }

    proof fn before_is_irreflexive(a: Seq<char>) {
        lex_irreflexive(code_points(a));
    }

    proof fn before_is_transitive(a: Seq<char>, b: Seq<char>, c: Seq<char>) {
        lex_transitive(code_points(a), code_points(b), code_points(c));
    }

    proof fn before_is_total(a: Seq<char>, b: Seq<char>) {
        lex_total(code_points(a), code_points(b));
        if code_points(a) == code_points(b) {
            assert(a.len() == b.len()) by {
                assert(code_points(a).len() == code_points(b).len());
            }
            assert forall|i: int| 0 <= i < a.len() implies a[i] == b[i] by {
                assert(code_points(a)[i] == code_points(b)[i]);
            }
            assert(a =~= b);
        }
    }

    fn precedes(&self, other: &Self) -> (r: bool) {
        let a = self.as_str();
        let b = other.as_str();
        let n = a.unicode_len();
        let m = b.unicode_len();
        let mut i: usize = 0;
        while i < n && i < m
            invariant
                i <= n,
                i <= m,
                n == a@.len(),
                m == b@.len(),
                a@ == self@,
                b@ == other@,
                forall|j: int| 0 <= j < i ==> code_points(a@)[j] == code_points(b@)[j],
            decreases n - i,
        {
            let x = a.get_char(i);
            let y = b.get_char(i);
            if x != y {
                proof {
                    lex_at(code_points(a@), code_points(b@), i as int);
                }
                return x < y;
            }
            i += 1;
        }
        proof {
            lex_at(code_points(a@), code_points(b@), i as int);
        }
        i < m
    }
}

/// The bytes of `s`, as integers.
pub open spec fn byte_values(s: Seq<u8>) -> Seq<int> {
    s.map_values(|b: u8| b as int)
}

/// Fixed-length byte strings are ordered byte by byte.
impl<const N: usize> OrderedKey for FixedBytes<N> {
    type Model = FixedBytes<N>;

    open spec fn model(&self) -> FixedBytes<N> {
        *self
    }

    open spec fn before(a: FixedBytes<N>, b: FixedBytes<N>) -> bool {
        lex_before(byte_values(a.bytes@), byte_values(b.bytes@))
    }

    proof fn before_is_irreflexive(a: FixedBytes<N>) {
        lex_irreflexive(byte_values(a.bytes@));
    }

    proof fn before_is_transitive(a: FixedBytes<N>, b: FixedBytes<N>, c: FixedBytes<N>) {
        lex_transitive(byte_values(a.bytes@), byte_values(b.bytes@), byte_values(c.bytes@));
    }

    proof fn before_is_total(a: FixedBytes<N>, b: FixedBytes<N>) {
        lex_total(byte_values(a.bytes@), byte_values(b.bytes@));
        if byte_values(a.bytes@) == byte_values(b.bytes@) {
            assert forall|i: int| 0 <= i < N implies a.bytes@[i] == b.bytes@[i] by {
                assert(byte_values(a.bytes@)[i] == byte_values(b.bytes@)[i]);
            }
            assert(a.bytes =~= b.bytes);
        }
    }

    fn precedes(&self, other: &Self) -> (r: bool) {
        let mut i: usize = 0;
        while i < N
            invariant
                i <= N,
                forall|j: int| 0 <= j < i ==> byte_values(self.bytes@)[j] == byte_values(other.bytes@)[j],
            decreases N - i,
        {
            let x: u8 = self.bytes[i];
            let y: u8 = other.bytes[i];
            if x != y {
                proof {
                    lex_at(byte_values(self.bytes@), byte_values(other.bytes@), i as int);
                }
                return x < y;
            }
            i += 1;
        }
        proof {
            lex_at(byte_values(self.bytes@), byte_values(other.bytes@), i as int);
        }
        false
    }
}

/// A map whose entries stand in strictly increasing key order.
pub struct OrderedMap<K, V> {
    pub entries: Vec<(K, V)>,
}

impl<K: OrderedKey, V> OrderedMap<K, V> {
    /// The keys are in strictly increasing order.
    pub open spec fn wf(self) -> bool {
        sorted_entries(self.entries@)
    }

    /// The map that the entries make up.
    pub open spec fn view(&self) -> Map<K::Model, V> {
        map_of(self.entries@)
    }
}

/// The keys of `entries` are in strictly increasing order.
pub open spec fn sorted_entries<K: OrderedKey, V>(entries: Seq<(K, V)>) -> bool {
    forall|i: int, j: int|
        0 <= i < j < entries.len() ==> K::before(#[trigger] entries[i].0.model(), #[trigger] entries[j].0.model())
}

/// Whether some entry has the key `key`.
pub open spec fn has_key<K: OrderedKey, V>(entries: Seq<(K, V)>, key: K::Model) -> bool {
    exists|i: int| 0 <= i < entries.len() && #[trigger] entries[i].0.model() == key
}

/// The map that `entries` make up.
pub open spec fn map_of<K: OrderedKey, V>(entries: Seq<(K, V)>) -> Map<K::Model, V> {
    Map::new(
        |key: K::Model| has_key(entries, key),
        |key: K::Model| entries[choose|i: int| 0 <= i < entries.len() && #[trigger] entries[i].0.model() == key].1,
    )
}

/// Sorted entries have distinct keys, so each entry is what the map holds under its key.
pub proof fn sorted_entry_is_mapped<K: OrderedKey, V>(entries: Seq<(K, V)>, i: int)
    requires
        sorted_entries(entries),
        0 <= i < entries.len(),
    ensures
        map_of(entries).dom().contains(entries[i].0.model()),
        map_of(entries)[entries[i].0.model()] == entries[i].1,
        forall|j: int| 0 <= j < entries.len() && #[trigger] entries[j].0.model() == entries[i].0.model() ==> j == i,
{
    let key = entries[i].0.model();
    K::before_is_irreflexive(key);
    let c = choose|j: int| 0 <= j < entries.len() && #[trigger] entries[j].0.model() == key;
    assert(entries[c].0.model() == key);
    assert(c == i) by {
        if c < i {
            assert(K::before(entries[c].0.model(), entries[i].0.model()));
        } else if i < c {
            assert(K::before(entries[i].0.model(), entries[c].0.model()));
        }
    }
    assert forall|j: int| 0 <= j < entries.len() && #[trigger] entries[j].0.model() == key implies j == i by {
        if j < i {
            assert(K::before(entries[j].0.model(), entries[i].0.model()));
        } else if i < j {
            assert(K::before(entries[i].0.model(), entries[j].0.model()));
        }
    }
}

/// The domain of a map of sorted entries has one key per entry.
pub proof fn sorted_entries_count<K: OrderedKey, V>(entries: Seq<(K, V)>)
    requires
        sorted_entries(entries),
    ensures
        map_of(entries).dom().finite(),
        map_of(entries).dom().len() == entries.len(),
    decreases entries.len(),
{
    if entries.len() == 0 {
        assert(map_of(entries).dom() =~= Set::empty());
    } else {
        let front = entries.drop_last();
        let key = entries.last().0.model();
        assert forall|i: int, j: int| 0 <= i < j < front.len() implies K::before(
            #[trigger] front[i].0.model(),
            #[trigger] front[j].0.model(),
        ) by {
            assert(front[i] == entries[i] && front[j] == entries[j]);
        }
        sorted_entries_count(front);
        assert(!map_of(front).dom().contains(key)) by {
            if has_key(front, key) {
                let i = choose|i: int| 0 <= i < front.len() && #[trigger] front[i].0.model() == key;
                assert(entries[i] == front[i]);
                sorted_entry_is_mapped(entries, entries.len() - 1);
            }
        }
        assert(map_of(entries).dom() =~= map_of(front).dom().insert(key)) by {
            assert forall|k: K::Model| map_of(entries).dom().contains(k) == map_of(front).dom().insert(key).contains(k) by {
                if has_key(entries, k) {
                    let i = choose|i: int| 0 <= i < entries.len() && #[trigger] entries[i].0.model() == k;
                    if i < front.len() {
                        assert(front[i] == entries[i]);
                    }
                }
                if has_key(front, k) {
                    let i = choose|i: int| 0 <= i < front.len() && #[trigger] front[i].0.model() == k;
                    assert(entries[i] == front[i]);
                }
                if k == key {
                    assert(entries[entries.len() - 1].0.model() == key);
                }
            }
        }
    }
}

/// The keys stand in strictly increasing order.
pub open spec fn increasing<K: OrderedKey>(keys: Seq<K::Model>) -> bool {
    forall|i: int, j: int| 0 <= i < j < keys.len() ==> K::before(#[trigger] keys[i], #[trigger] keys[j])
}

/// The keys of a set, in increasing order.
pub open spec fn key_order<K: OrderedKey>(keys: Set<K::Model>) -> Seq<K::Model> {
    choose|s: Seq<K::Model>| increasing::<K>(s) && #[trigger] s.to_set() == keys
}

/// The keys of `entries`.
pub open spec fn entry_keys<K: OrderedKey, V>(entries: Seq<(K, V)>) -> Seq<K::Model> {
    Seq::new(entries.len(), |i: int| entries[i].0.model())
}

/// There is one way to put the keys of a set in increasing order.
pub proof fn increasing_is_unique<K: OrderedKey>(a: Seq<K::Model>, b: Seq<K::Model>)
    requires
        increasing::<K>(a),
        increasing::<K>(b),
        a.to_set() == b.to_set(),
    ensures
        a == b,
    decreases a.len(),
{
    if a.len() == 0 {
        if b.len() > 0 {
            assert(b.to_set().contains(b[0]));
            assert(a.to_set().contains(b[0]));
        }
        assert(a =~= b);
    } else {
        assert(a.to_set().contains(a.last()));
        assert(b.to_set().contains(a.last()));
        assert(b.len() > 0);
        assert(b.to_set().contains(b.last()));
        assert(a.to_set().contains(b.last()));
        let i = a.index_of(b.last());
        let j = b.index_of(a.last());
        assert(a.last() == b.last()) by {
            if i < a.len() - 1 && j < b.len() - 1 {
                assert(K::before(a[i], a[a.len() - 1]));
                assert(K::before(b[j], b[b.len() - 1]));
                K::before_is_transitive(a.last(), b.last(), a.last());
                K::before_is_irreflexive(a.last());
            }
        }
        let fa = a.drop_last();
        let fb = b.drop_last();
        assert(fa.to_set() =~= fb.to_set()) by {
            K::before_is_irreflexive(a.last());
            assert forall|k: K::Model| fa.to_set().contains(k) implies fb.to_set().contains(k) by {
                let x = fa.index_of(k);
                assert(a[x] == k && K::before(a[x], a[a.len() - 1]));
                assert(a.to_set().contains(k));
                assert(b.to_set().contains(k));
                let y = b.index_of(k);
                assert(b[y] == k && y != b.len() - 1);
                assert(fb[y] == k);
            }
            assert forall|k: K::Model| fb.to_set().contains(k) implies fa.to_set().contains(k) by {
                let x = fb.index_of(k);
                assert(b[x] == k && K::before(b[x], b[b.len() - 1]));
                assert(b.to_set().contains(k));
                assert(a.to_set().contains(k));
                let y = a.index_of(k);
                assert(a[y] == k && y != a.len() - 1);
                assert(fa[y] == k);
            }
        }
        assert forall|x: int, y: int| 0 <= x < y < fa.len() implies K::before(#[trigger] fa[x], #[trigger] fa[y]) by {
            assert(K::before(a[x], a[y]));
        }
        assert forall|x: int, y: int| 0 <= x < y < fb.len() implies K::before(#[trigger] fb[x], #[trigger] fb[y]) by {
            assert(K::before(b[x], b[y]));
        }
        increasing_is_unique::<K>(fa, fb);
        assert(a =~= fa.push(a.last()));
        assert(b =~= fb.push(b.last()));
    }
}

/// Sorted entries stand in the order of the keys of their map.
pub proof fn sorted_entries_follow_key_order<K: OrderedKey, V>(entries: Seq<(K, V)>)
    requires
        sorted_entries(entries),
    ensures
        key_order::<K>(map_of(entries).dom()) == entry_keys(entries),
{
    let keys = entry_keys(entries);
    let dom = map_of(entries).dom();
    assert forall|i: int, j: int| 0 <= i < j < keys.len() implies K::before(#[trigger] keys[i], #[trigger] keys[j]) by {
        assert(K::before(entries[i].0.model(), entries[j].0.model()));
    }
    assert(keys.to_set() =~= dom) by {
        assert forall|k: K::Model| dom.contains(k) implies keys.to_set().contains(k) by {
            let i = choose|i: int| 0 <= i < entries.len() && #[trigger] entries[i].0.model() == k;
            assert(keys[i] == k);
        }
        assert forall|k: K::Model| keys.to_set().contains(k) implies dom.contains(k) by {
            let i = keys.index_of(k);
            assert(entries[i].0.model() == k);
        }
    }
    increasing_is_unique::<K>(key_order::<K>(dom), keys);
}

/// Entries under the same keys, place by place, are sorted alike and map the same keys.
pub proof fn aligned_entries<K: OrderedKey, V, W>(a: Seq<(K, V)>, b: Seq<(K, W)>)
    requires
        sorted_entries(a),
        a.len() == b.len(),
        forall|i: int| 0 <= i < a.len() ==> #[trigger] a[i].0.model() == b[i].0.model(),
    ensures
        sorted_entries(b),
        map_of(a).dom() == map_of(b).dom(),
        forall|i: int|
            0 <= i < a.len() ==> {
                &&& map_of(a)[#[trigger] a[i].0.model()] == a[i].1
                &&& map_of(b)[a[i].0.model()] == b[i].1
            },
{
    assert forall|i: int, j: int| 0 <= i < j < b.len() implies K::before(
        #[trigger] b[i].0.model(),
        #[trigger] b[j].0.model(),
    ) by {
        assert(K::before(a[i].0.model(), a[j].0.model()));
    }
    assert forall|i: int| 0 <= i < a.len() implies {
        &&& map_of(a)[#[trigger] a[i].0.model()] == a[i].1
        &&& map_of(b)[a[i].0.model()] == b[i].1
    } by {
        sorted_entry_is_mapped(a, i);
        sorted_entry_is_mapped(b, i);
    }
    assert(map_of(a).dom() =~= map_of(b).dom()) by {
        assert forall|k: K::Model| map_of(a).dom().contains(k) implies map_of(b).dom().contains(k) by {
            let i = choose|i: int| 0 <= i < a.len() && #[trigger] a[i].0.model() == k;
            assert(b[i].0.model() == k);
        }
        assert forall|k: K::Model| map_of(b).dom().contains(k) implies map_of(a).dom().contains(k) by {
            let i = choose|i: int| 0 <= i < b.len() && #[trigger] b[i].0.model() == k;
            assert(a[i].0.model() == k);
        }
    }
}

/// The first entries of sorted entries are sorted.
pub proof fn sorted_prefix<K: OrderedKey, V>(entries: Seq<(K, V)>, n: int)
    requires
        sorted_entries(entries),
        0 <= n <= entries.len(),
    ensures
        sorted_entries(entries.take(n)),
{
    let front = entries.take(n);
    assert forall|i: int, j: int| 0 <= i < j < front.len() implies K::before(
        #[trigger] front[i].0.model(),
        #[trigger] front[j].0.model(),
    ) by {
        assert(K::before(entries[i].0.model(), entries[j].0.model()));
    }
}

/// The next of sorted entries adds its key to the map of those before it.
pub proof fn map_of_next<K: OrderedKey, V>(entries: Seq<(K, V)>, n: int)
    requires
        sorted_entries(entries),
        0 <= n < entries.len(),
    ensures
        map_of(entries.take(n + 1)) == map_of(entries.take(n)).insert(entries[n].0.model(), entries[n].1),
        !map_of(entries.take(n)).dom().contains(entries[n].0.model()),
{
    let front = entries.take(n);
    let next = entries.take(n + 1);
    let key = entries[n].0.model();
    sorted_prefix(entries, n);
    sorted_prefix(entries, n + 1);
    assert(next[n] == entries[n]);
    sorted_entry_is_mapped(next, n);
    assert(!has_key(front, key)) by {
        if has_key(front, key) {
            let i = choose|i: int| 0 <= i < front.len() && #[trigger] front[i].0.model() == key;
            assert(next[i].0.model() == key);
        }
    }
    assert(map_of(next) =~= map_of(front).insert(key, entries[n].1)) by {
        assert forall|k: K::Model| map_of(next).dom().contains(k) == map_of(front).insert(key, entries[n].1).dom().contains(k) by {
            if has_key(next, k) {
                let i = choose|i: int| 0 <= i < next.len() && #[trigger] next[i].0.model() == k;
                if i < n {
                    assert(front[i].0.model() == k);
                }
            }
            if has_key(front, k) {
                let i = choose|i: int| 0 <= i < front.len() && #[trigger] front[i].0.model() == k;
                assert(next[i].0.model() == k);
            }
        }
        assert forall|k: K::Model| map_of(next).dom().contains(k) implies map_of(next)[k] == map_of(front).insert(key, entries[n].1)[k] by {
            let i = choose|i: int| 0 <= i < next.len() && #[trigger] next[i].0.model() == k;
            sorted_entry_is_mapped(next, i);
            if i < n {
                assert(front[i] == next[i]);
                sorted_entry_is_mapped(front, i);
            }
        }
    }
}

/// Where a key stands, or would stand, among sorted entries.
pub struct Position {
    pub index: usize,
    pub found: bool,
}

impl<K: OrderedKey, V> OrderedMap<K, V> {
    /// The empty map.
    pub fn new() -> (r: Self)
        ensures
            r.wf(),
            r.entries@.len() == 0,
            r@ == Map::<K::Model, V>::empty(),
    {
        let r = OrderedMap { entries: Vec::new() };
        assert(r@ =~= Map::<K::Model, V>::empty());
        r
    }

    /// Whether the keys are in strictly increasing order.
    pub fn is_sorted(&self) -> (r: bool)
        ensures
            r == self.wf(),
    {
        let mut i: usize = 1;
        while i < self.entries.len()
            invariant
                1 <= i,
                forall|a: int, b: int|
                    0 <= a < b < i && b < self.entries@.len() ==> K::before(
                        #[trigger] self.entries@[a].0.model(),
                        #[trigger] self.entries@[b].0.model(),
                    ),
            decreases self.entries@.len() - i,
        {
            if !self.entries[i - 1].0.precedes(&self.entries[i].0) {
                assert(!K::before(self.entries@[i - 1].0.model(), self.entries@[i as int].0.model()));
                return false;
            }
            proof {
                let last = i as int;
                assert forall|a: int, b: int| 0 <= a < b < i + 1 && b < self.entries@.len() implies K::before(
                    #[trigger] self.entries@[a].0.model(),
                    #[trigger] self.entries@[b].0.model(),
                ) by {
                    if b == last && a < last - 1 {
                        K::before_is_transitive(
                            self.entries@[a].0.model(),
                            self.entries@[last - 1].0.model(),
                            self.entries@[last].0.model(),
                        );
                    }
                }
            }
            i += 1;
        }
        true
    }

    /// The number of keys.
    pub fn len(&self) -> (r: usize)
        requires
            self.wf(),
        ensures
            r == self@.dom().len(),
            r == self.entries@.len(),
    {
        proof {
            sorted_entries_count(self.entries@);
        }
        self.entries.len()
    }

    /// Whether there is no key.
    pub fn is_empty(&self) -> (r: bool)
        requires
            self.wf(),
        ensures
            r == (self@.dom().len() == 0),
            r == (self.entries@.len() == 0),
    {
        self.len() == 0
    }

    /// Finds the place of `key`: the number of entries with a smaller key, and whether the
    /// entry there has it.
    pub fn position(&self, key: &K) -> (r: Position)
        requires
            self.wf(),
        ensures
            r.index <= self.entries@.len(),
            forall|i: int|
                0 <= i < r.index ==> K::before(#[trigger] self.entries@[i].0.model(), key.model()),
            forall|i: int|
                r.index + (if r.found { 1int } else { 0int }) <= i < self.entries@.len() ==> K::before(
                    key.model(),
                    #[trigger] self.entries@[i].0.model(),
                ),
            r.found ==> r.index < self.entries@.len() && self.entries@[r.index as int].0.model() == key.model(),
            r.found == self@.dom().contains(key.model()),
    {
        let n = self.entries.len();
        let mut i: usize = 0;
        while i < n && self.entries[i].0.precedes(key)
            invariant
                i <= n,
                n == self.entries@.len(),
                forall|j: int| 0 <= j < i ==> K::before(#[trigger] self.entries@[j].0.model(), key.model()),
            decreases n - i,
        {
            i += 1;
        }
        if i < n && !key.precedes(&self.entries[i].0) {
            proof {
                K::before_is_total(self.entries@[i as int].0.model(), key.model());
                assert(self.entries@[i as int].0.model() == key.model());
                assert(has_key(self.entries@, key.model()));
                assert forall|j: int| i + 1 <= j < n implies K::before(
                    key.model(),
                    #[trigger] self.entries@[j].0.model(),
                ) by {
                    assert(K::before(self.entries@[i as int].0.model(), self.entries@[j].0.model()));
                }
            }
            Position { index: i, found: true }
        } else {
            proof {
                assert forall|j: int| i <= j < n implies K::before(
                    key.model(),
                    #[trigger] self.entries@[j].0.model(),
                ) by {
                    if i < j {
                        K::before_is_transitive(
                            key.model(),
                            self.entries@[i as int].0.model(),
                            self.entries@[j].0.model(),
                        );
                    }
                }
                assert(!has_key(self.entries@, key.model())) by {
                    if has_key(self.entries@, key.model()) {
                        let j = choose|j: int|
                            0 <= j < self.entries@.len() && #[trigger] self.entries@[j].0.model() == key.model();
                        K::before_is_irreflexive(key.model());
                        if j < i {
                            assert(K::before(self.entries@[j].0.model(), key.model()));
                        } else {
                            assert(K::before(key.model(), self.entries@[j].0.model()));
                        }
                    }
                }
            }
            Position { index: i, found: false }
        }
    }

    /// Whether `key` has an entry.
    pub fn contains_key(&self, key: &K) -> (r: bool)
        requires
            self.wf(),
        ensures
            r == self@.dom().contains(key.model()),
    {
        self.position(key).found
    }

    /// What `key` maps to.
    pub fn get(&self, key: &K) -> (r: Option<&V>)
        requires
            self.wf(),
        ensures
            r is Some == self@.dom().contains(key.model()),
            r matches Some(v) ==> *v == self@[key.model()],
    {
        let p = self.position(key);
        if p.found {
            proof {
                sorted_entry_is_mapped(self.entries@, p.index as int);
            }
            Some(&self.entries[p.index].1)
        } else {
            None
        }
    }

    /// Maps `key` to `value`, in place of what it mapped to.
    pub fn insert(&mut self, key: K, value: V)
        requires
            old(self).wf(),
        ensures
            final(self).wf(),
            final(self)@ == old(self)@.insert(key.model(), value),
    {
        let p = self.position(&key);
        let ghost before = self.entries@;
        let ghost k = key.model();
        if p.found {
            self.entries.remove(p.index);
        }
        self.entries.insert(p.index, (key, value));
        proof {
            let after = self.entries@;
            let at = p.index as int;
            let skipped: int = if p.found { 1 } else { 0 };
            assert forall|i: int| 0 <= i < after.len() && i != at implies after[i] == (if i < at {
                before[i]
            } else {
                before[i - 1 + skipped]
            }) by {}
            assert forall|i: int, j: int| 0 <= i < j < after.len() implies K::before(
                #[trigger] after[i].0.model(),
                #[trigger] after[j].0.model(),
            ) by {
                let bi = if i < at { i } else { i - 1 + skipped };
                let bj = if j < at { j } else { j - 1 + skipped };
                if i != at && j != at {
                    assert(K::before(before[bi].0.model(), before[bj].0.model()));
                } else if i == at {
                    assert(K::before(k, before[bj].0.model()));
                } else {
                    assert(K::before(before[bi].0.model(), k));
                }
            }
            assert(sorted_entries(after));
            assert(map_of(after) =~= map_of(before).insert(k, value)) by {
                assert forall|q: K::Model| map_of(after).dom().contains(q) == map_of(before).insert(k, value).dom().contains(q) by {
                    if has_key(after, q) {
                        let i = choose|i: int| 0 <= i < after.len() && #[trigger] after[i].0.model() == q;
                        if i != at {
                            let bi = if i < at { i } else { i - 1 + skipped };
                            assert(before[bi].0.model() == q);
                        }
                    }
                    if has_key(before, q) {
                        let i = choose|i: int| 0 <= i < before.len() && #[trigger] before[i].0.model() == q;
                        let ai = if i < at { i } else { i + 1 - skipped };
                        assert(after[ai].0.model() == q || q == k);
                    }
                    assert(after[at].0.model() == k);
                }
                assert forall|q: K::Model| map_of(after).dom().contains(q) implies map_of(after)[q] == map_of(before).insert(k, value)[q] by {
                    let i = choose|i: int| 0 <= i < after.len() && #[trigger] after[i].0.model() == q;
                    sorted_entry_is_mapped(after, i);
                    if i != at {
                        let bi = if i < at { i } else { i - 1 + skipped };
                        sorted_entry_is_mapped(before, bi);
                        sorted_entry_is_mapped(after, at);
                        assert(q != k);
                    }
                }
            }
        }
    }

    /// Takes `key` out, with what it mapped to.
    pub fn remove(&mut self, key: &K) -> (r: Option<V>)
        requires
            old(self).wf(),
        ensures
            final(self).wf(),
            final(self)@ == old(self)@.remove(key.model()),
            r is Some == old(self)@.dom().contains(key.model()),
            r matches Some(v) ==> v == old(self)@[key.model()],
    {
        let p = self.position(key);
        let ghost before = self.entries@;
        let ghost k = key.model();
        if !p.found {
            assert(map_of(before) =~= map_of(before).remove(k));
            return None;
        }
        let entry = self.entries.remove(p.index);
        proof {
            let after = self.entries@;
            let at = p.index as int;
            sorted_entry_is_mapped(before, at);
            assert forall|i: int| 0 <= i < after.len() implies after[i] == (if i < at {
                before[i]
            } else {
                before[i + 1]
            }) by {}
            assert forall|i: int, j: int| 0 <= i < j < after.len() implies K::before(
                #[trigger] after[i].0.model(),
                #[trigger] after[j].0.model(),
            ) by {
                let bi = if i < at { i } else { i + 1 };
                let bj = if j < at { j } else { j + 1 };
                assert(K::before(before[bi].0.model(), before[bj].0.model()));
            }
            assert(map_of(after) =~= map_of(before).remove(k)) by {
                assert forall|q: K::Model| map_of(after).dom().contains(q) == map_of(before).remove(k).dom().contains(q) by {
                    if has_key(after, q) {
                        let i = choose|i: int| 0 <= i < after.len() && #[trigger] after[i].0.model() == q;
                        let bi = if i < at { i } else { i + 1 };
                        assert(before[bi].0.model() == q);
                        assert(q != k);
                    }
                    if has_key(before, q) && q != k {
                        let i = choose|i: int| 0 <= i < before.len() && #[trigger] before[i].0.model() == q;
                        let ai = if i < at { i } else { i - 1 };
                        assert(after[ai].0.model() == q);
                    }
                }
                assert forall|q: K::Model| map_of(after).dom().contains(q) implies map_of(after)[q] == map_of(before).remove(k)[q] by {
                    let i = choose|i: int| 0 <= i < after.len() && #[trigger] after[i].0.model() == q;
                    sorted_entry_is_mapped(after, i);
                    let bi = if i < at { i } else { i + 1 };
                    sorted_entry_is_mapped(before, bi);
                    assert(q != k);
                }
            }
        }
        Some(entry.1)
    }
}

/// A finite set that is not empty has a last key.
proof fn last_key<K: OrderedKey>(keys: Set<K::Model>) -> (last: K::Model)
    requires
        keys.finite(),
        keys.len() > 0,
    ensures
        keys.contains(last),
        forall|key: K::Model| #[trigger] keys.contains(key) ==> key == last || K::before(key, last),
    decreases keys.len(),
{
    let some = keys.choose();
    let rest = keys.remove(some);
    if rest.len() == 0 {
        assert forall|key: K::Model| #[trigger] keys.contains(key) implies key == some by {
            if key != some {
                assert(rest.contains(key));
            }
        }
        some
    } else {
        let other = last_key::<K>(rest);
        K::before_is_total(some, other);
        let last = if K::before(other, some) {
            some
        } else {
            other
        };
        assert forall|key: K::Model| #[trigger] keys.contains(key) implies key == last || K::before(key, last) by {
            if key != some {
                assert(rest.contains(key));
                if last == some && key != other {
                    K::before_is_transitive(key, other, some);
                }
            }
        }
        last
    }
}

/// The keys of a finite set can be put in increasing order.
proof fn ordered_keys<K: OrderedKey>(keys: Set<K::Model>) -> (s: Seq<K::Model>)
    requires
        keys.finite(),
    ensures
        increasing::<K>(s),
        s.to_set() == keys,
    decreases keys.len(),
{
    if keys.len() == 0 {
        let s: Seq<K::Model> = Seq::empty();
        assert(s.to_set() =~= keys);
        s
    } else {
        let last = last_key::<K>(keys);
        let rest = keys.remove(last);
        let front = ordered_keys::<K>(rest);
        let s = front.push(last);
        assert forall|i: int, j: int| 0 <= i < j < s.len() implies K::before(#[trigger] s[i], #[trigger] s[j]) by {
            if j < front.len() {
                assert(K::before(front[i], front[j]));
            } else {
                assert(front.to_set().contains(front[i]));
                assert(keys.contains(front[i]));
            }
        }
        assert(s.to_set() =~= keys) by {
            assert forall|key: K::Model| keys.contains(key) implies s.to_set().contains(key) by {
                if key == last {
                    assert(s[front.len() as int] == key);
                } else {
                    assert(front.to_set().contains(key));
                    let i = front.index_of(key);
                    assert(s[i] == key);
                }
            }
            assert forall|key: K::Model| s.to_set().contains(key) implies keys.contains(key) by {
                let i = s.index_of(key);
                if i < front.len() {
                    assert(front.to_set().contains(front[i]));
                }
            }
        }
        s
    }
}

/// The ordered keys of a finite set are its keys, each of them once, and every one comes before those that
/// stand behind it.
pub proof fn key_order_holds_every_key_once<K: OrderedKey>(keys: Set<K::Model>)
    requires
        keys.finite(),
    ensures
        forall|key: K::Model| #[trigger] key_order::<K>(keys).contains(key) == keys.contains(key),
        forall|i: int, j: int|
            0 <= i < j < key_order::<K>(keys).len() ==> K::before(
                #[trigger] key_order::<K>(keys)[i],
                #[trigger] key_order::<K>(keys)[j],
            ),
        key_order::<K>(keys).no_duplicates(),
{
    let witness = ordered_keys::<K>(keys);
    let s = key_order::<K>(keys);
    assert(increasing::<K>(s) && s.to_set() == keys);
    assert forall|key: K::Model| #[trigger] s.contains(key) == keys.contains(key) by {
        assert(s.to_set().contains(key) == s.contains(key));
    }
    assert forall|i: int, j: int| 0 <= i < s.len() && 0 <= j < s.len() && i != j implies s[i] != s[j] by {
        K::before_is_irreflexive(s[i]);
        if i < j {
            assert(K::before(s[i], s[j]));
        } else {
            assert(K::before(s[j], s[i]));
        }
    }
}

/// An entry of a map is found under its key, and nothing is found under a key that no entry has.
pub proof fn maps_hold_their_entries<K: OrderedKey, V>(map: OrderedMap<K, V>, i: int, key: K::Model)
    requires
        map.wf(),
    ensures
        0 <= i < map.entries@.len() ==> map@.dom().contains(map.entries@[i].0.model()) && map@[map.entries@[i].0.model()]
            == map.entries@[i].1,
        (forall|j: int| 0 <= j < map.entries@.len() ==> (#[trigger] map.entries@[j]).0.model() != key)
            ==> !map@.dom().contains(key),
        map@.dom().finite(),
        map@.dom().len() == map.entries@.len(),
{
    sorted_entries_count(map.entries@);
    if 0 <= i < map.entries@.len() {
        sorted_entry_is_mapped(map.entries@, i);
    }
}

/// Text comes before text that it is the beginning of, and otherwise by the first character that differs.
pub proof fn text_is_ordered_by_its_first_difference(a: Seq<char>, b: Seq<char>, k: int)
    requires
        0 <= k <= a.len(),
        k <= b.len(),
        forall|j: int| 0 <= j < k ==> a[j] == b[j],
    ensures
        k == a.len() && k < b.len() ==> String::before(a, b),
        k < a.len() && k < b.len() && (a[k] as int) < (b[k] as int) ==> String::before(a, b) && !String::before(b, a),
{
    let x = code_points(a);
    let y = code_points(b);
    assert forall|j: int| 0 <= j < k implies x[j] == y[j] by {
        assert(a[j] == b[j]);
    }
    lex_at(x, y, k);
    lex_at(y, x, k);
}

/// Byte strings are ordered by the first byte that differs.
pub proof fn bytes_are_ordered_by_their_first_difference<const N: usize>(a: FixedBytes<N>, b: FixedBytes<N>, k: int)
    requires
        0 <= k < N,
        forall|j: int| 0 <= j < k ==> a.bytes@[j] == b.bytes@[j],
        a.bytes@[k] < b.bytes@[k],
    ensures
        FixedBytes::<N>::before(a, b),
        !FixedBytes::<N>::before(b, a),
{
    let x = byte_values(a.bytes@);
    let y = byte_values(b.bytes@);
    assert forall|j: int| 0 <= j < k implies x[j] == y[j] by {
        assert(a.bytes@[j] == b.bytes@[j]);
    }
    lex_at(x, y, k);
    lex_at(y, x, k);
}

} // verus!
