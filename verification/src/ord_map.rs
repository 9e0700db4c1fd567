//! Maps and sets whose keys stay in ascending order.

use vstd::prelude::*;
use crate::text::{lemma_str_lt_asym, lemma_str_lt_total, lemma_str_lt_trans, str_less, str_lt};

verus! {

/// A key with a strict total order on what it stands for.
pub trait MapKey: DeepView + Sized {
    spec fn before(a: Self::V, b: Self::V) -> bool;

    proof fn before_trans(a: Self::V, b: Self::V, c: Self::V)
        requires
            Self::before(a, b),
            Self::before(b, c),
        ensures
            Self::before(a, c),
    ;

    proof fn before_total(a: Self::V, b: Self::V)
        requires
            a != b,
        ensures
            Self::before(a, b) || Self::before(b, a),
    ;

    proof fn before_asym(a: Self::V, b: Self::V)
        requires
            Self::before(a, b),
        ensures
            !Self::before(b, a),
            a != b,
    ;

    fn less(&self, other: &Self) -> (r: bool)
        ensures
            r == Self::before(self.deep_view(), other.deep_view()),
    ;

    fn same(&self, other: &Self) -> (r: bool)
        ensures
            r == (self.deep_view() == other.deep_view()),
    ;
}

impl MapKey for String {
    open spec fn before(a: Seq<char>, b: Seq<char>) -> bool {
        str_lt(a, b)
    }

    proof fn before_trans(a: Seq<char>, b: Seq<char>, c: Seq<char>) {
        lemma_str_lt_trans(a, b, c);
    }

    proof fn before_total(a: Seq<char>, b: Seq<char>) {
        lemma_str_lt_total(a, b);
    }

    proof fn before_asym(a: Seq<char>, b: Seq<char>) {
        lemma_str_lt_asym(a, b);
    }

    fn less(&self, other: &Self) -> (r: bool) {
        str_less(self.as_str(), other.as_str())
    }

    fn same(&self, other: &Self) -> (r: bool) {
        *self == *other
    }
}

impl MapKey for usize {
    open spec fn before(a: usize, b: usize) -> bool {
        a < b
    }

    proof fn before_trans(a: usize, b: usize, c: usize) {
    }

    proof fn before_total(a: usize, b: usize) {
    }

    proof fn before_asym(a: usize, b: usize) {
    }

    fn less(&self, other: &Self) -> (r: bool) {
        *self < *other
    }

    fn same(&self, other: &Self) -> (r: bool) {
        *self == *other
    }
}

/// A map that holds its entries in ascending order of their keys.
pub struct OrdMap<K: MapKey, V: DeepView> {
    entries: Vec<(K, V)>,
}

/// A map from names.
pub type StrMap<V> = OrdMap<String, V>;

/// A map from port numbers.
pub type IdxMap<V> = OrdMap<usize, V>;

/// Every key comes before the ones behind it.
pub open spec fn ascending<K: MapKey>(keys: Seq<K::V>) -> bool {
    forall|i: int, j: int| 0 <= i < j < keys.len() ==> #[trigger] K::before(keys[i], keys[j])
}

/// The map from `keys[i]` to `vals[i]`.
pub open spec fn zip_map<A, B>(keys: Seq<A>, vals: Seq<B>) -> Map<A, B> {
    Map::new(|k: A| keys.contains(k), |k: A| vals[keys.index_of(k)])
}

impl<K: MapKey, V: DeepView> OrdMap<K, V> {
    /// The keys, in ascending order.
    pub closed spec fn keys(&self) -> Seq<K::V> {
        Seq::new(self.entries@.len(), |i: int| self.entries@[i].0.deep_view())
    }

    /// The values, in the order of their keys.
    pub closed spec fn vals(&self) -> Seq<V::V> {
        Seq::new(self.entries@.len(), |i: int| self.entries@[i].1.deep_view())
    }

    #[verifier::type_invariant]
    pub closed spec fn sorted(&self) -> bool {
        ascending::<K>(self.keys())
    }
}

impl<K: MapKey, V: DeepView> View for OrdMap<K, V> {
    type V = Map<K::V, V::V>;

    open spec fn view(&self) -> Map<K::V, V::V> {
        zip_map(self.keys(), self.vals())
    }
}

impl<K: MapKey, V: DeepView> DeepView for OrdMap<K, V> {
    type V = Map<K::V, V::V>;

    open spec fn deep_view(&self) -> Map<K::V, V::V> {
        self@
    }
}

proof fn lemma_ascending_index<K: MapKey>(keys: Seq<K::V>, i: int)
    requires
        ascending::<K>(keys),
        0 <= i < keys.len(),
    ensures
        keys.contains(keys[i]),
        keys.index_of(keys[i]) == i,
{
    let j = keys.index_of(keys[i]);
    assert(0 <= j < keys.len() && keys[j] == keys[i]);
    if i < j {
        K::before_asym(keys[i], keys[j]);
    } else if j < i {
        K::before_asym(keys[j], keys[i]);
    }
}

proof fn lemma_ascending_insert<K: MapKey, B>(keys: Seq<K::V>, vals: Seq<B>, i: int, k: K::V, v: B)
    requires
        ascending::<K>(keys),
        keys.len() == vals.len(),
        0 <= i <= keys.len(),
        forall|j: int| 0 <= j < i ==> #[trigger] K::before(keys[j], k),
        i < keys.len() ==> K::before(k, keys[i]),
    ensures
        ascending::<K>(keys.insert(i, k)),
        zip_map(keys.insert(i, k), vals.insert(i, v)) == zip_map(keys, vals).insert(k, v),
        !keys.contains(k),
{
    let ks = keys.insert(i, k);
    let vs = vals.insert(i, v);
    assert forall|a: int, b: int| 0 <= a < b < ks.len() implies #[trigger] K::before(ks[a], ks[b]) by {
        if a < i && b == i {
            assert(K::before(keys[a], k));
        } else if a == i {
            assert(ks[b] == keys[b - 1]);
            if b - 1 > i {
                assert(K::before(keys[i], keys[b - 1]));
                K::before_trans(k, keys[i], keys[b - 1]);
            }
        } else if b < i {
            assert(K::before(keys[a], keys[b]));
        } else if a < i {
            assert(K::before(keys[a], keys[b - 1]));
        } else {
            assert(K::before(keys[a - 1], keys[b - 1]));
        }
    }
    if keys.contains(k) {
        let j = keys.index_of(k);
        lemma_ascending_index::<K>(ks, i);
        lemma_ascending_index::<K>(ks, if j < i { j } else { j + 1 });
    }
    let m = zip_map(ks, vs);
    let n = zip_map(keys, vals).insert(k, v);
    assert forall|x: K::V| m.contains_key(x) == n.contains_key(x) by {
        if keys.contains(x) {
            let j = keys.index_of(x);
            assert(ks[if j < i { j } else { j + 1 }] == x);
        }
        assert(ks[i] == k);
        if ks.contains(x) && x != k {
            let j = ks.index_of(x);
            assert(keys[if j < i { j } else { j - 1 }] == x);
        }
    }
    assert forall|x: K::V| m.contains_key(x) implies #[trigger] m[x] == n[x] by {
        if x == k {
            lemma_ascending_index::<K>(ks, i);
        } else {
            let j = ks.index_of(x);
            let o = if j < i { j } else { j - 1 };
            assert(keys[o] == x);
            lemma_ascending_index::<K>(keys, o);
        }
    }
    assert(m =~= n);
}

proof fn lemma_ascending_remove<K: MapKey, B>(keys: Seq<K::V>, vals: Seq<B>, i: int)
    requires
        ascending::<K>(keys),
        keys.len() == vals.len(),
        0 <= i < keys.len(),
    ensures
        ascending::<K>(keys.remove(i)),
        zip_map(keys.remove(i), vals.remove(i)) == zip_map(keys, vals).remove(keys[i]),
{
    let ks = keys.remove(i);
    let vs = vals.remove(i);
    assert forall|a: int, b: int| 0 <= a < b < ks.len() implies #[trigger] K::before(ks[a], ks[b]) by {
        assert(K::before(keys[if a < i { a } else { a + 1 }], keys[if b < i { b } else { b + 1 }]));
    }
    let m = zip_map(ks, vs);
    let n = zip_map(keys, vals).remove(keys[i]);
    assert forall|x: K::V| m.contains_key(x) == n.contains_key(x) by {
        if ks.contains(x) {
            let j = ks.index_of(x);
            let o = if j < i { j } else { j + 1 };
            assert(keys[o] == x);
            lemma_ascending_index::<K>(keys, o);
            lemma_ascending_index::<K>(keys, i);
        }
        if keys.contains(x) && x != keys[i] {
            let j = keys.index_of(x);
            assert(ks[if j < i { j } else { j - 1 }] == x);
        }
    }
    assert forall|x: K::V| m.contains_key(x) implies #[trigger] m[x] == n[x] by {
        let j = ks.index_of(x);
        let o = if j < i { j } else { j + 1 };
        assert(keys[o] == x);
        lemma_ascending_index::<K>(keys, o);
    }
    assert(m =~= n);
}

/// The members of `dom` in ascending order.
pub open spec fn in_order<K: MapKey>(dom: Set<K::V>) -> Seq<K::V> {
    choose|s: Seq<K::V>|
        ascending::<K>(s) && forall|k: K::V| #[trigger] dom.contains(k) <==> s.contains(k)
}

proof fn lemma_ascending_last<K: MapKey>(s: Seq<K::V>, k: K::V)
    requires
        ascending::<K>(s),
        s.len() > 0,
    ensures
        s.drop_last().contains(k) <==> s.contains(k) && k != s.last(),
        s.contains(k) && k != s.last() ==> K::before(k, s.last()),
        ascending::<K>(s.drop_last()),
{
    let d = s.drop_last();
    if s.contains(k) && k != s.last() {
        let i = s.index_of(k);
        assert(d[i] == k);
        assert(K::before(s[i], s[s.len() - 1]));
    }
    if d.contains(k) {
        let i = d.index_of(k);
        assert(s[i] == k);
        K::before_asym(s[i], s[s.len() - 1]);
    }
    assert forall|i: int, j: int| 0 <= i < j < d.len() implies #[trigger] K::before(d[i], d[j]) by {
        assert(K::before(s[i], s[j]));
    }
}

proof fn lemma_ascending_unique<K: MapKey>(a: Seq<K::V>, b: Seq<K::V>)
    requires
        ascending::<K>(a),
        ascending::<K>(b),
        forall|k: K::V| a.contains(k) <==> b.contains(k),
    ensures
        a == b,
    decreases a.len(),
{
    if a.len() == 0 {
        if b.len() > 0 {
            assert(b.contains(b[0]));
        }
        assert(a =~= b);
    } else {
        let x = a.last();
        assert(a.contains(x));
        assert(b.len() > 0);
        let y = b.last();
        assert(b.contains(y));
        if x != y {
            lemma_ascending_last::<K>(b, x);
            lemma_ascending_last::<K>(a, y);
            K::before_asym(x, y);
        }
        assert forall|k: K::V| a.drop_last().contains(k) <==> b.drop_last().contains(k) by {
            lemma_ascending_last::<K>(a, k);
            lemma_ascending_last::<K>(b, k);
        }
        lemma_ascending_last::<K>(a, x);
        lemma_ascending_last::<K>(b, x);
        lemma_ascending_unique::<K>(a.drop_last(), b.drop_last());
        assert(a =~= a.drop_last().push(x));
        assert(b =~= b.drop_last().push(x));
    }
}

proof fn lemma_place<K: MapKey>(s: Seq<K::V>, k: K::V) -> (i: int)
    requires
        ascending::<K>(s),
        !s.contains(k),
    ensures
        0 <= i <= s.len(),
        forall|j: int| 0 <= j < i ==> #[trigger] K::before(s[j], k),
        i < s.len() ==> K::before(k, s[i]),
    decreases s.len(),
{
    if s.len() == 0 {
        0
    } else {
        let last = s.last();
        assert(s.contains(last));
        K::before_total(last, k);
        if K::before(last, k) {
            assert forall|j: int| 0 <= j < s.len() implies #[trigger] K::before(s[j], k) by {
                if j < s.len() - 1 {
                    assert(K::before(s[j], s[s.len() - 1]));
                    K::before_trans(s[j], last, k);
                }
            }
            s.len() as int
        } else {
            lemma_ascending_last::<K>(s, k);
            let d = s.drop_last();
            let i = lemma_place::<K>(d, k);
            assert forall|j: int| 0 <= j < i implies #[trigger] K::before(s[j], k) by {
                assert(K::before(d[j], k));
            }
            i
        }
    }
}

proof fn lemma_enumerated<K: MapKey>(dom: Set<K::V>) -> (s: Seq<K::V>)
    requires
        dom.finite(),
    ensures
        ascending::<K>(s),
        forall|k: K::V| #[trigger] dom.contains(k) <==> s.contains(k),
    decreases dom.len(),
{
    if dom.len() == 0 {
        assert(dom =~= Set::<K::V>::empty());
        Seq::empty()
    } else {
        let k = dom.choose();
        let rest = dom.remove(k);
        let s = lemma_enumerated::<K>(rest);
        assert(!rest.contains(k));
        let i = lemma_place::<K>(s, k);
        lemma_ascending_insert::<K, K::V>(s, s, i, k, k);
        let r = s.insert(i, k);
        assert forall|x: K::V| #[trigger] dom.contains(x) <==> r.contains(x) by {
            assert(rest.contains(x) <==> s.contains(x));
            if s.contains(x) {
                let j = s.index_of(x);
                assert(r[if j < i { j } else { j + 1 }] == x);
            }
            assert(r[i] == k);
            if r.contains(x) && x != k {
                let j = r.index_of(x);
                assert(s[if j < i { j } else { j - 1 }] == x);
            }
        }
        r
    }
}

/// The members of a finite set in ascending order are its members, and there is no
/// other such sequence.
pub proof fn lemma_in_order<K: MapKey>(dom: Set<K::V>)
    requires
        dom.finite(),
    ensures
        ascending::<K>(in_order::<K>(dom)),
        forall|k: K::V| #[trigger] dom.contains(k) <==> in_order::<K>(dom).contains(k),
        forall|s: Seq<K::V>| #[trigger]
            ascending::<K>(s) && (forall|k: K::V| #[trigger] dom.contains(k) <==> s.contains(k)) ==> s
                == in_order::<K>(dom),
{
    let s = lemma_enumerated::<K>(dom);
    let o = in_order::<K>(dom);
    assert forall|s: Seq<K::V>| #[trigger]
        ascending::<K>(s) && (forall|k: K::V| #[trigger] dom.contains(k) <==> s.contains(k)) implies s == o by {
        assert forall|k: K::V| s.contains(k) <==> o.contains(k) by {
            assert(dom.contains(k) <==> o.contains(k));
            assert(dom.contains(k) <==> s.contains(k));
        }
        lemma_ascending_unique::<K>(s, o);
    }
}

impl<K: MapKey, V: DeepView> OrdMap<K, V> {
    pub fn new() -> (r: Self)
        ensures
            r@ == Map::<K::V, V::V>::empty(),
            r.keys() == Seq::<K::V>::empty(),
    {
        let r = OrdMap { entries: Vec::new() };
        assert(r.keys() =~= Seq::<K::V>::empty());
        assert(r@ =~= Map::<K::V, V::V>::empty());
        r
    }

    /// Recalls what holds of the keys of every map: they ascend, and each has
    /// its value.
    pub fn recall_order(&self)
        ensures
            ascending::<K>(self.keys()),
            self.keys().len() == self.vals().len(),
            forall|i: int|
                0 <= i < self.keys().len() ==> {
                    &&& #[trigger] self@.contains_key(self.keys()[i])
                    &&& self@[self.keys()[i]] == self.vals()[i]
                },
            forall|k: K::V|
                self@.contains_key(k) ==> exists|i: int|
                    0 <= i < self.keys().len() && #[trigger] self.keys()[i] == k,
            self.keys() == in_order::<K>(self@.dom()),
    {
        proof {
            use_type_invariant(self);
            assert forall|k: K::V| #[trigger] self@.dom().contains(k) <==> self.keys().contains(k) by {}
            let o = in_order::<K>(self@.dom());
            assert forall|k: K::V| o.contains(k) <==> self.keys().contains(k) by {
                assert(self@.dom().contains(k) <==> o.contains(k));
            }
            lemma_ascending_unique::<K>(self.keys(), o);
            assert forall|i: int| 0 <= i < self.keys().len() implies {
                &&& #[trigger] self@.contains_key(self.keys()[i])
                &&& self@[self.keys()[i]] == self.vals()[i]
            } by {
                lemma_ascending_index::<K>(self.keys(), i);
            }
        }
    }

    pub fn len(&self) -> (r: usize)
        ensures
            r == self.keys().len(),
    {
        self.entries.len()
    }

    pub fn is_empty(&self) -> (r: bool)
        ensures
            r == (self.keys().len() == 0),
            r == (self@.dom() == Set::<K::V>::empty()),
    {
        proof {
            if self.keys().len() == 0 {
                assert(self@.dom() =~= Set::<K::V>::empty());
            } else {
                assert(self.keys().contains(self.keys()[0]));
                assert(self@.dom().contains(self.keys()[0]));
            }
        }
        self.entries.len() == 0
    }

    /// The position of `k`, or of the first key behind it.
    fn position(&self, k: &K) -> (r: usize)
        ensures
            r <= self.keys().len(),
            forall|j: int| 0 <= j < r ==> #[trigger] K::before(self.keys()[j], k.deep_view()),
            r < self.keys().len() ==> !K::before(self.keys()[r as int], k.deep_view()),
            r < self.keys().len() && self.keys()[r as int] != k.deep_view() ==> K::before(
                k.deep_view(),
                self.keys()[r as int],
            ),
            self@.contains_key(k.deep_view()) == (r < self.keys().len() && self.keys()[r as int]
                == k.deep_view()),
    {
        proof {
            use_type_invariant(self);
        }
        let mut i: usize = 0;
        while i < self.entries.len() && self.entries[i].0.less(k)
            invariant
                i <= self.entries@.len(),
                self.keys().len() == self.entries@.len(),
                forall|j: int| 0 <= j < i ==> #[trigger] K::before(self.keys()[j], k.deep_view()),
                i < self.keys().len() ==> self.keys()[i as int] == self.entries@[i as int].0.deep_view(),
            decreases self.entries.len() - i,
        {
            i = i + 1;
        }
        proof {
            let kv = k.deep_view();
            if i < self.keys().len() && self.keys()[i as int] != kv {
                K::before_total(self.keys()[i as int], kv);
            }
            if self.keys().contains(kv) {
                let j = self.keys().index_of(kv);
                if j < i {
                    K::before_asym(self.keys()[j], kv);
                } else if j > i {
                    assert(K::before(self.keys()[i as int], self.keys()[j]));
                }
            }
        }
        i
    }

    pub fn get(&self, k: &K) -> (r: Option<&V>)
        ensures
            match r {
                Some(v) => self@.contains_key(k.deep_view()) && v.deep_view() == self@[k.deep_view()],
                None => !self@.contains_key(k.deep_view()),
            },
    {
        proof {
            use_type_invariant(self);
        }
        let i: usize = self.position(k);
        if i < self.entries.len() && self.entries[i].0.same(k) {
            proof {
                lemma_ascending_index::<K>(self.keys(), i as int);
            }
            Some(&self.entries[i].1)
        } else {
            None
        }
    }

    pub fn contains_key(&self, k: &K) -> (r: bool)
        ensures
            r == self@.contains_key(k.deep_view()),
    {
        let i: usize = self.position(k);
        i < self.entries.len() && self.entries[i].0.same(k)
    }

    /// The key at position `i` in ascending order.
    pub fn key_at(&self, i: usize) -> (r: &K)
        requires
            i < self.keys().len(),
        ensures
            r.deep_view() == self.keys()[i as int],
            self@.contains_key(self.keys()[i as int]),
    {
        proof {
            assert(self.keys().contains(self.keys()[i as int]));
        }
        &self.entries[i].0
    }

    /// The value at position `i` in ascending order of the keys.
    pub fn value_at(&self, i: usize) -> (r: &V)
        requires
            i < self.keys().len(),
        ensures
            r.deep_view() == self@[self.keys()[i as int]],
            r.deep_view() == self.vals()[i as int],
    {
        proof {
            use_type_invariant(self);
            lemma_ascending_index::<K>(self.keys(), i as int);
        }
        &self.entries[i].1
    }

    /// Maps `k` to `v`, in place of what it was mapped to.
    pub fn insert(&mut self, k: K, v: V)
        ensures
            final(self)@ == old(self)@.insert(k.deep_view(), v.deep_view()),
    {
        self.remove(&k);
        let i: usize = self.position(&k);
        proof {
            use_type_invariant(&*self);
            lemma_ascending_insert::<K, V::V>(
                self.keys(),
                self.vals(),
                i as int,
                k.deep_view(),
                v.deep_view(),
            );
        }
        let ghost ks = self.keys().insert(i as int, k.deep_view());
        let ghost vs = self.vals().insert(i as int, v.deep_view());
        let mut entries: Vec<(K, V)> = Vec::new();
        std::mem::swap(&mut entries, &mut self.entries);
        entries.insert(i, (k, v));
        proof {
            let m = OrdMap::<K, V> { entries };
            assert(m.keys() =~= ks);
            assert(m.vals() =~= vs);
        }
        *self = OrdMap { entries };
        assert(self@ =~= old(self)@.insert(k.deep_view(), v.deep_view()));
    }

    /// Drops `k` and hands out what it was mapped to.
    pub fn take(&mut self, k: &K) -> (r: Option<V>)
        ensures
            final(self)@ == old(self)@.remove(k.deep_view()),
            match r {
                Some(v) => old(self)@.contains_key(k.deep_view()) && v.deep_view() == old(
                    self,
                )@[k.deep_view()],
                None => !old(self)@.contains_key(k.deep_view()),
            },
    {
        let i: usize = self.position(k);
        if i < self.entries.len() && self.entries[i].0.same(k) {
            proof {
                use_type_invariant(&*self);
                lemma_ascending_index::<K>(self.keys(), i as int);
                lemma_ascending_remove::<K, V::V>(self.keys(), self.vals(), i as int);
            }
            let ghost ks = self.keys().remove(i as int);
            let ghost vs = self.vals().remove(i as int);
            let mut entries: Vec<(K, V)> = Vec::new();
            std::mem::swap(&mut entries, &mut self.entries);
            let e = entries.remove(i);
            proof {
                let m = OrdMap::<K, V> { entries };
                assert(m.keys() =~= ks);
                assert(m.vals() =~= vs);
            }
            *self = OrdMap { entries };
            Some(e.1)
        } else {
            assert(self@ =~= old(self)@.remove(k.deep_view()));
            None
        }
    }

    /// Drops `k` and what it was mapped to.
    pub fn remove(&mut self, k: &K)
        ensures
            final(self)@ == old(self)@.remove(k.deep_view()),
    {
        let _ = self.take(k);
    }
}

impl<V: DeepView> OrdMap<String, V> {
    /// The value of the name `k`.
    pub fn get_str(&self, k: &str) -> (r: Option<&V>)
        ensures
            match r {
                Some(v) => self@.contains_key(k@) && v.deep_view() == self@[k@],
                None => !self@.contains_key(k@),
            },
    {
        self.get(&k.to_owned())
    }

    pub fn contains_str(&self, k: &str) -> (r: bool)
        ensures
            r == self@.contains_key(k@),
    {
        self.contains_key(&k.to_owned())
    }

    pub fn remove_str(&mut self, k: &str)
        ensures
            final(self)@ == old(self)@.remove(k@),
    {
        self.remove(&k.to_owned());
    }
}

/// A value of which an equal one can be made.
pub trait Duplicate: DeepView + Sized {
    fn duplicate(&self) -> (r: Self)
        ensures
            r.deep_view() == self.deep_view(),
    ;
}

impl Duplicate for String {
    fn duplicate(&self) -> (r: Self) {
        self.clone()
    }
}

impl Duplicate for usize {
    fn duplicate(&self) -> (r: Self) {
        *self
    }
}

impl Duplicate for u64 {
    fn duplicate(&self) -> (r: Self) {
        *self
    }
}

impl Duplicate for u32 {
    fn duplicate(&self) -> (r: Self) {
        *self
    }
}

impl Duplicate for bool {
    fn duplicate(&self) -> (r: Self) {
        *self
    }
}

impl Duplicate for () {
    fn duplicate(&self) -> (r: Self) {
    }
}

impl<T: Duplicate> Duplicate for Vec<T> {
    fn duplicate(&self) -> (r: Self) {
        let mut out: Vec<T> = Vec::new();
        let mut i: usize = 0;
        while i < self.len()
            invariant
                i <= self.len(),
                out.len() == i,
                forall|j: int| 0 <= j < i ==> out@[j].deep_view() == self@[j].deep_view(),
            decreases self.len() - i,
        {
            out.push(self[i].duplicate());
            i = i + 1;
        }
        assert(out.deep_view() =~= self.deep_view());
        out
    }
}

impl<A: Duplicate, B: Duplicate> Duplicate for (A, B) {
    fn duplicate(&self) -> (r: Self) {
        (self.0.duplicate(), self.1.duplicate())
    }
}

impl<T: Duplicate> Duplicate for Option<T> {
    fn duplicate(&self) -> (r: Self) {
        match self {
            Some(v) => Some(v.duplicate()),
            None => None,
        }
    }
}

/// `k` is among the first `n` keys.
pub open spec fn among<A>(keys: Seq<A>, n: int, k: A) -> bool {
    exists|j: int| 0 <= j < n && #[trigger] keys[j] == k
}

/// One key more among the first.
pub proof fn lemma_among_step<A>(keys: Seq<A>, i: int)
    requires
        0 <= i < keys.len(),
    ensures
        forall|x: A| #[trigger] among(keys, i + 1, x) <==> (x == keys[i] || among(keys, i, x)),
{
    assert forall|x: A| #[trigger] among(keys, i + 1, x) <==> (x == keys[i] || among(keys, i, x)) by {
        if x == keys[i] {
            assert(keys[i] == x);
        }
    }
}

/// The keys of a map are the ones among all of them.
pub proof fn lemma_among_all<A>(keys: Seq<A>, dom: Set<A>)
    requires
        forall|j: int| 0 <= j < keys.len() ==> dom.contains(#[trigger] keys[j]),
        forall|k: A| dom.contains(k) ==> exists|j: int| 0 <= j < keys.len() && #[trigger] keys[j] == k,
    ensures
        forall|k: A| #[trigger] dom.contains(k) <==> among(keys, keys.len() as int, k),
{
}

impl<K: MapKey + Duplicate, V: Duplicate> OrdMap<K, V> {
    /// Takes over every entry of `other`, in place of its own.
    pub fn merge(&mut self, other: &Self)
        ensures
            final(self)@ == old(self)@.union_prefer_right(other@),
    {
        let ghost before = self@;
        let n: usize = other.len();
        other.recall_order();
        let ghost keys = other.keys();
        let mut i: usize = 0;
        while i < n
            invariant
                i <= n,
                keys == other.keys(),
                n == keys.len(),
                forall|j: int| 0 <= j < n ==> other@.contains_key(#[trigger] keys[j]),
                forall|k: K::V| #[trigger]
                    self@.contains_key(k) <==> before.contains_key(k) || among(keys, i as int, k),
                forall|k: K::V| #[trigger]
                    self@.contains_key(k) ==> self@[k] == if among(keys, i as int, k) {
                        other@[k]
                    } else {
                        before[k]
                    },
            decreases n - i,
        {
            let k = other.key_at(i).duplicate();
            let v = other.value_at(i).duplicate();
            self.insert(k, v);
            proof {
                lemma_among_step(keys, i as int);
            }
            i = i + 1;
        }
        proof {
            lemma_among_all(keys, other@.dom());
            assert(self@ =~= before.union_prefer_right(other@));
        }
    }

    /// A map with equal entries.
    pub fn copy(&self) -> (r: Self)
        ensures
            r@ == self@,
            r.keys() == self.keys(),
            r.vals() == self.vals(),
    {
        let mut entries: Vec<(K, V)> = Vec::new();
        let mut i: usize = 0;
        while i < self.entries.len()
            invariant
                i <= self.entries.len(),
                entries.len() == i,
                forall|j: int|
                    0 <= j < i ==> {
                        &&& entries@[j].0.deep_view() == self.entries@[j].0.deep_view()
                        &&& entries@[j].1.deep_view() == self.entries@[j].1.deep_view()
                    },
            decreases self.entries.len() - i,
        {
            let k = self.entries[i].0.duplicate();
            let v = self.entries[i].1.duplicate();
            entries.push((k, v));
            i = i + 1;
        }
        proof {
            use_type_invariant(self);
            let m = OrdMap::<K, V> { entries };
            assert(m.keys() =~= self.keys());
            assert(m.vals() =~= self.vals());
        }
        OrdMap { entries }
    }
}

impl<K: MapKey + Duplicate, V: Duplicate> Duplicate for OrdMap<K, V> {
    fn duplicate(&self) -> (r: Self) {
        self.copy()
    }
}

/// A set of names, held in ascending order.
pub struct StrSet {
    names: StrMap<()>,
}

impl View for StrSet {
    type V = Set<Seq<char>>;

    closed spec fn view(&self) -> Set<Seq<char>> {
        self.names@.dom()
    }
}

impl StrSet {
    /// The names, in ascending order.
    pub closed spec fn names(&self) -> Seq<Seq<char>> {
        self.names.keys()
    }

    pub fn new() -> (r: Self)
        ensures
            r@ == Set::<Seq<char>>::empty(),
    {
        let r = StrSet { names: OrdMap::new() };
        assert(r@ =~= Set::<Seq<char>>::empty());
        r
    }

    pub fn len(&self) -> (r: usize)
        ensures
            r == self.names().len(),
            self.names() == in_order::<String>(self@),
            forall|k: Seq<char>| #[trigger] self@.contains(k) <==> self.names().contains(k),
    {
        self.names.recall_order();
        proof {
            assert forall|k: Seq<char>| #[trigger] self@.contains(k) <==> self.names().contains(k) by {}
        }
        self.names.len()
    }

    pub fn is_empty(&self) -> (r: bool)
        ensures
            r == (self@ == Set::<Seq<char>>::empty()),
    {
        self.names.is_empty()
    }

    /// The name at position `i` in ascending order.
    pub fn name_at(&self, i: usize) -> (r: String)
        requires
            i < self.names().len(),
        ensures
            r@ == self.names()[i as int],
            self@.contains(r@),
    {
        self.names.key_at(i).clone()
    }

    pub fn contains(&self, name: &str) -> (r: bool)
        ensures
            r == self@.contains(name@),
    {
        self.names.contains_str(name)
    }

    pub fn insert(&mut self, name: &str)
        ensures
            final(self)@ == old(self)@.insert(name@),
    {
        self.names.insert(name.to_owned(), ());
        assert(self@ =~= old(self)@.insert(name@));
    }

    pub fn remove(&mut self, name: &str)
        ensures
            final(self)@ == old(self)@.remove(name@),
    {
        self.names.remove_str(name);
        assert(self@ =~= old(self)@.remove(name@));
    }

    /// A set with the same names.
    pub fn copy(&self) -> (r: Self)
        ensures
            r@ == self@,
            r.names() == self.names(),
    {
        StrSet { names: self.names.copy() }
    }

    /// Forgets every name.
    pub fn clear(&mut self)
        ensures
            final(self)@ == Set::<Seq<char>>::empty(),
    {
        *self = StrSet::new();
    }
}

} // verus!
