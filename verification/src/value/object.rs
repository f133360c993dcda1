//! Objects: maps from primitive keys to values, in the order their keys were
//! first inserted.
use crate::value::number::{lemma_pow10_pos, number_eq, pow10};
use crate::value::primitive::{prim_eq, Primitive};
use crate::value::Value;
use vstd::prelude::*;

verus! {

/// The entry at `i` is the first one whose key equals `k`
pub open spec fn key_at(s: Seq<(Primitive, Value)>, k: Primitive, i: int) -> bool {
    &&& 0 <= i < s.len()
    &&& prim_eq(s[i].0, k)
    &&& forall|j: int| 0 <= j < i ==> !prim_eq(#[trigger] s[j].0, k)
}

/// The position of the first entry whose key equals `k`, if any
pub open spec fn find_key(s: Seq<(Primitive, Value)>, k: Primitive) -> Option<int> {
    if exists|i: int| key_at(s, k, i) {
        Some(choose|i: int| key_at(s, k, i))
    } else {
        None
    }
}

/// At most one entry has the first position of a key
pub proof fn lemma_key_at_unique(s: Seq<(Primitive, Value)>, k: Primitive, i: int, j: int)
    requires
        key_at(s, k, i),
        key_at(s, k, j),
    ensures
        i == j,
{
    if i < j {
        assert(!prim_eq(s[i].0, k));
    } else if j < i {
        assert(!prim_eq(s[j].0, k));
    }
}

/// What `find_key` gives for a position found by a search
pub proof fn lemma_find_key(s: Seq<(Primitive, Value)>, k: Primitive, i: int)
    requires
        key_at(s, k, i),
    ensures
        find_key(s, k) == Some(i),
{
    let c = choose|c: int| key_at(s, k, c);
    lemma_key_at_unique(s, k, i, c);
}

/// No entry has the key
pub proof fn lemma_find_key_none(s: Seq<(Primitive, Value)>, k: Primitive)
    requires
        forall|j: int| 0 <= j < s.len() ==> !prim_eq(#[trigger] s[j].0, k),
    ensures
        find_key(s, k) is None,
{
    if exists|i: int| key_at(s, k, i) {
        let i = choose|i: int| key_at(s, k, i);
        assert(prim_eq(s[i].0, k));
    }
}

/// The entries after setting the key `k` to `v`: in place where an entry has
/// the key, else as a new last entry
pub open spec fn insert_entry(s: Seq<(Primitive, Value)>, k: Primitive, v: Value) -> Seq<(Primitive, Value)> {
    match find_key(s, k) {
        Some(i) => s.update(i, (s[i].0, v)),
        None => s.push((k, v)),
    }
}

/// The entries after inserting each pair of `pairs` in order into `s`
pub open spec fn inserted_into(s: Seq<(Primitive, Value)>, pairs: Seq<(Primitive, Value)>) -> Seq<
    (Primitive, Value),
>
    decreases pairs.len(),
{
    if pairs.len() == 0 {
        s
    } else {
        insert_entry(inserted_into(s, pairs.drop_last()), pairs.last().0, pairs.last().1)
    }
}

/// The entries after inserting each pair of `pairs` in order into an empty map
pub open spec fn inserted_all(pairs: Seq<(Primitive, Value)>) -> Seq<(Primitive, Value)> {
    inserted_into(Seq::empty(), pairs)
}

proof fn lemma_cross_multiplication(x: int, y: int, z: int, a: int, b: int, c: int)
    requires
        x * b == y * a,
        y * c == z * b,
        b > 0,
    ensures
        x * c == z * a,
{
    assert((x * c) * b == (z * a) * b) by (nonlinear_arith)
        requires
            x * b == y * a,
            y * c == z * b,
    ;
    assert(x * c == z * a) by (nonlinear_arith)
        requires
            (x * c) * b == (z * a) * b,
            b > 0,
    ;
}

/// Key equality is an equivalence: every key equals itself, the relation
/// is symmetric, and it is transitive
pub proof fn lemma_key_equality(p: Primitive, q: Primitive, r: Primitive)
    ensures
        prim_eq(p, p),
        prim_eq(p, q) ==> prim_eq(q, p),
        prim_eq(p, q) && prim_eq(q, r) ==> prim_eq(p, r),
{
    if let (Primitive::Decimal(x), Primitive::Decimal(y), Primitive::Decimal(z)) = (p, q, r) {
        if number_eq(x, y) && number_eq(y, z) {
            lemma_pow10_pos(y.value().n_frac_digits as nat);
            lemma_cross_multiplication(
                x.value().coeff as int,
                y.value().coeff as int,
                z.value().coeff as int,
                pow10(x.value().n_frac_digits as nat),
                pow10(y.value().n_frac_digits as nat),
                pow10(z.value().n_frac_digits as nat),
            );
        }
    }
}

/// Some entry has a key equal to `k` exactly when a first one does
pub proof fn lemma_find_key_some(s: Seq<(Primitive, Value)>, k: Primitive, i: int)
    requires
        0 <= i < s.len(),
        prim_eq(s[i].0, k),
    ensures
        find_key(s, k) matches Some(j) && j <= i,
    decreases i,
{
    if forall|j: int| 0 <= j < i ==> !prim_eq(#[trigger] s[j].0, k) {
        lemma_find_key(s, k, i);
    } else {
        let j = choose|j: int| 0 <= j < i && !!prim_eq(#[trigger] s[j].0, k);
        lemma_find_key_some(s, k, j);
    }
}

/// Reading a key after setting it gives the value it was set to
pub proof fn lemma_get_after_insert(s: Seq<(Primitive, Value)>, k: Primitive, v: Value)
    ensures
        find_key(insert_entry(s, k, v), k) matches Some(j) && insert_entry(s, k, v)[j].1 == v,
{
    let t = insert_entry(s, k, v);
    lemma_key_equality(k, k, k);
    match find_key(s, k) {
        Some(i) => {
            assert(key_at(s, k, i));
            assert(key_at(t, k, i)) by {
                assert forall|j: int| 0 <= j < i implies !prim_eq(#[trigger] t[j].0, k) by {
                    assert(t[j] == s[j]);
                }
            }
            lemma_find_key(t, k, i);
        },
        None => {
            assert forall|j: int| 0 <= j < s.len() implies !prim_eq(#[trigger] s[j].0, k) by {
                if prim_eq(s[j].0, k) {
                    lemma_find_key_some(s, k, j);
                }
            }
            assert(key_at(t, k, s.len() as int)) by {
                assert forall|j: int| 0 <= j < s.len() implies !prim_eq(#[trigger] t[j].0, k) by {
                    assert(t[j] == s[j]);
                }
            }
            lemma_find_key(t, k, s.len() as int);
        },
    }
}

/// Setting a key keeps the keys distinct
pub proof fn lemma_insert_keeps_keys_distinct(s: Seq<(Primitive, Value)>, k: Primitive, v: Value)
    requires
        keys_distinct(s),
    ensures
        keys_distinct(insert_entry(s, k, v)),
{
    let t = insert_entry(s, k, v);
    match find_key(s, k) {
        Some(i) => {
            assert forall|a: int, b: int| 0 <= a < b < t.len() implies !prim_eq(
                #[trigger] t[a].0,
                #[trigger] t[b].0,
            ) by {
                assert(t[a].0 == s[a].0);
                assert(t[b].0 == s[b].0);
            }
        },
        None => {
            assert forall|a: int, b: int| 0 <= a < b < t.len() implies !prim_eq(
                #[trigger] t[a].0,
                #[trigger] t[b].0,
            ) by {
                if b == s.len() {
                    if prim_eq(s[a].0, k) {
                        lemma_find_key_some(s, k, a);
                    }
                } else {
                    assert(t[a] == s[a]);
                    assert(t[b] == s[b]);
                }
            }
        },
    }
}

/// With distinct keys, removing the entry of a key leaves no entry with it
pub proof fn lemma_remove_leaves_no_key(s: Seq<(Primitive, Value)>, k: Primitive)
    requires
        keys_distinct(s),
        find_key(s, k) is Some,
    ensures
        find_key(s.remove(find_key(s, k)->0), k) is None,
{
    let i = find_key(s, k)->0;
    let t = s.remove(i);
    assert(key_at(s, k, i));
    assert forall|j: int| 0 <= j < t.len() implies !prim_eq(#[trigger] t[j].0, k) by {
        let o = if j < i { j } else { j + 1 };
        assert(t[j] == s[o]);
        if prim_eq(s[o].0, k) {
            lemma_key_equality(s[o].0, k, s[i].0);
            lemma_key_equality(s[i].0, k, k);
            if o < i {
                assert(!prim_eq(s[o].0, s[i].0));
            } else {
                assert(!prim_eq(s[i].0, s[o].0));
                lemma_key_equality(s[o].0, s[i].0, s[i].0);
            }
        }
    }
    lemma_find_key_none(t, k);
}

/// No two entries have equal keys
pub open spec fn keys_distinct(s: Seq<(Primitive, Value)>) -> bool {
    forall|i: int, j: int| 0 <= i < j < s.len() ==> !prim_eq(#[trigger] s[i].0, #[trigger] s[j].0)
}

/// Inserting pairs whose keys are distinct gives the pairs themselves
pub proof fn lemma_inserted_all_distinct(pairs: Seq<(Primitive, Value)>)
    requires
        keys_distinct(pairs),
    ensures
        inserted_all(pairs) == pairs,
    decreases pairs.len(),
{
    if pairs.len() > 0 {
        let init = pairs.drop_last();
        assert(keys_distinct(init));
        lemma_inserted_all_distinct(init);
        assert forall|j: int| 0 <= j < init.len() implies !prim_eq(#[trigger] init[j].0, pairs.last().0) by {
            assert(!prim_eq(pairs[j].0, pairs[pairs.len() - 1].0));
        }
        lemma_find_key_none(init, pairs.last().0);
        assert(init.push(pairs.last()) =~= pairs);
    }
}

/// The elements of `a` in reverse order
pub fn reverse_vec<T>(a: Vec<T>) -> (r: Vec<T>)
    ensures
        r@ == a@.reverse(),
{
    let mut a = a;
    let ghost orig = a@;
    let mut r: Vec<T> = Vec::new();
    while a.len() > 0
        invariant
            a@ == orig.take(a@.len() as int),
            r@ == orig.skip(a@.len() as int).reverse(),
            a@.len() <= orig.len(),
        decreases a@.len(),
    {
        let v = a.pop().unwrap();
        r.push(v);
        assert(a@ =~= orig.take(a@.len() as int));
        assert(r@ =~= orig.skip(a@.len() as int).reverse());
    }
    assert(orig.skip(0) =~= orig);
    r
}

/// A map from primitive keys to values; a key that is inserted again keeps
/// its place and takes the new value
#[derive(Debug)]
pub struct ObjectMap {
    /// The entries, in the order their keys were first inserted
    pub entries: Vec<(Primitive, Value)>,
}

impl ObjectMap {
    /// The entries, in the order their keys were first inserted
    pub open spec fn entries(&self) -> Seq<(Primitive, Value)> {
        self.entries@
    }

    /// An empty map
    pub fn new() -> (m: Self)
        ensures
            m.entries() == Seq::<(Primitive, Value)>::empty(),
    {
        ObjectMap { entries: Vec::new() }
    }

    /// The number of entries
    pub fn len(&self) -> (n: usize)
        ensures
            n == self.entries().len(),
    {
        self.entries.len()
    }

    /// The map has no entries
    pub fn is_empty(&self) -> (b: bool)
        ensures
            b == (self.entries().len() == 0),
    {
        self.entries.len() == 0
    }

    /// The position of the entry with the key `k`
    fn position(&self, k: &Primitive) -> (r: Option<usize>)
        ensures
            match find_key(self.entries(), *k) {
                Some(i) => r == Some(i as usize),
                None => r is None,
            },
            r matches Some(j) ==> find_key(self.entries(), *k) == Some(j as int) && j < self.entries().len(),
    {
        let mut i: usize = 0;
        while i < self.entries.len()
            invariant
                i <= self.entries@.len(),
                forall|j: int| 0 <= j < i ==> !prim_eq(#[trigger] self.entries@[j].0, *k),
            decreases self.entries@.len() - i,
        {
            if self.entries[i].0.strictly_equals(k) {
                proof {
                    lemma_find_key(self.entries@, *k, i as int);
                }
                return Some(i);
            }
            i = i + 1;
        }
        proof {
            lemma_find_key_none(self.entries@, *k);
        }
        None
    }

    /// The value of the key `k`, if the map has it
    pub fn get(&self, k: &Primitive) -> (r: Option<&Value>)
        ensures
            match find_key(self.entries(), *k) {
                Some(i) => r == Some(&self.entries()[i].1),
                None => r is None,
            },
    {
        match self.position(k) {
            Some(i) => Some(&self.entries[i].1),
            None => None,
        }
    }

    /// The value of the key `k`, to change in place, if the map has it
    pub fn get_mut(&mut self, k: &Primitive) -> (r: Option<&mut Value>)
        ensures
            match find_key(old(self).entries(), *k) {
                Some(i) => r matches Some(e) && *e == old(self).entries()[i].1
                    && final(self).entries() == old(self).entries().update(i, (old(self).entries()[i].0, *final(e))),
                None => r is None && *final(self) == *old(self),
            },
    {
        match self.position(k) {
            Some(i) => Some(&mut self.entries[i].1),
            None => None,
        }
    }

    /// Whether the map has the key `k`
    pub fn contains_key(&self, k: &Primitive) -> (b: bool)
        ensures
            b == (find_key(self.entries(), *k) is Some),
    {
        self.position(k).is_some()
    }

    /// Sets the value of the key `k`: in place where the map has it, else as
    /// a new last entry; the value it had is returned
    pub fn insert(&mut self, k: Primitive, v: Value) -> (r: Option<Value>)
        ensures
            final(self).entries() == insert_entry(old(self).entries(), k, v),
            match find_key(old(self).entries(), k) {
                Some(i) => r == Some(old(self).entries()[i].1),
                None => r is None,
            },
    {
        match self.position(&k) {
            Some(i) => {
                let (key, old_value) = self.entries.remove(i);
                self.entries.insert(i, (key, v));
                assert(self.entries@ =~= old(self).entries@.update(i as int, (old(self).entries@[i as int].0, v)));
                Some(old_value)
            },
            None => {
                self.entries.push((k, v));
                None
            },
        }
    }

    /// Removes the key `k`, returning its value, if the map has it
    pub fn remove(&mut self, k: &Primitive) -> (r: Option<Value>)
        ensures
            match find_key(old(self).entries(), *k) {
                Some(i) => final(self).entries() == old(self).entries().remove(i) && r == Some(
                    old(self).entries()[i].1,
                ),
                None => final(self).entries() == old(self).entries() && r is None,
            },
    {
        match self.position(k) {
            Some(i) => {
                let (_, value) = self.entries.remove(i);
                Some(value)
            },
            None => None,
        }
    }

    /// Inserts the pairs in order
    pub fn extend(&mut self, pairs: Vec<(Primitive, Value)>)
        ensures
            final(self).entries() == inserted_into(old(self).entries(), pairs@),
    {
        let ghost orig = pairs@;
        let ghost start = self.entries();
        let n = pairs.len();
        let mut rest = reverse_vec(pairs);
        let mut i: usize = 0;
        while rest.len() > 0
            invariant
                rest@ == orig.skip(i as int).reverse(),
                i + rest@.len() == orig.len(),
                orig.len() == n,
                self.entries() == inserted_into(start, orig.take(i as int)),
            decreases rest@.len(),
        {
            let (k, v) = rest.pop().unwrap();
            proof {
                assert(orig.take(i + 1).drop_last() =~= orig.take(i as int));
            }
            self.insert(k, v);
            i = i + 1;
            proof {
                assert(rest@ =~= orig.skip(i as int).reverse());
            }
        }
        assert(orig.take(i as int) =~= orig);
    }

    /// The map of the pairs, inserted in order: a key that comes again keeps
    /// its first place and takes the later value
    pub fn from_entries(pairs: Vec<(Primitive, Value)>) -> (m: Self)
        ensures
            m.entries() == inserted_all(pairs@),
    {
        let mut m = ObjectMap::new();
        m.extend(pairs);
        m
    }

    /// The entries, in order
    pub fn into_entries(self) -> (r: Vec<(Primitive, Value)>)
        ensures
            r@ == self.entries(),
    {
        self.entries
    }

    /// The entries, in order, by reference
    pub fn as_entries(&self) -> (r: &Vec<(Primitive, Value)>)
        ensures
            r@ == self.entries(),
    {
        &self.entries
    }
}

} // verus!
