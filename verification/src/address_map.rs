use vstd::prelude::*;
use crate::address::Address;

verus! {

/// The position of the entry keyed by `k` in `s` (the last one, were there
/// several), or -1 when no entry has that key.
pub open spec fn find_key<V>(s: Seq<(Address, V)>, k: Address) -> int
    decreases s.len(),
{
    if s.len() == 0 {
        -1
    } else if s.last().0 == k {
        s.len() - 1
    } else {
        find_key(s.drop_last(), k)
    }
}

/// The value that `s` holds under `k`, if any.
pub open spec fn lookup<V>(s: Seq<(Address, V)>, k: Address) -> Option<V> {
    let i = find_key(s, k);
    if i >= 0 {
        Some(s[i].1)
    } else {
        None
    }
}

/// No two entries of `s` share a key.
pub open spec fn keys_distinct<V>(s: Seq<(Address, V)>) -> bool {
    forall|i: int, j: int| 0 <= i < j < s.len() ==> s[i].0 != s[j].0
}

/// `s` with the value under `k` set to `v`: the entry keeps its place when
/// it exists, and a new entry goes to the end otherwise.
pub open spec fn put<V>(s: Seq<(Address, V)>, k: Address, v: V) -> Seq<(Address, V)> {
    let i = find_key(s, k);
    if i >= 0 {
        s.update(i, (k, v))
    } else {
        s.push((k, v))
    }
}

/// The sum of `f` over the values of `s`.
pub open spec fn sum_by<V>(s: Seq<(Address, V)>, f: spec_fn(V) -> int) -> int
    decreases s.len(),
{
    if s.len() == 0 {
        0
    } else {
        sum_by(s.drop_last(), f) + f(s.last().1)
    }
}

/// What `find_key` returns: a position whose key is `k`, or -1 when there
/// is none; with distinct keys, the one position whose key is `k`.
pub proof fn lemma_find_key<V>(s: Seq<(Address, V)>, k: Address)
    ensures
        -1 <= find_key(s, k) < s.len(),
        find_key(s, k) >= 0 ==> s[find_key(s, k)].0 == k,
        find_key(s, k) == -1 ==> forall|i: int| 0 <= i < s.len() ==> s[i].0 != k,
        keys_distinct(s) ==> forall|i: int| 0 <= i < s.len() && s[i].0 == k ==> find_key(s, k) == i,
    decreases s.len(),
{
    if s.len() > 0 {
        let t = s.drop_last();
        lemma_find_key(t, k);
        assert forall|i: int| 0 <= i < t.len() implies t[i] == s[i] by {}
    }
}

/// Putting a value keeps the keys distinct, makes `k` map to `v`, and leaves
/// every other key as it was.
pub proof fn lemma_put<V>(s: Seq<(Address, V)>, k: Address, v: V)
    requires
        keys_distinct(s),
    ensures
        keys_distinct(put(s, k, v)),
        lookup(put(s, k, v), k) == Some(v),
        forall|k2: Address| k2 != k ==> lookup(put(s, k, v), k2) == lookup(s, k2),
        put(s, k, v).len() == if lookup(s, k) is Some { s.len() } else { s.len() + 1 },
        forall|i: int| 0 <= i < s.len() ==> (#[trigger] put(s, k, v)[i]).0 == s[i].0,
{
    let t = put(s, k, v);
    lemma_find_key(s, k);
    assert forall|i: int| 0 <= i < s.len() implies (#[trigger] t[i]).0 == s[i].0 by {}
    assert(keys_distinct(t));
    lemma_find_key(t, k);
    assert forall|k2: Address| k2 != k implies lookup(t, k2) == lookup(s, k2) by {
        lemma_find_key(s, k2);
        lemma_find_key(t, k2);
        if find_key(s, k2) >= 0 {
            assert(t[find_key(s, k2)].0 == k2);
        } else if find_key(t, k2) >= 0 {
            assert(t[find_key(t, k2)].0 == k2);
        }
    }
    if find_key(s, k) >= 0 {
        assert(t[find_key(s, k)].0 == k);
    } else {
        assert(t[s.len() as int].0 == k);
    }
}

/// Putting twice under one key is putting the second value once.
pub proof fn lemma_put_put<V>(s: Seq<(Address, V)>, k: Address, v1: V, v2: V)
    requires
        keys_distinct(s),
    ensures
        put(put(s, k, v1), k, v2) == put(s, k, v2),
{
    let t = put(s, k, v1);
    lemma_find_key(s, k);
    lemma_put(s, k, v1);
    lemma_find_key(t, k);
    if find_key(s, k) >= 0 {
        assert(t[find_key(s, k)].0 == k);
        assert(put(t, k, v2) =~= put(s, k, v2));
    } else {
        assert(t[s.len() as int].0 == k);
        assert(put(t, k, v2) =~= put(s, k, v2));
    }
}

/// Appending adds the appended value to the sum.
pub proof fn lemma_sum_push<V>(s: Seq<(Address, V)>, x: (Address, V), f: spec_fn(V) -> int)
    ensures
        sum_by(s.push(x), f) == sum_by(s, f) + f(x.1),
{
    assert(s.push(x).drop_last() =~= s);
}

/// Replacing one entry changes the sum by the difference of the two values.
pub proof fn lemma_sum_update<V>(s: Seq<(Address, V)>, i: int, x: (Address, V), f: spec_fn(V) -> int)
    requires
        0 <= i < s.len(),
    ensures
        sum_by(s.update(i, x), f) == sum_by(s, f) - f(s[i].1) + f(x.1),
    decreases s.len(),
{
    let u = s.update(i, x);
    if i == s.len() - 1 {
        assert(u.drop_last() =~= s.drop_last());
    } else {
        lemma_sum_update(s.drop_last(), i, x, f);
        assert(u.drop_last() =~= s.drop_last().update(i, x));
    }
}

/// Putting `v` under `k` changes the sum by `f(v)` less the old value's `f`.
pub proof fn lemma_sum_put<V>(s: Seq<(Address, V)>, k: Address, v: V, f: spec_fn(V) -> int)
    ensures
        sum_by(put(s, k, v), f) == sum_by(s, f) + f(v) - match lookup(s, k) {
            Some(old) => f(old),
            None => 0,
        },
{
    lemma_find_key(s, k);
    if find_key(s, k) >= 0 {
        lemma_sum_update(s, find_key(s, k), (k, v), f);
    } else {
        lemma_sum_push(s, (k, v), f);
    }
}

/// The sum over one more entry of a prefix adds that entry's value.
pub proof fn lemma_sum_take_next<V>(s: Seq<(Address, V)>, i: int, f: spec_fn(V) -> int)
    requires
        0 <= i < s.len(),
    ensures
        sum_by(s.take(i + 1), f) == sum_by(s.take(i), f) + f(s[i].1),
{
    assert(s.take(i + 1).drop_last() =~= s.take(i));
}

/// With non-negative values, a prefix sums to no more than the whole.
pub proof fn lemma_sum_prefix_le<V>(s: Seq<(Address, V)>, k: int, f: spec_fn(V) -> int)
    requires
        0 <= k <= s.len(),
        forall|i: int| 0 <= i < s.len() ==> f(#[trigger] s[i].1) >= 0,
    ensures
        sum_by(s.take(k), f) <= sum_by(s, f),
    decreases s.len() - k,
{
    if k < s.len() {
        lemma_sum_take_next(s, k, f);
        lemma_sum_prefix_le(s, k + 1, f);
    } else {
        assert(s.take(k) =~= s);
    }
}

/// When every value has a non-negative `f`, so does the sum, and no single
/// value's `f` exceeds it.
pub proof fn lemma_sum_bounds<V>(s: Seq<(Address, V)>, f: spec_fn(V) -> int)
    requires
        forall|i: int| 0 <= i < s.len() ==> f(#[trigger] s[i].1) >= 0,
    ensures
        sum_by(s, f) >= 0,
        forall|i: int| 0 <= i < s.len() ==> f(#[trigger] s[i].1) <= sum_by(s, f),
    decreases s.len(),
{
    if s.len() > 0 {
        let t = s.drop_last();
        assert forall|i: int| 0 <= i < t.len() implies f(#[trigger] t[i].1) >= 0 by {
            assert(t[i] == s[i]);
        }
        lemma_sum_bounds(t, f);
        assert forall|i: int| 0 <= i < s.len() implies f(#[trigger] s[i].1) <= sum_by(s, f) by {
            if i < s.len() - 1 {
                assert(t[i] == s[i]);
            }
        }
    }
}

/// A table from addresses to values, kept in the order in which the keys
/// first arrived.
pub struct AddressMap<V> {
    entries: Vec<(Address, V)>,
}

impl<V> View for AddressMap<V> {
    type V = Seq<(Address, V)>;

    closed spec fn view(&self) -> Seq<(Address, V)> {
        self.entries@
    }
}

impl<V: Copy> AddressMap<V> {
    /// An empty table.
    pub fn new() -> (m: Self)
        ensures
            m@ == Seq::<(Address, V)>::empty(),
    {
        AddressMap { entries: Vec::new() }
    }

    /// The number of keys.
    pub fn len(&self) -> (n: usize)
        ensures
            n == self@.len(),
    {
        self.entries.len()
    }

    /// The position of `k`, if it has an entry.
    pub fn index_of(&self, k: Address) -> (r: Option<usize>)
        requires
            keys_distinct(self@),
        ensures
            match r {
                Some(i) => i as int == find_key(self@, k),
                None => find_key(self@, k) == -1,
            },
    {
        proof {
            lemma_find_key(self@, k);
        }
        let mut i: usize = 0;
        while i < self.entries.len()
            invariant
                i <= self.entries@.len(),
                keys_distinct(self@),
                self@ == self.entries@,
                forall|j: int| 0 <= j < i ==> self.entries@[j].0 != k,
                -1 <= find_key(self@, k) < self@.len(),
                find_key(self@, k) >= 0 ==> self@[find_key(self@, k)].0 == k,
                forall|j: int| 0 <= j < self@.len() && self@[j].0 == k ==> find_key(self@, k) == j,
            decreases self.entries@.len() - i,
        {
            if self.entries[i].0 == k {
                return Some(i);
            }
            i = i + 1;
        }
        None
    }

    /// The value under `k`, if any.
    pub fn get(&self, k: Address) -> (r: Option<V>)
        requires
            keys_distinct(self@),
        ensures
            r == lookup(self@, k),
    {
        proof {
            lemma_find_key(self@, k);
        }
        match self.index_of(k) {
            Some(i) => Some(self.entries[i].1),
            None => None,
        }
    }

    /// Sets the value under `k` to `v`.
    pub fn put(&mut self, k: Address, v: V)
        requires
            keys_distinct(old(self)@),
        ensures
            final(self)@ == put(old(self)@, k, v),
    {
        proof {
            lemma_find_key(old(self)@, k);
        }
        match self.index_of(k) {
            Some(i) => {
                self.entries.set(i, (k, v));
            },
            None => {
                self.entries.push((k, v));
            },
        }
    }

    /// A table holding exactly `entries`, in that order; `None` when two of
    /// them share a key.
    pub fn from_vec(entries: Vec<(Address, V)>) -> (r: Option<Self>)
        ensures
            r is Some <==> keys_distinct(entries@),
            r matches Some(m) ==> m@ == entries@,
    {
        let n = entries.len();
        let mut i: usize = 0;
        while i < n
            invariant
                n == entries@.len(),
                i <= n,
                forall|a: int, b: int| 0 <= a < b < n && a < i ==> entries@[a].0 != entries@[b].0,
            decreases n - i,
        {
            let mut j: usize = i + 1;
            while j < n
                invariant
                    n == entries@.len(),
                    i < n,
                    i + 1 <= j <= n,
                    forall|a: int, b: int| 0 <= a < b < n && a < i ==> entries@[a].0 != entries@[b].0,
                    forall|b: int| i < b < j ==> entries@[i as int].0 != entries@[b].0,
                decreases n - j,
            {
                if entries[i].0 == entries[j].0 {
                    return None;
                }
                j = j + 1;
            }
            i = i + 1;
        }
        Some(AddressMap { entries })
    }

    /// The entries, in order.
    pub fn to_vec(&self) -> (r: Vec<(Address, V)>)
        ensures
            r@ == self@,
    {
        let mut r: Vec<(Address, V)> = Vec::new();
        let mut i: usize = 0;
        while i < self.entries.len()
            invariant
                i <= self.entries@.len(),
                self@ == self.entries@,
                r@ =~= self@.take(i as int),
            decreases self.entries@.len() - i,
        {
            r.push(self.entries[i]);
            i = i + 1;
            assert(r@ =~= self@.take(i as int));
        }
        assert(self@.take(i as int) =~= self@);
        r
    }

    /// The entry at position `i`.
    pub fn entry(&self, i: usize) -> (r: (Address, V))
        requires
            i < self@.len(),
        ensures
            r == self@[i as int],
    {
        self.entries[i]
    }

    /// The keys, in the order in which they first arrived.
    pub fn keys(&self) -> (r: Vec<Address>)
        ensures
            r@ == self@.map_values(|e: (Address, V)| e.0),
    {
        let mut r: Vec<Address> = Vec::new();
        let mut i: usize = 0;
        while i < self.entries.len()
            invariant
                i <= self.entries@.len(),
                self@ == self.entries@,
                r@ =~= self@.take(i as int).map_values(|e: (Address, V)| e.0),
            decreases self.entries@.len() - i,
        {
            r.push(self.entries[i].0);
            i = i + 1;
            assert(r@ =~= self@.take(i as int).map_values(|e: (Address, V)| e.0));
        }
        assert(self@.take(i as int) =~= self@);
        r
    }
}

} // verus!
