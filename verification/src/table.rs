//! An insertion-ordered association table with unique keys.
//!
//! The coordinator and the edge keep several maps keyed by node or sensor
//! names. This table holds them as a sequence of `(key, value)` entries, in
//! the order in which keys were first inserted, and is viewed as a `Map`.
use vstd::prelude::*;

verus! {

/// Keys that can be compared and duplicated with a known meaning.
pub trait TableKey: View + Sized {
    fn same_key(&self, other: &Self) -> (r: bool)
        ensures
            r == (self@ == other@),
    ;

    fn copy_key(&self) -> (r: Self)
        ensures
            r@ == self@,
    ;
}

impl TableKey for String {
    fn same_key(&self, other: &Self) -> (r: bool) {
        *self == *other
    }

    fn copy_key(&self) -> (r: Self) {
        self.clone()
    }
}

impl TableKey for u32 {
    fn same_key(&self, other: &Self) -> (r: bool) {
        *self == *other
    }

    fn copy_key(&self) -> (r: Self) {
        *self
    }
}

/// `k` is the key of some entry of `s`.
pub open spec fn has_key<KV, V>(s: Seq<(KV, V)>, k: KV) -> bool {
    exists|i: int| #![trigger s[i]] 0 <= i < s.len() && s[i].0 == k
}

/// No two entries of `s` share a key.
pub open spec fn distinct_keys<KV, V>(s: Seq<(KV, V)>) -> bool {
    forall|i: int, j: int|
        #![trigger s[i], s[j]]
        0 <= i < s.len() && 0 <= j < s.len() && i != j ==> s[i].0 != s[j].0
}

/// The position of the entry with key `k` (meaningful when `has_key(s, k)`).
pub open spec fn position_of<KV, V>(s: Seq<(KV, V)>, k: KV) -> int {
    choose|i: int| #![trigger s[i]] 0 <= i < s.len() && s[i].0 == k
}

/// The map that a sequence of entries with distinct keys stands for.
pub open spec fn map_of<KV, V>(s: Seq<(KV, V)>) -> Map<KV, V> {
    Map::new(|k: KV| has_key(s, k), |k: KV| s[position_of(s, k)].1)
}

pub proof fn lemma_position_of<KV, V>(s: Seq<(KV, V)>, i: int)
    requires
        distinct_keys(s),
        0 <= i < s.len(),
    ensures
        has_key(s, s[i].0),
        position_of(s, s[i].0) == i,
        map_of(s).contains_key(s[i].0),
        map_of(s)[s[i].0] == s[i].1,
{
    let k = s[i].0;
    assert(has_key(s, k));
    let j = position_of(s, k);
    assert(s[j].0 == k);
}

pub proof fn lemma_push_new_key<KV, V>(s: Seq<(KV, V)>, k: KV, v: V)
    requires
        distinct_keys(s),
        !has_key(s, k),
    ensures
        distinct_keys(s.push((k, v))),
        map_of(s.push((k, v))) =~= map_of(s).insert(k, v),
{
    let t = s.push((k, v));
    assert forall|i: int, j: int|
        #![trigger t[i], t[j]]
        0 <= i < t.len() && 0 <= j < t.len() && i != j implies t[i].0 != t[j].0 by {
        if i < s.len() && j < s.len() {
            assert(s[i] == t[i] && s[j] == t[j]);
        } else if i < s.len() {
            assert(s[i] == t[i]);
        } else if j < s.len() {
            assert(s[j] == t[j]);
        }
    }
    assert forall|x: KV| #[trigger] has_key(t, x) <==> (has_key(s, x) || x == k) by {
        if has_key(s, x) {
            let i = choose|i: int| #![trigger s[i]] 0 <= i < s.len() && s[i].0 == x;
            assert(t[i] == s[i]);
        }
        if x == k {
            assert(t[s.len() as int].0 == k);
        }
        if has_key(t, x) && x != k {
            let i = choose|i: int| #![trigger t[i]] 0 <= i < t.len() && t[i].0 == x;
            assert(s[i] == t[i]);
        }
    }
    assert forall|x: KV| #[trigger] map_of(t).contains_key(x) implies map_of(t)[x] == map_of(
        s,
    ).insert(k, v)[x] by {
        if x == k {
            lemma_position_of(t, s.len() as int);
        } else {
            let i = choose|i: int| #![trigger s[i]] 0 <= i < s.len() && s[i].0 == x;
            lemma_position_of(s, i);
            assert(t[i] == s[i]);
            lemma_position_of(t, i);
        }
    }
}

pub proof fn lemma_update_value<KV, V>(s: Seq<(KV, V)>, i: int, v: V)
    requires
        distinct_keys(s),
        0 <= i < s.len(),
    ensures
        distinct_keys(s.update(i, (s[i].0, v))),
        map_of(s.update(i, (s[i].0, v))) =~= map_of(s).insert(s[i].0, v),
{
    let t = s.update(i, (s[i].0, v));
    assert forall|a: int, b: int|
        #![trigger t[a], t[b]]
        0 <= a < t.len() && 0 <= b < t.len() && a != b implies t[a].0 != t[b].0 by {
        assert(t[a].0 == s[a].0 && t[b].0 == s[b].0);
    }
    assert forall|x: KV| #[trigger] has_key(t, x) <==> has_key(s, x) by {
        if has_key(s, x) {
            let j = choose|j: int| #![trigger s[j]] 0 <= j < s.len() && s[j].0 == x;
            assert(t[j].0 == s[j].0);
        }
        if has_key(t, x) {
            let j = choose|j: int| #![trigger t[j]] 0 <= j < t.len() && t[j].0 == x;
            assert(t[j].0 == s[j].0);
        }
    }
    assert forall|x: KV| #[trigger] map_of(t).contains_key(x) implies map_of(t)[x] == map_of(
        s,
    ).insert(s[i].0, v)[x] by {
        let j = choose|j: int| #![trigger s[j]] 0 <= j < s.len() && s[j].0 == x;
        lemma_position_of(s, j);
        assert(t[j].0 == s[j].0);
        lemma_position_of(t, j);
    }
}

/// A table of values keyed by `K`, in first-insertion order.
pub struct Table<K, V> {
    entries: Vec<(K, V)>,
}

impl<K: TableKey, V> View for Table<K, V> {
    type V = Map<K::V, V>;

    open spec fn view(&self) -> Map<K::V, V> {
        map_of(self.contents())
    }
}

impl<K: TableKey, V> Table<K, V> {
    /// The entries, keys taken by their views, in first-insertion order.
    pub closed spec fn contents(&self) -> Seq<(K::V, V)> {
        self.entries@.map_values(|e: (K, V)| (e.0@, e.1))
    }

    pub open spec fn wf(&self) -> bool {
        distinct_keys(self.contents())
    }

    pub fn new() -> (t: Self)
        ensures
            t.wf(),
            t.contents() == Seq::<(K::V, V)>::empty(),
            t@ == Map::<K::V, V>::empty(),
    {
        let t = Table { entries: Vec::new() };
        assert(t.contents() =~= Seq::<(K::V, V)>::empty());
        assert(t@ =~= Map::<K::V, V>::empty());
        t
    }

    pub fn len(&self) -> (n: usize)
        ensures
            n == self.contents().len(),
    {
        self.entries.len()
    }

    /// The position of the entry for `k`, if there is one.
    pub fn find(&self, k: &K) -> (r: Option<usize>)
        requires
            self.wf(),
        ensures
            match r {
                Some(i) => i < self.contents().len() && self.contents()[i as int].0 == k@
                    && self@.contains_key(k@) && self@[k@] == self.contents()[i as int].1,
                None => !self@.contains_key(k@),
            },
    {
        let mut i: usize = 0;
        while i < self.entries.len()
            invariant
                i <= self.entries.len(),
                self.wf(),
                forall|j: int| 0 <= j < i ==> self.contents()[j].0 != k@,
            decreases self.entries.len() - i,
        {
            if self.entries[i].0.same_key(k) {
                proof {
                    assert(self.contents()[i as int].0 == k@);
                    lemma_position_of(self.contents(), i as int);
                }
                return Some(i);
            }
            i += 1;
        }
        proof {
            if has_key(self.contents(), k@) {
                let j = choose|j: int|
                    #![trigger self.contents()[j]]
                    0 <= j < self.contents().len() && self.contents()[j].0 == k@;
            }
        }
        None
    }

    pub fn contains_key(&self, k: &K) -> (r: bool)
        requires
            self.wf(),
        ensures
            r == self@.contains_key(k@),
    {
        self.find(k).is_some()
    }

    /// The value stored for `k`, if any.
    pub fn get(&self, k: &K) -> (r: Option<&V>)
        requires
            self.wf(),
        ensures
            match r {
                Some(v) => self@.contains_key(k@) && *v == self@[k@],
                None => !self@.contains_key(k@),
            },
    {
        match self.find(k) {
            Some(i) => Some(&self.entries[i].1),
            None => None,
        }
    }

    /// The key of the entry at position `i`.
    pub fn key_at(&self, i: usize) -> (k: &K)
        requires
            i < self.contents().len(),
        ensures
            k@ == self.contents()[i as int].0,
    {
        &self.entries[i].0
    }

    /// The value of the entry at position `i`.
    pub fn value_at(&self, i: usize) -> (v: &V)
        requires
            i < self.contents().len(),
        ensures
            *v == self.contents()[i as int].1,
    {
        &self.entries[i].1
    }

    /// Stores `v` under `k`, keeping the position of an existing entry;
    /// returns whether `k` was new.
    pub fn insert(&mut self, k: K, v: V) -> (added: bool)
        requires
            old(self).wf(),
        ensures
            final(self).wf(),
            added == !old(self)@.contains_key(k@),
            final(self)@ == old(self)@.insert(k@, v),
            added ==> final(self).contents() == old(self).contents().push((k@, v)),
            !added ==> final(self).contents() == old(self).contents().update(
                position_of(old(self).contents(), k@),
                (k@, v),
            ),
    {
        let ghost s = self.contents();
        match self.find(&k) {
            Some(i) => {
                proof {
                    lemma_position_of(s, i as int);
                    lemma_update_value(s, i as int, v);
                }
                self.entries.set(i, (k, v));
                assert(self.contents() =~= s.update(i as int, (s[i as int].0, v)));
                false
            },
            None => {
                let ghost kv = k@;
                proof {
                    lemma_push_new_key(s, kv, v);
                }
                self.entries.push((k, v));
                assert(self.contents() =~= s.push((kv, v)));
                true
            },
        }
    }

    /// Replaces the value at position `i`, handing back the old one.
    pub fn replace_at(&mut self, i: usize, v: V) -> (prev: V)
        requires
            old(self).wf(),
            i < old(self).contents().len(),
        ensures
            final(self).wf(),
            prev == old(self).contents()[i as int].1,
            final(self).contents() == old(self).contents().update(
                i as int,
                (old(self).contents()[i as int].0, v),
            ),
            final(self)@ == old(self)@.insert(old(self).contents()[i as int].0, v),
    {
        let ghost s = self.contents();
        proof {
            lemma_update_value(s, i as int, v);
        }
        let (k, prev) = self.entries.remove(i);
        self.entries.insert(i, (k, v));
        assert(self.contents() =~= s.update(i as int, (s[i as int].0, v)));
        prev
    }
}

} // verus!
