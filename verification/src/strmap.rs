//! A map keyed by strings that keeps its entries in insertion order.

use vstd::prelude::*;

use crate::text::str_eq;

verus! {

/// A map from strings to values. Entries keep the order in which their keys
/// were first inserted; inserting an existing key replaces its value in place.
#[derive(Debug)]
pub struct StrMap<V> {
    entries: Vec<(String, V)>,
}

/// Whether no key occurs twice among `e`.
pub open spec fn keys_distinct<V>(e: Seq<(Seq<char>, V)>) -> bool {
    forall|i: int, j: int| 0 <= i < e.len() && 0 <= j < e.len() && i != j ==> e[i].0 != e[j].0
}

/// The value stored for `k` in an entry list with distinct keys.
pub open spec fn lookup<V>(e: Seq<(Seq<char>, V)>, k: Seq<char>) -> Option<V> {
    if exists|i: int| 0 <= i < e.len() && e[i].0 == k {
        Some(e[choose|i: int| 0 <= i < e.len() && e[i].0 == k].1)
    } else {
        None
    }
}

/// The keys of an entry list, in order.
pub open spec fn keys_of<V>(e: Seq<(Seq<char>, V)>) -> Seq<Seq<char>> {
    e.map_values(|p: (Seq<char>, V)| p.0)
}

/// The entry list after inserting `v` under `k`: the value of an existing
/// entry is replaced in place, otherwise the entry is appended.
pub open spec fn insert_entry<V>(e: Seq<(Seq<char>, V)>, k: Seq<char>, v: V) -> Seq<
    (Seq<char>, V),
> {
    if exists|i: int| 0 <= i < e.len() && e[i].0 == k {
        e.update(choose|i: int| 0 <= i < e.len() && e[i].0 == k, (k, v))
    } else {
        e.push((k, v))
    }
}

/// The entries with each value replaced by its view.
pub open spec fn entries_view<V: View>(e: Seq<(Seq<char>, V)>) -> Seq<(Seq<char>, V::V)> {
    e.map_values(|p: (Seq<char>, V)| (p.0, p.1@))
}

/// Viewing the values commutes with an insertion.
pub proof fn lemma_insert_view<V: View>(e: Seq<(Seq<char>, V)>, k: Seq<char>, v: V)
    requires
        keys_distinct(e),
    ensures
        entries_view(insert_entry(e, k, v)) == insert_entry(entries_view(e), k, v@),
{
    let w = entries_view(e);
    if exists|i: int| 0 <= i < e.len() && e[i].0 == k {
        let i = choose|i: int| 0 <= i < e.len() && e[i].0 == k;
        assert(w[i].0 == k);
        let j = choose|j: int| 0 <= j < w.len() && w[j].0 == k;
        assert(e[j].0 == k);
        assert(i == j);
        assert(entries_view(e.update(i, (k, v))) =~= w.update(j, (k, v@)));
    } else {
        assert forall|j: int| 0 <= j < w.len() implies w[j].0 != k by {
            assert(e[j].0 == w[j].0);
        }
        assert(entries_view(e.push((k, v))) =~= w.push((k, v@)));
    }
}

/// Viewing the values commutes with a lookup.
pub proof fn lemma_lookup_view<V: View>(e: Seq<(Seq<char>, V)>, k: Seq<char>)
    requires
        keys_distinct(e),
    ensures
        lookup(entries_view(e), k) == match lookup(e, k) {
            Some(v) => Some(v@),
            None => None,
        },
{
    let w = entries_view(e);
    if exists|i: int| 0 <= i < e.len() && e[i].0 == k {
        let i = choose|i: int| 0 <= i < e.len() && e[i].0 == k;
        assert(w[i].0 == k);
        let j = choose|j: int| 0 <= j < w.len() && w[j].0 == k;
        assert(e[j].0 == k);
        assert(i == j);
    } else {
        assert forall|j: int| 0 <= j < w.len() implies w[j].0 != k by {
            assert(e[j].0 == w[j].0);
        }
    }
}

/// Keys stay distinct through an insertion.
pub proof fn lemma_insert_distinct<V>(e: Seq<(Seq<char>, V)>, k: Seq<char>, v: V)
    requires
        keys_distinct(e),
    ensures
        keys_distinct(insert_entry(e, k, v)),
{
}

impl<V> View for StrMap<V> {
    type V = Seq<(Seq<char>, V)>;

    closed spec fn view(&self) -> Seq<(Seq<char>, V)> {
        self.entries@.map_values(|p: (String, V)| (p.0@, p.1))
    }
}

impl<V> StrMap<V> {
    #[verifier::type_invariant]
    spec fn distinct_keys(self) -> bool {
        keys_distinct(self@)
    }

    /// An empty map.
    pub fn new() -> (m: Self)
        ensures
            m@ == Seq::<(Seq<char>, V)>::empty(),
            keys_distinct(m@),
    {
        let m = StrMap { entries: Vec::new() };
        assert(m@ =~= Seq::<(Seq<char>, V)>::empty());
        m
    }

    /// Number of entries.
    pub fn len(&self) -> (n: usize)
        ensures
            n == self@.len(),
    {
        self.entries.len()
    }

    /// Whether the map has no entries.
    pub fn is_empty(&self) -> (b: bool)
        ensures
            b == (self@.len() == 0),
    {
        self.entries.len() == 0
    }

    /// Position of the entry with key `k`, if any.
    pub fn position(&self, k: &str) -> (r: Option<usize>)
        ensures
            match r {
                Some(i) => i < self@.len() && self@[i as int].0 == k@,
                None => forall|i: int| 0 <= i < self@.len() ==> self@[i].0 != k@,
            },
    {
        let n = self.entries.len();
        for i in 0..n
            invariant
                n == self@.len(),
                forall|j: int| 0 <= j < i ==> self@[j].0 != k@,
        {
            if str_eq(self.entries[i].0.as_str(), k) {
                return Some(i);
            }
        }
        None
    }

    /// The value stored for `k`.
    pub fn get(&self, k: &str) -> (r: Option<&V>)
        ensures
            match r {
                Some(v) => lookup(self@, k@) == Some(*v),
                None => lookup(self@, k@) is None,
            },
            r is Some == keys_of(self@).contains(k@),
            keys_distinct(self@),
    {
        proof {
            use_type_invariant(self);
        }
        match self.position(k) {
            Some(i) => {
                proof {
                    let w = choose|j: int| 0 <= j < self@.len() && self@[j].0 == k@;
                    assert(w == i);
                    assert(keys_of(self@)[i as int] == k@);
                }
                Some(&self.entries[i].1)
            },
            None => {
                proof {
                    if keys_of(self@).contains(k@) {
                        let j = choose|j: int| 0 <= j < keys_of(self@).len() && keys_of(self@)[j] == k@;
                        assert(self@[j].0 == k@);
                    }
                }
                None
            },
        }
    }

    /// Whether `k` is a key of the map.
    pub fn contains_key(&self, k: &str) -> (b: bool)
        ensures
            b == keys_of(self@).contains(k@),
            b == lookup(self@, k@) is Some,
    {
        self.get(k).is_some()
    }

    /// Stores `v` under `k`, replacing the value of an existing entry in
    /// place, or appending a new entry.
    pub fn insert(&mut self, k: String, v: V)
        ensures
            final(self)@ == insert_entry(old(self)@, k@, v),
            keys_distinct(old(self)@),
            keys_distinct(final(self)@),
    {
        proof {
            use_type_invariant(&*self);
        }
        let ghost old_view = self@;
        match self.position(k.as_str()) {
            Some(i) => {
                proof {
                    let w = choose|j: int| 0 <= j < old_view.len() && old_view[j].0 == k@;
                    assert(w == i);
                }
                let ghost kv = k@;
                let mut entries = Vec::new();
                std::mem::swap(&mut entries, &mut self.entries);
                entries.set(i, (k, v));
                assert(entries@.map_values(|p: (String, V)| (p.0@, p.1)) =~= old_view.update(
                    i as int,
                    (kv, v),
                ));
                self.entries = entries;
            },
            None => {
                let ghost kv = k@;
                let mut entries = Vec::new();
                std::mem::swap(&mut entries, &mut self.entries);
                entries.push((k, v));
                assert(entries@.map_values(|p: (String, V)| (p.0@, p.1)) =~= old_view.push(
                    (kv, v),
                ));
                self.entries = entries;
            },
        }
    }

    /// The key and value of the entry at position `i`.
    pub fn entry(&self, i: usize) -> (r: (&String, &V))
        requires
            i < self@.len(),
        ensures
            r.0@ == self@[i as int].0,
            *r.1 == self@[i as int].1,
    {
        let e = &self.entries[i];
        (&e.0, &e.1)
    }

    /// The keys, in order.
    pub fn keys(&self) -> (r: Vec<String>)
        ensures
            r@.map_values(|s: String| s@) == keys_of(self@),
    {
        let mut r: Vec<String> = Vec::new();
        let n = self.entries.len();
        for i in 0..n
            invariant
                n == self@.len(),
                r@.map_values(|s: String| s@) == keys_of(self@).take(i as int),
        {
            let ghost old_r = r@;
            let key = self.entries[i].0.clone();
            r.push(key);
            assert(r@ == old_r.push(key));
            assert(keys_of(self@)[i as int] == key@);
            assert(r@.map_values(|s: String| s@) =~= old_r.map_values(|s: String| s@).push(key@));
            assert(r@.map_values(|s: String| s@) =~= keys_of(self@).take(i + 1));
        }
        assert(keys_of(self@).take(n as int) =~= keys_of(self@));
        r
    }
}

impl<V> StrMap<V> {
    /// Replaces the value of the entry at position `i`, returning the old
    /// value; keys and order are unchanged.
    pub fn replace_value(&mut self, i: usize, v: V) -> (old_v: V)
        requires
            i < old(self)@.len(),
        ensures
            final(self)@ == old(self)@.update(i as int, (old(self)@[i as int].0, v)),
            old_v == old(self)@[i as int].1,
    {
        proof {
            use_type_invariant(&*self);
        }
        let ghost old_view = self@;
        let mut entries = Vec::new();
        std::mem::swap(&mut entries, &mut self.entries);
        let (k, old_v) = entries.remove(i);
        entries.insert(i, (k, v));
        assert(entries@.map_values(|p: (String, V)| (p.0@, p.1)) =~= old_view.update(
            i as int,
            (old_view[i as int].0, v),
        ));
        self.entries = entries;
        old_v
    }
}

/// The entries of a map of string lists, with every string viewed.
pub open spec fn list_view(e: Seq<(Seq<char>, Vec<String>)>) -> Seq<(Seq<char>, Seq<Seq<char>>)> {
    e.map_values(|p: (Seq<char>, Vec<String>)| (p.0, p.1@.map_values(|s: String| s@)))
}

/// Appends `v` to the list stored under `k`, or stores the list `[v]`.
pub open spec fn list_append(e: Seq<(Seq<char>, Seq<Seq<char>>)>, k: Seq<char>, v: Seq<char>) -> Seq<
    (Seq<char>, Seq<Seq<char>>),
> {
    insert_entry(
        e,
        k,
        match lookup(e, k) {
            Some(l) => l.push(v),
            None => seq![v],
        },
    )
}

impl StrMap<Vec<String>> {
    /// Appends `v` to the list stored under `k`, or stores the list `[v]`.
    pub fn append(&mut self, k: String, v: String)
        ensures
            list_view(final(self)@) == list_append(list_view(old(self)@), k@, v@),
            keys_distinct(final(self)@),
    {
        proof {
            use_type_invariant(&*self);
        }
        let ghost old_view = self@;
        let ghost lv = list_view(old_view);
        let ghost vv = v@;
        match self.position(k.as_str()) {
            Some(i) => {
                proof {
                    let w = choose|j: int| 0 <= j < old_view.len() && old_view[j].0 == k@;
                    assert(w == i);
                    assert(lv[i as int].0 == k@);
                    let wl = choose|j: int| 0 <= j < lv.len() && lv[j].0 == k@;
                    assert(old_view[wl].0 == k@);
                    assert(wl == i);
                }
                let mut entries = Vec::new();
                std::mem::swap(&mut entries, &mut self.entries);
                let ghost old_entries = entries@;
                let (key, mut list) = entries.remove(i);
                assert(key@ == k@);
                let ghost before = list;
                list.push(v);
                let ghost after = list;
                entries.insert(i, (key, list));
                let ghost e2 = entries@.map_values(|p: (String, Vec<String>)| (p.0@, p.1));
                assert(e2 =~= old_view.update(i as int, (k@, after)));
                assert(old_view[i as int].1 == before);
                assert(after@.map_values(|s: String| s@) =~= before@.map_values(|s: String| s@).push(vv));
                assert(list_view(e2) =~= lv.update(i as int, (k@, lv[i as int].1.push(vv))));
                self.entries = entries;
            },
            None => {
                proof {
                    assert forall|j: int| 0 <= j < lv.len() implies lv[j].0 != k@ by {
                        assert(lv[j].0 == old_view[j].0);
                    }
                }
                let ghost kv = k@;
                let mut entries = Vec::new();
                std::mem::swap(&mut entries, &mut self.entries);
                let list = vec![v];
                let ghost lst = list;
                entries.push((k, list));
                let ghost e2 = entries@.map_values(|p: (String, Vec<String>)| (p.0@, p.1));
                assert(e2 =~= old_view.push((kv, lst)));
                assert(lst@.map_values(|s: String| s@) =~= seq![vv]);
                assert(list_view(e2) =~= lv.push((kv, seq![vv])));
                assert forall|a: int, b: int|
                    0 <= a < e2.len() && 0 <= b < e2.len() && a != b implies e2[a].0 != e2[b].0 by {
                    if a < old_view.len() && b < old_view.len() {
                        assert(e2[a] == old_view[a]);
                        assert(e2[b] == old_view[b]);
                    } else if a < old_view.len() {
                        assert(e2[a] == old_view[a]);
                    } else if b < old_view.len() {
                        assert(e2[b] == old_view[b]);
                    }
                }
                self.entries = entries;
            },
        }
    }
}

/// Viewing the values keeps the keys.
pub proof fn lemma_keys_view<V: View>(e: Seq<(Seq<char>, V)>)
    ensures
        keys_of(entries_view(e)) == keys_of(e),
{
    assert(keys_of(entries_view(e)) =~= keys_of(e));
}

/// Viewing the lists commutes with a lookup.
pub proof fn lemma_lookup_list_view(e: Seq<(Seq<char>, Vec<String>)>, k: Seq<char>)
    requires
        keys_distinct(e),
    ensures
        lookup(list_view(e), k) == match lookup(e, k) {
            Some(v) => Some(v@.map_values(|s: String| s@)),
            None => None,
        },
{
    let w = list_view(e);
    if exists|i: int| 0 <= i < e.len() && e[i].0 == k {
        let i = choose|i: int| 0 <= i < e.len() && e[i].0 == k;
        assert(w[i].0 == k);
        let j = choose|j: int| 0 <= j < w.len() && w[j].0 == k;
        assert(e[j].0 == k);
        assert(i == j);
    } else {
        assert forall|j: int| 0 <= j < w.len() implies w[j].0 != k by {
            assert(e[j].0 == w[j].0);
        }
    }
}

/// Viewing the lists commutes with an insertion.
pub proof fn lemma_insert_list_view(e: Seq<(Seq<char>, Vec<String>)>, k: Seq<char>, v: Vec<String>)
    requires
        keys_distinct(e),
    ensures
        list_view(insert_entry(e, k, v)) == insert_entry(
            list_view(e),
            k,
            v@.map_values(|s: String| s@),
        ),
{
    let w = list_view(e);
    let vv = v@.map_values(|s: String| s@);
    if exists|i: int| 0 <= i < e.len() && e[i].0 == k {
        let i = choose|i: int| 0 <= i < e.len() && e[i].0 == k;
        assert(w[i].0 == k);
        let j = choose|j: int| 0 <= j < w.len() && w[j].0 == k;
        assert(e[j].0 == k);
        assert(i == j);
        assert(list_view(e.update(i, (k, v))) =~= w.update(j, (k, vv)));
    } else {
        assert forall|j: int| 0 <= j < w.len() implies w[j].0 != k by {
            assert(e[j].0 == w[j].0);
        }
        assert(list_view(e.push((k, v))) =~= w.push((k, vv)));
    }
}

/// After storing `v` under `k`, looking up `k` gives `v`, and looking up
/// any other key gives what it gave before.
pub proof fn law_insert_then_lookup<V>(e: Seq<(Seq<char>, V)>, k: Seq<char>, v: V, other: Seq<char>)
    requires
        keys_distinct(e),
        other != k,
    ensures
        lookup(insert_entry(e, k, v), k) == Some(v),
        lookup(insert_entry(e, k, v), other) == lookup(e, other),
{
    let e2 = insert_entry(e, k, v);
    lemma_insert_distinct(e, k, v);
    if exists|i: int| 0 <= i < e.len() && e[i].0 == k {
        let i = choose|i: int| 0 <= i < e.len() && e[i].0 == k;
        assert(e2[i] == (k, v));
        let j = choose|j: int| 0 <= j < e2.len() && e2[j].0 == k;
        assert(i == j);
        if exists|a: int| 0 <= a < e.len() && e[a].0 == other {
            let a = choose|a: int| 0 <= a < e.len() && e[a].0 == other;
            assert(e2[a] == e[a]);
            let b = choose|b: int| 0 <= b < e2.len() && e2[b].0 == other;
            assert(a == b);
        } else {
            assert forall|b: int| 0 <= b < e2.len() implies e2[b].0 != other by {
                if b != i {
                    assert(e2[b] == e[b]);
                }
            }
        }
    } else {
        assert(e2 == e.push((k, v)));
        assert(e2[e.len() as int] == (k, v));
        let j = choose|j: int| 0 <= j < e2.len() && e2[j].0 == k;
        assert(j == e.len());
        if exists|a: int| 0 <= a < e.len() && e[a].0 == other {
            let a = choose|a: int| 0 <= a < e.len() && e[a].0 == other;
            assert(e2[a] == e[a]);
            let b = choose|b: int| 0 <= b < e2.len() && e2[b].0 == other;
            assert(a == b);
        } else {
            assert forall|b: int| 0 <= b < e2.len() implies e2[b].0 != other by {
                if b < e.len() {
                    assert(e2[b] == e[b]);
                }
            }
        }
    }
}

} // verus!
