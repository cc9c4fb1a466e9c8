//! A string-to-string table kept in insertion order.
//!
//! Used where the tool keeps a `HashMap<String, String>`: `[vars]`, rule
//! environments and the lock file. The entries are a vector of pairs with no
//! key twice; the view is the map they spell out.

use vstd::prelude::*;

use crate::text::{chars_eq, to_chars};

verus! {

/// Whether two strings hold the same characters.
pub fn str_eq(a: &str, b: &str) -> (r: bool)
    ensures
        r == (a@ == b@),
{
    let x = to_chars(a);
    let y = to_chars(b);
    chars_eq(x.as_slice(), y.as_slice())
}

/// A copy of a string.
pub fn copy_string(s: &String) -> (r: String)
    ensures
        r@ == s@,
{
    s.clone()
}

/// No key occurs twice in a sequence of pairs.
pub open spec fn distinct_keys(e: Seq<(Seq<char>, Seq<char>)>) -> bool {
    forall|i: int, j: int|
        #![trigger e[i], e[j]]
        0 <= i < e.len() && 0 <= j < e.len() && i != j ==> e[i].0 != e[j].0
}

/// Some pair of the sequence has key `k`.
pub open spec fn has_key(e: Seq<(Seq<char>, Seq<char>)>, k: Seq<char>) -> bool {
    exists|i: int| 0 <= i < e.len() && #[trigger] e[i].0 == k
}

/// The map spelled out by a sequence of pairs with distinct keys.
pub open spec fn pairs_map(e: Seq<(Seq<char>, Seq<char>)>) -> Map<Seq<char>, Seq<char>>
    decreases e.len(),
{
    if e.len() == 0 {
        Map::empty()
    } else {
        pairs_map(e.drop_last()).insert(e.last().0, e.last().1)
    }
}

/// A table from strings to strings.
#[derive(Debug)]
pub struct StrMap {
    entries: Vec<(String, String)>,
}

impl StrMap {
    /// The entries, in insertion order, by view.
    pub closed spec fn entries(&self) -> Seq<(Seq<char>, Seq<char>)> {
        self.entries@.map_values(|p: (String, String)| (p.0@, p.1@))
    }

    #[verifier::type_invariant]
    closed spec fn keys_distinct(&self) -> bool {
        distinct_keys(self.entries())
    }

    /// The map the table holds.
    pub closed spec fn view(&self) -> Map<Seq<char>, Seq<char>> {
        pairs_map(self.entries())
    }

    /// The number of entries.
    pub closed spec fn count(&self) -> nat {
        self.entries@.len()
    }

    /// An empty table.
    pub fn new() -> (m: Self)
        ensures
            m.view() == Map::<Seq<char>, Seq<char>>::empty(),
            m.count() == 0,
            m.entries() == Seq::<(Seq<char>, Seq<char>)>::empty(),
    {
        let m = StrMap { entries: Vec::new() };
        assert(m.entries() =~= Seq::<(Seq<char>, Seq<char>)>::empty());
        m
    }

    /// The number of entries, which is the number of keys. The entries
    /// hold distinct keys and spell out the map.
    pub fn len(&self) -> (n: usize)
        ensures
            n == self.count(),
            n == self.entries().len(),
            n == self.view().dom().len(),
            self.view().dom().finite(),
            distinct_keys(self.entries()),
            forall|k: Seq<char>|
                #![trigger self.view().contains_key(k)]
                self.view().contains_key(k) <==> has_key(self.entries(), k),
            forall|i: int|
                0 <= i < n ==> self.view().contains_key(#[trigger] self.entries()[i].0)
                    && self.view()[self.entries()[i].0] == self.entries()[i].1,
    {
        proof {
            use_type_invariant(self);
            lemma_pairs_map(self.entries());
            lemma_pairs_map_len(self.entries());
        }
        self.entries.len()
    }

    /// The key of the `i`-th entry.
    pub fn key_at(&self, i: usize) -> (k: &String)
        requires
            i < self.count(),
        ensures
            k@ == self.entries()[i as int].0,
    {
        &self.entries[i].0
    }

    /// The value of the `i`-th entry.
    pub fn value_at(&self, i: usize) -> (v: &String)
        requires
            i < self.count(),
        ensures
            v@ == self.entries()[i as int].1,
    {
        &self.entries[i].1
    }

    /// The position of `key` among the entries, if present.
    fn position(&self, key: &str) -> (r: Option<usize>)
        ensures
            match r {
                Some(i) => i < self.count() && self.entries()[i as int].0 == key@,
                None => !has_key(self.entries(), key@),
            },
    {
        let mut i: usize = 0;
        while i < self.entries.len()
            invariant
                i <= self.entries@.len(),
                forall|j: int| 0 <= j < i ==> self.entries()[j].0 != key@,
            decreases self.entries@.len() - i,
        {
            if str_eq(self.entries[i].0.as_str(), key) {
                return Some(i);
            }
            i = i + 1;
        }
        None
    }

    /// The value stored under `key`, if any.
    pub fn get(&self, key: &str) -> (v: Option<&String>)
        ensures
            v is Some == self.view().contains_key(key@),
            v is Some ==> v->0@ == self.view()[key@],
    {
        proof {
            use_type_invariant(self);
            lemma_pairs_map(self.entries());
        }
        match self.position(key) {
            Some(i) => Some(&self.entries[i].1),
            None => None,
        }
    }

    /// Whether `key` has an entry.
    pub fn contains_key(&self, key: &str) -> (b: bool)
        ensures
            b == self.view().contains_key(key@),
    {
        proof {
            use_type_invariant(self);
            lemma_pairs_map(self.entries());
        }
        self.position(key).is_some()
    }

    /// Stores `value` under `key`, replacing an earlier value in place or
    /// appending a new entry.
    pub fn insert(&mut self, key: String, value: String)
        ensures
            final(self).view() == old(self).view().insert(key@, value@),
            old(self).view().contains_key(key@) ==> final(self).count() == old(self).count(),
            !old(self).view().contains_key(key@) ==> final(self).count() == old(self).count()
                + 1,
    {
        proof {
            use_type_invariant(&*self);
            lemma_pairs_map(self.entries());
        }
        let ghost old_e = self.entries();
        match self.position(key.as_str()) {
            Some(i) => {
                let ghost k = key@;
                let ghost v = value@;
                let mut entries = Vec::new();
                std::mem::swap(&mut entries, &mut self.entries);
                entries.set(i, (key, value));
                let ghost new_e = old_e.update(i as int, (k, v));
                assert(entries@.map_values(|p: (String, String)| (p.0@, p.1@)) =~= new_e);
                proof {
                    lemma_pairs_map_update(old_e, i as int, v);
                }
                self.entries = entries;
            },
            None => {
                let ghost k = key@;
                let ghost v = value@;
                let mut entries = Vec::new();
                std::mem::swap(&mut entries, &mut self.entries);
                entries.push((key, value));
                let ghost new_e = old_e.push((k, v));
                assert(entries@.map_values(|p: (String, String)| (p.0@, p.1@)) =~= new_e);
                assert(new_e.drop_last() =~= old_e);
                assert(distinct_keys(new_e)) by {
                    assert forall|a: int, b: int|
                        0 <= a < new_e.len() && 0 <= b < new_e.len() && a != b implies new_e[a].0
                        != new_e[b].0 by {
                        if a < old_e.len() && b < old_e.len() {
                            assert(new_e[a] == old_e[a] && new_e[b] == old_e[b]);
                        } else if a < old_e.len() {
                            assert(new_e[a] == old_e[a]);
                        } else {
                            assert(new_e[b] == old_e[b]);
                        }
                    }
                }
                self.entries = entries;
            },
        }
    }

    /// Removes the entry for `key`, if any, keeping the others in order.
    pub fn remove(&mut self, key: &str)
        ensures
            final(self).view() == old(self).view().remove(key@),
    {
        proof {
            use_type_invariant(&*self);
            lemma_pairs_map(self.entries());
        }
        let ghost old_e = self.entries();
        match self.position(key) {
            Some(i) => {
                let mut entries = Vec::new();
                std::mem::swap(&mut entries, &mut self.entries);
                let _ = entries.remove(i);
                let ghost new_e = old_e.remove(i as int);
                assert(entries@.map_values(|p: (String, String)| (p.0@, p.1@)) =~= new_e);
                proof {
                    lemma_pairs_map_remove(old_e, i as int);
                }
                self.entries = entries;
            },
            None => {
                assert(self.view().remove(key@) =~= self.view());
            },
        }
    }

    /// A copy of the table, with its entries in the same order.
    pub fn duplicate(&self) -> (m: Self)
        ensures
            m.view() == self.view(),
            m.entries() == self.entries(),
            m.count() == self.count(),
    {
        proof {
            use_type_invariant(self);
        }
        let mut entries: Vec<(String, String)> = Vec::new();
        let mut i: usize = 0;
        while i < self.entries.len()
            invariant
                i <= self.entries@.len(),
                entries@.len() == i,
                forall|j: int|
                    0 <= j < i ==> #[trigger] entries@[j].0@ == self.entries@[j].0@
                        && entries@[j].1@ == self.entries@[j].1@,
            decreases self.entries@.len() - i,
        {
            let k = copy_string(&self.entries[i].0);
            let v = copy_string(&self.entries[i].1);
            entries.push((k, v));
            i = i + 1;
        }
        assert(entries@.map_values(|p: (String, String)| (p.0@, p.1@)) =~= self.entries());
        let m = StrMap { entries };
        m
    }
}

impl Clone for StrMap {
    fn clone(&self) -> (m: Self)
        ensures
            m.view() == self.view(),
    {
        self.duplicate()
    }
}

/// No name occurs twice in a sequence of named items.
pub open spec fn distinct_names<T>(e: Seq<(Seq<char>, T)>) -> bool {
    forall|i: int, j: int|
        #![trigger e[i], e[j]]
        0 <= i < e.len() && 0 <= j < e.len() && i != j ==> e[i].0 != e[j].0
}

/// The position of the item named `k`, or -1.
pub open spec fn name_index<T>(e: Seq<(Seq<char>, T)>, k: Seq<char>) -> int {
    if exists|i: int| 0 <= i < e.len() && #[trigger] e[i].0 == k {
        choose|i: int| 0 <= i < e.len() && #[trigger] e[i].0 == k
    } else {
        -1
    }
}

/// With distinct names, the item named `e[i].0` is at `i`.
pub proof fn lemma_name_index<T>(e: Seq<(Seq<char>, T)>, i: int)
    requires
        distinct_names(e),
        0 <= i < e.len(),
    ensures
        name_index(e, e[i].0) == i,
{
    let k = name_index(e, e[i].0);
    assert(0 <= k < e.len() && e[k].0 == e[i].0);
}

/// Named items, in insertion order, no name twice (a `HashMap<String, T>`
/// of the tool, with a deterministic order).
#[derive(Debug)]
pub struct Table<T> {
    entries: Vec<(String, T)>,
}

impl<T> Table<T> {
    /// The names and items, in order.
    pub closed spec fn entries(&self) -> Seq<(Seq<char>, T)> {
        self.entries@.map_values(|p: (String, T)| (p.0@, p.1))
    }

    #[verifier::type_invariant]
    closed spec fn names_distinct(&self) -> bool {
        distinct_names(self.entries())
    }

    /// An empty table.
    pub fn new() -> (t: Self)
        ensures
            t.entries() == Seq::<(Seq<char>, T)>::empty(),
    {
        let t = Table { entries: Vec::new() };
        assert(t.entries() =~= Seq::<(Seq<char>, T)>::empty());
        t
    }

    /// The number of items; the names are distinct.
    pub fn len(&self) -> (n: usize)
        ensures
            n == self.entries().len(),
            distinct_names(self.entries()),
    {
        proof {
            use_type_invariant(self);
        }
        self.entries.len()
    }

    /// The name of the `i`-th item.
    pub fn name_at(&self, i: usize) -> (k: &String)
        requires
            i < self.entries().len(),
        ensures
            k@ == self.entries()[i as int].0,
    {
        &self.entries[i].0
    }

    /// The `i`-th item.
    pub fn item_at(&self, i: usize) -> (v: &T)
        requires
            i < self.entries().len(),
        ensures
            *v == self.entries()[i as int].1,
    {
        &self.entries[i].1
    }

    /// The position of the item named `key`, if any.
    pub fn find(&self, key: &str) -> (r: Option<usize>)
        ensures
            match r {
                Some(i) => i < self.entries().len() && i == name_index(self.entries(), key@),
                None => name_index(self.entries(), key@) == -1,
            },
    {
        proof {
            use_type_invariant(self);
        }
        let mut i: usize = 0;
        while i < self.entries.len()
            invariant
                i <= self.entries@.len(),
                distinct_names(self.entries()),
                forall|j: int| 0 <= j < i ==> self.entries()[j].0 != key@,
            decreases self.entries@.len() - i,
        {
            if str_eq(self.entries[i].0.as_str(), key) {
                proof {
                    lemma_name_index(self.entries(), i as int);
                }
                return Some(i);
            }
            i = i + 1;
        }
        None
    }

    /// The item named `key`, if any.
    pub fn get(&self, key: &str) -> (v: Option<&T>)
        ensures
            v is Some == (name_index(self.entries(), key@) >= 0),
            v is Some ==> *v->0 == self.entries()[name_index(self.entries(), key@)].1,
    {
        match self.find(key) {
            Some(i) => Some(&self.entries[i].1),
            None => None,
        }
    }

    /// Adds an item under a name no item has yet.
    pub fn push(&mut self, name: String, item: T)
        requires
            name_index(old(self).entries(), name@) == -1,
        ensures
            final(self).entries() == old(self).entries().push((name@, item)),
    {
        proof {
            use_type_invariant(&*self);
        }
        let ghost old_e = self.entries();
        let ghost k = name@;
        let mut entries = Vec::new();
        std::mem::swap(&mut entries, &mut self.entries);
        entries.push((name, item));
        let ghost new_e = old_e.push((k, item));
        assert(entries@.map_values(|p: (String, T)| (p.0@, p.1)) =~= new_e);
        assert(distinct_names(new_e)) by {
            assert forall|a: int, b: int|
                0 <= a < new_e.len() && 0 <= b < new_e.len() && a != b implies new_e[a].0
                != new_e[b].0 by {
                if a < old_e.len() && b < old_e.len() {
                    assert(new_e[a] == old_e[a] && new_e[b] == old_e[b]);
                } else if a < old_e.len() {
                    assert(new_e[a] == old_e[a]);
                    assert(old_e[a].0 == k ==> name_index(old_e, k) >= 0);
                } else {
                    assert(new_e[b] == old_e[b]);
                    assert(old_e[b].0 == k ==> name_index(old_e, k) >= 0);
                }
            }
        }
        self.entries = entries;
    }
}

/// Keys and lookups of `pairs_map`.
pub proof fn lemma_pairs_map(e: Seq<(Seq<char>, Seq<char>)>)
    requires
        distinct_keys(e),
    ensures
        forall|k: Seq<char>| #[trigger] pairs_map(e).contains_key(k) <==> has_key(e, k),
        forall|i: int| 0 <= i < e.len() ==> pairs_map(e)[#[trigger] e[i].0] == e[i].1,
    decreases e.len(),
{
    if e.len() > 0 {
        let t = e.drop_last();
        lemma_pairs_map(t);
        assert forall|k: Seq<char>| #[trigger] pairs_map(e).contains_key(k) <==> has_key(e, k) by {
            assert(pairs_map(e).contains_key(k) == (pairs_map(t).contains_key(k) || k
                == e.last().0));
            if has_key(e, k) {
                let j = choose|j: int| 0 <= j < e.len() && #[trigger] e[j].0 == k;
                if j < t.len() {
                    assert(t[j].0 == k);
                }
            }
            if has_key(t, k) {
                let j = choose|j: int| 0 <= j < t.len() && #[trigger] t[j].0 == k;
                assert(e[j].0 == k);
            }
            if k == e.last().0 {
                assert(e[e.len() - 1].0 == k);
            }
        }
        assert forall|i: int| 0 <= i < e.len() implies pairs_map(e)[#[trigger] e[i].0] == e[i].1 by {
            if i < e.len() - 1 {
                assert(e[i].0 != e[e.len() - 1].0);
                assert(t[i] == e[i]);
            }
        }
    }
}

/// The size of the domain of `pairs_map` is the number of pairs.
proof fn lemma_pairs_map_len(e: Seq<(Seq<char>, Seq<char>)>)
    requires
        distinct_keys(e),
    ensures
        pairs_map(e).dom().finite(),
        pairs_map(e).dom().len() == e.len(),
    decreases e.len(),
{
    if e.len() > 0 {
        let t = e.drop_last();
        lemma_pairs_map_len(t);
        lemma_pairs_map(t);
        if has_key(t, e.last().0) {
            let j = choose|j: int| 0 <= j < t.len() && #[trigger] t[j].0 == e.last().0;
            assert(e[j] == t[j]);
        }
        assert(!pairs_map(t).contains_key(e.last().0));
    }
}

/// Replacing the value of an entry replaces it in the map.
proof fn lemma_pairs_map_update(e: Seq<(Seq<char>, Seq<char>)>, i: int, v: Seq<char>)
    requires
        distinct_keys(e),
        0 <= i < e.len(),
    ensures
        distinct_keys(e.update(i, (e[i].0, v))),
        pairs_map(e.update(i, (e[i].0, v))) == pairs_map(e).insert(e[i].0, v),
{
    let u = e.update(i, (e[i].0, v));
    assert forall|a: int, b: int| 0 <= a < u.len() && 0 <= b < u.len() && a != b implies u[a].0
        != u[b].0 by {
        assert(u[a].0 == e[a].0 && u[b].0 == e[b].0);
    }
    lemma_pairs_map(e);
    lemma_pairs_map(u);
    assert forall|k: Seq<char>| #[trigger] pairs_map(u).contains_key(k) <==> pairs_map(e).insert(
        e[i].0,
        v,
    ).contains_key(k) by {
        if has_key(u, k) {
            let j = choose|j: int| 0 <= j < u.len() && #[trigger] u[j].0 == k;
            assert(e[j].0 == k);
        }
        if has_key(e, k) {
            let j = choose|j: int| 0 <= j < e.len() && #[trigger] e[j].0 == k;
            assert(u[j].0 == k);
        }
    }
    assert forall|k: Seq<char>| #[trigger] pairs_map(u).contains_key(k) implies pairs_map(u)[k]
        == pairs_map(e).insert(e[i].0, v)[k] by {
        let j = choose|j: int| 0 <= j < u.len() && #[trigger] u[j].0 == k;
        if j != i {
            assert(u[j] == e[j]);
        }
    }
    assert(pairs_map(u) =~= pairs_map(e).insert(e[i].0, v));
}

/// Removing an entry removes its key from the map.
proof fn lemma_pairs_map_remove(e: Seq<(Seq<char>, Seq<char>)>, i: int)
    requires
        distinct_keys(e),
        0 <= i < e.len(),
    ensures
        distinct_keys(e.remove(i)),
        pairs_map(e.remove(i)) == pairs_map(e).remove(e[i].0),
{
    let r = e.remove(i);
    assert forall|a: int, b: int| 0 <= a < r.len() && 0 <= b < r.len() && a != b implies r[a].0
        != r[b].0 by {
        let a2 = if a < i {
            a
        } else {
            a + 1
        };
        let b2 = if b < i {
            b
        } else {
            b + 1
        };
        assert(r[a] == e[a2] && r[b] == e[b2]);
    }
    lemma_pairs_map(e);
    lemma_pairs_map(r);
    assert forall|k: Seq<char>| #[trigger] pairs_map(r).contains_key(k) <==> pairs_map(e).remove(
        e[i].0,
    ).contains_key(k) by {
        if has_key(r, k) {
            let j = choose|j: int| 0 <= j < r.len() && #[trigger] r[j].0 == k;
            let j2 = if j < i {
                j
            } else {
                j + 1
            };
            assert(r[j] == e[j2]);
            assert(e[j2].0 != e[i].0);
        }
        if has_key(e, k) && k != e[i].0 {
            let j = choose|j: int| 0 <= j < e.len() && #[trigger] e[j].0 == k;
            assert(j != i);
            let j2 = if j < i {
                j
            } else {
                j - 1
            };
            assert(r[j2] == e[j]);
        }
    }
    assert forall|k: Seq<char>| #[trigger] pairs_map(r).contains_key(k) implies pairs_map(r)[k]
        == pairs_map(e)[k] by {
        let j = choose|j: int| 0 <= j < r.len() && #[trigger] r[j].0 == k;
        let j2 = if j < i {
            j
        } else {
            j + 1
        };
        assert(r[j] == e[j2]);
    }
    assert(pairs_map(r) =~= pairs_map(e).remove(e[i].0));
}

} // verus!
