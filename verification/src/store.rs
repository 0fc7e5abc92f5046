//! Maps and sets keyed by strings.
//!
//! [`StrMap`] keeps `(key, value)` entries in insertion order with no key
//! occurring twice; its view is the finite map from key text to value.
//! [`StrSet`] is a [`StrMap`] with unit values, viewed as a set of texts.
use vstd::prelude::*;
use crate::text::texts;

verus! {

broadcast use vstd::string::group_string_axioms;

/// Whether some entry of `s` has key text `k`.
pub open spec fn has_key<V>(s: Seq<(String, V)>, k: Seq<char>) -> bool {
    exists|i: int| 0 <= i < s.len() && #[trigger] s[i].0@ == k
}

/// The index of an entry of `s` with key text `k` (meaningful when one exists).
pub open spec fn index_of_key<V>(s: Seq<(String, V)>, k: Seq<char>) -> int {
    choose|i: int| 0 <= i < s.len() && #[trigger] s[i].0@ == k
}

/// No two entries of `s` share a key text.
pub open spec fn keys_unique<V>(s: Seq<(String, V)>) -> bool {
    forall|i: int, j: int|
        0 <= i < s.len() && 0 <= j < s.len() && i != j ==> #[trigger] s[i].0@ != #[trigger] s[j].0@
}

/// The map that a sequence of entries with unique keys stands for.
pub open spec fn entries_map<V>(s: Seq<(String, V)>) -> Map<Seq<char>, V> {
    Map::new(|k: Seq<char>| has_key(s, k), |k: Seq<char>| s[index_of_key(s, k)].1)
}

/// The key texts of `s`, in order.
pub open spec fn key_texts<V>(s: Seq<(String, V)>) -> Seq<Seq<char>> {
    s.map_values(|e: (String, V)| e.0@)
}

/// In a sequence with unique keys, the entry at `i` is the one the map gives
/// for its key.
pub proof fn lemma_entry_in_map<V>(s: Seq<(String, V)>, i: int)
    requires
        keys_unique(s),
        0 <= i < s.len(),
    ensures
        entries_map(s).dom().contains(s[i].0@),
        entries_map(s)[s[i].0@] == s[i].1,
        index_of_key(s, s[i].0@) == i,
{
    assert(has_key(s, s[i].0@));
    let j = index_of_key(s, s[i].0@);
    assert(s[j].0@ == s[i].0@);
}

/// The domain of the map of `s` is the set of its key texts, and with unique
/// keys it has as many members as `s` has entries.
pub proof fn lemma_map_len<V>(s: Seq<(String, V)>)
    requires
        keys_unique(s),
    ensures
        entries_map(s).dom() == key_texts(s).to_set(),
        entries_map(s).dom().len() == s.len(),
        entries_map(s).dom().finite(),
{
    let ks = key_texts(s);
    assert forall|k: Seq<char>| entries_map(s).dom().contains(k) <==> ks.to_set().contains(k) by {
        if has_key(s, k) {
            let i = index_of_key(s, k);
            assert(ks[i] == k);
        }
        if ks.to_set().contains(k) {
            let i = choose|i: int| 0 <= i < ks.len() && ks[i] == k;
            assert(s[i].0@ == k);
        }
    }
    assert(entries_map(s).dom() =~= ks.to_set());
    assert(ks.no_duplicates()) by {
        assert forall|i: int, j: int| 0 <= i < ks.len() && 0 <= j < ks.len() && i != j implies ks[i]
            != ks[j] by {
            assert(s[i].0@ != s[j].0@);
        }
    }
    ks.unique_seq_to_set();
}

/// Removing entry `i` from a sequence with unique keys removes its key from the
/// map and keeps the keys unique.
pub proof fn lemma_map_remove<V>(s: Seq<(String, V)>, i: int)
    requires
        keys_unique(s),
        0 <= i < s.len(),
    ensures
        keys_unique(s.remove(i)),
        entries_map(s.remove(i)) == entries_map(s).remove(s[i].0@),
{
    let t = s.remove(i);
    assert forall|a: int, b: int| 0 <= a < t.len() && 0 <= b < t.len() && a != b implies #[trigger] t[a].0@
        != #[trigger] t[b].0@ by {
        let a2 = if a < i { a } else { a + 1 };
        let b2 = if b < i { b } else { b + 1 };
        assert(t[a] == s[a2]);
        assert(t[b] == s[b2]);
    }
    let m = entries_map(s).remove(s[i].0@);
    assert forall|k: Seq<char>| entries_map(t).dom().contains(k) <==> m.dom().contains(k) by {
        if has_key(t, k) {
            let a = index_of_key(t, k);
            let a2 = if a < i { a } else { a + 1 };
            assert(t[a] == s[a2]);
            assert(has_key(s, k));
        }
        if m.dom().contains(k) {
            let a = index_of_key(s, k);
            assert(a != i);
            let a1 = if a < i { a } else { a - 1 };
            assert(t[a1] == s[a]);
            assert(has_key(t, k));
        }
    }
    assert forall|k: Seq<char>| #[trigger] entries_map(t).dom().contains(k) implies entries_map(t)[k]
        == m[k] by {
        let a = index_of_key(t, k);
        let a2 = if a < i { a } else { a + 1 };
        assert(t[a] == s[a2]);
        lemma_entry_in_map(s, a2);
    }
    assert(entries_map(t) =~= m);
}

/// Appending an entry with a fresh key adds it to the map.
pub proof fn lemma_map_push<V>(s: Seq<(String, V)>, k: String, v: V)
    requires
        keys_unique(s),
        !has_key(s, k@),
    ensures
        keys_unique(s.push((k, v))),
        entries_map(s.push((k, v))) == entries_map(s).insert(k@, v),
{
    let t = s.push((k, v));
    assert forall|a: int, b: int| 0 <= a < t.len() && 0 <= b < t.len() && a != b implies #[trigger] t[a].0@
        != #[trigger] t[b].0@ by {
        if a < s.len() && b < s.len() {
            assert(t[a] == s[a] && t[b] == s[b]);
        } else if a < s.len() {
            assert(t[a] == s[a]);
        } else {
            assert(t[b] == s[b]);
        }
    }
    let m = entries_map(s).insert(k@, v);
    assert forall|q: Seq<char>| entries_map(t).dom().contains(q) <==> m.dom().contains(q) by {
        if has_key(t, q) && q != k@ {
            let a = index_of_key(t, q);
            assert(a < s.len());
            assert(t[a] == s[a]);
        }
        if m.dom().contains(q) {
            if q == k@ {
                assert(t[s.len() as int].0@ == q);
            } else {
                let a = index_of_key(s, q);
                assert(t[a] == s[a]);
            }
        }
    }
    assert forall|q: Seq<char>| #[trigger] entries_map(t).dom().contains(q) implies entries_map(t)[q]
        == m[q] by {
        lemma_entry_in_map(t, index_of_key(t, q));
        let a = index_of_key(t, q);
        if a < s.len() {
            assert(t[a] == s[a]);
            lemma_entry_in_map(s, a);
        }
    }
    assert(entries_map(t) =~= m);
}

/// Replacing the value of entry `i` (keeping its key) updates the map there.
pub proof fn lemma_map_update<V>(s: Seq<(String, V)>, i: int, k: String, v: V)
    requires
        keys_unique(s),
        0 <= i < s.len(),
        k@ == s[i].0@,
    ensures
        keys_unique(s.update(i, (k, v))),
        entries_map(s.update(i, (k, v))) == entries_map(s).insert(k@, v),
{
    let t = s.update(i, (k, v));
    assert forall|a: int, b: int| 0 <= a < t.len() && 0 <= b < t.len() && a != b implies #[trigger] t[a].0@
        != #[trigger] t[b].0@ by {
        assert(t[a].0@ == s[a].0@ && t[b].0@ == s[b].0@);
    }
    let m = entries_map(s).insert(k@, v);
    assert forall|q: Seq<char>| entries_map(t).dom().contains(q) <==> m.dom().contains(q) by {
        if has_key(t, q) {
            let a = index_of_key(t, q);
            assert(t[a].0@ == s[a].0@);
        }
        if m.dom().contains(q) {
            if q == k@ {
                assert(t[i].0@ == q);
            } else {
                let a = index_of_key(s, q);
                assert(t[a].0@ == s[a].0@);
            }
        }
    }
    assert forall|q: Seq<char>| #[trigger] entries_map(t).dom().contains(q) implies entries_map(t)[q]
        == m[q] by {
        let a = index_of_key(t, q);
        lemma_entry_in_map(t, a);
        if a != i {
            assert(t[a] == s[a]);
            lemma_entry_in_map(s, a);
        }
    }
    assert(entries_map(t) =~= m);
}

/// A map from strings to values, kept as entries in insertion order.
#[derive(Debug)]
pub struct StrMap<V> {
    entries: Vec<(String, V)>,
}

impl<V> View for StrMap<V> {
    type V = Map<Seq<char>, V>;

    closed spec fn view(&self) -> Map<Seq<char>, V> {
        entries_map(self.entries@)
    }
}

impl<V> StrMap<V> {
    /// No key occurs twice among the entries.
    #[verifier::type_invariant]
    closed spec fn inv(&self) -> bool {
        keys_unique(self.entries@)
    }

    /// The entries in insertion order.
    pub closed spec fn entries(&self) -> Seq<(String, V)> {
        self.entries@
    }

    /// The view is the map of the entries, and it is finite with one key per
    /// entry.
    pub proof fn lemma_view(&self)
        requires
            keys_unique(self.entries()),
        ensures
            self@ == entries_map(self.entries()),
            self@.dom().finite(),
            self@.dom().len() == self.entries().len(),
    {
        lemma_map_len(self.entries@);
    }

    /// An empty map.
    pub fn new() -> (m: StrMap<V>)
        ensures
            m@ == Map::<Seq<char>, V>::empty(),
            m.entries().len() == 0,
    {
        let m = StrMap { entries: Vec::new() };
        assert(m@ =~= Map::<Seq<char>, V>::empty());
        m
    }

    /// The number of entries.
    pub fn len(&self) -> (n: usize)
        ensures
            n == self@.dom().len(),
            n == self.entries().len(),
            keys_unique(self.entries()),
            self@ == entries_map(self.entries()),
    {
        proof {
            use_type_invariant(self);
            lemma_map_len(self.entries@);
        }
        self.entries.len()
    }

    /// Whether the map has no entries.
    pub fn is_empty(&self) -> (b: bool)
        ensures
            b == (self@.dom().len() == 0),
    {
        self.len() == 0
    }

    /// The position of the entry with key `k`, if any.
    pub fn position(&self, k: &str) -> (r: Option<usize>)
        ensures
            r is None <==> !self@.dom().contains(k@),
            r matches Some(i) ==> i < self.entries().len() && self.entries()[i as int].0@ == k@,
    {
        proof {
            use_type_invariant(self);
        }
        let key = k.to_string();
        let mut i: usize = 0;
        while i < self.entries.len()
            invariant
                i <= self.entries@.len(),
                key@ == k@,
                forall|j: int| 0 <= j < i ==> self.entries@[j].0@ != k@,
            decreases self.entries@.len() - i,
        {
            if self.entries[i].0 == key {
                return Some(i);
            }
            i += 1;
        }
        None
    }

    /// Whether some entry has key `k`.
    pub fn contains_key(&self, k: &str) -> (b: bool)
        ensures
            b == self@.dom().contains(k@),
    {
        self.position(k).is_some()
    }

    /// The value stored under `k`, if any.
    pub fn get(&self, k: &str) -> (r: Option<&V>)
        ensures
            r is None <==> !self@.dom().contains(k@),
            r matches Some(v) ==> *v == self@[k@],
    {
        match self.position(k) {
            Some(i) => {
                proof {
                    use_type_invariant(self);
                    lemma_entry_in_map(self.entries@, i as int);
                }
                Some(&self.entries[i].1)
            },
            None => None,
        }
    }

    /// The key of entry `i`.
    pub fn key_at(&self, i: usize) -> (k: &String)
        requires
            i < self.entries().len(),
        ensures
            *k == self.entries()[i as int].0,
            self@.dom().contains(k@),
    {
        proof {
            use_type_invariant(self);
            lemma_entry_in_map(self.entries@, i as int);
        }
        &self.entries[i].0
    }

    /// The value of entry `i`.
    pub fn value_at(&self, i: usize) -> (v: &V)
        requires
            i < self.entries().len(),
        ensures
            *v == self.entries()[i as int].1,
            *v == self@[self.entries()[i as int].0@],
    {
        proof {
            use_type_invariant(self);
            lemma_entry_in_map(self.entries@, i as int);
        }
        &self.entries[i].1
    }

    /// Stores `v` under `k`, replacing and returning any earlier value.
    pub fn insert(&mut self, k: String, v: V) -> (old_v: Option<V>)
        ensures
            final(self)@ == old(self)@.insert(k@, v),
            old(self)@.dom().contains(k@) ==> old_v == Some(old(self)@[k@]),
            !old(self)@.dom().contains(k@) ==> old_v is None,
            old(self)@.dom().contains(k@) ==> key_texts(final(self).entries()) == key_texts(old(self).entries()),
            !old(self)@.dom().contains(k@) ==> key_texts(final(self).entries()) == key_texts(
                old(self).entries(),
            ).push(k@),
    {
        proof {
            use_type_invariant(&*self);
        }
        let ghost k_text = k@;
        match self.position(k.as_str()) {
            Some(i) => {
                proof {
                    lemma_entry_in_map(self.entries@, i as int);
                    lemma_map_update(self.entries@, i as int, k, v);
                }
                let ghost before = self.entries@;
                let mut entries: Vec<(String, V)> = Vec::new();
                std::mem::swap(&mut entries, &mut self.entries);
                let (_, prev) = entries.remove(i);
                entries.insert(i, (k, v));
                assert(entries@ =~= before.update(i as int, (k, v)));
                self.entries = entries;
                assert(key_texts(self.entries()) =~= key_texts(old(self).entries()));
                Some(prev)
            },
            None => {
                proof {
                    lemma_map_push(self.entries@, k, v);
                }
                let mut entries: Vec<(String, V)> = Vec::new();
                std::mem::swap(&mut entries, &mut self.entries);
                entries.push((k, v));
                self.entries = entries;
                assert(key_texts(self.entries()) =~= key_texts(old(self).entries()).push(k_text));
                None
            },
        }
    }

    /// The entries, in insertion order, giving up the map.
    pub fn into_entries(self) -> (es: Vec<(String, V)>)
        ensures
            es@ == self.entries(),
            keys_unique(es@),
            entries_map(es@) == self@,
    {
        proof {
            use_type_invariant(&self);
        }
        let StrMap { entries } = self;
        entries
    }

    /// Removes the entry with key `k`, returning its value if there was one.
    pub fn remove(&mut self, k: &str) -> (old_v: Option<V>)
        ensures
            final(self)@ == old(self)@.remove(k@),
            old(self)@.dom().contains(k@) ==> old_v == Some(old(self)@[k@]),
            !old(self)@.dom().contains(k@) ==> old_v is None,
    {
        proof {
            use_type_invariant(&*self);
        }
        match self.position(k) {
            Some(i) => {
                proof {
                    lemma_entry_in_map(self.entries@, i as int);
                    lemma_map_remove(self.entries@, i as int);
                }
                let mut entries: Vec<(String, V)> = Vec::new();
                std::mem::swap(&mut entries, &mut self.entries);
                let (_, v) = entries.remove(i);
                self.entries = entries;
                Some(v)
            },
            None => {
                assert(old(self)@.remove(k@) =~= old(self)@);
                None
            },
        }
    }
}

impl<V: Clone> Clone for StrMap<V> {
    /// A copy with the same keys in the same order; each value is cloned.
    fn clone(&self) -> (r: Self)
        ensures
            key_texts(r.entries()) == key_texts(self.entries()),
    {
        proof {
            use_type_invariant(self);
        }
        let mut entries: Vec<(String, V)> = Vec::new();
        let mut i: usize = 0;
        while i < self.entries.len()
            invariant
                i <= self.entries@.len(),
                entries@.len() == i,
                keys_unique(self.entries@),
                forall|j: int| 0 <= j < i ==> #[trigger] entries@[j].0@ == self.entries@[j].0@,
            decreases self.entries@.len() - i,
        {
            let k = self.entries[i].0.clone();
            let v = self.entries[i].1.clone();
            entries.push((k, v));
            i += 1;
        }
        assert(keys_unique(entries@)) by {
            assert forall|a: int, b: int| 0 <= a < entries@.len() && 0 <= b < entries@.len() && a != b implies #[trigger] entries@[a].0@
                != #[trigger] entries@[b].0@ by {
                assert(self.entries@[a].0@ != self.entries@[b].0@);
            }
        }
        let r = StrMap { entries };
        assert(key_texts(r.entries()) =~= key_texts(self.entries()));
        r
    }
}

impl<V> StrMap<V> {
    /// The keys whose values satisfy `p`, each listed once; `f` decides `p`.
    pub(crate) fn keys_where<F: Fn(&V) -> bool>(&self, f: F, Ghost(p): Ghost<spec_fn(V) -> bool>) -> (ks: Vec<String>)
        requires
            forall|v: &V| #[trigger] f.requires((v,)),
            forall|v: &V, b: bool| f.ensures((v,), b) ==> b == p(*v),
        ensures
            texts(ks@).to_set() == self@.dom().filter(|k: Seq<char>| p(self@[k])),
            texts(ks@).no_duplicates(),
    {
        let n = self.len();
        let ghost es = self.entries();
        let mut ks: Vec<String> = Vec::new();
        let mut i: usize = 0;
        while i < n
            invariant
                n == es.len(),
                es == self.entries(),
                keys_unique(es),
                self@ == entries_map(es),
                i <= n,
                forall|v: &V| #[trigger] f.requires((v,)),
                forall|v: &V, b: bool| f.ensures((v,), b) ==> b == p(*v),
                texts(ks@).no_duplicates(),
                forall|k: Seq<char>| texts(ks@).contains(k) <==> (exists|j: int| 0 <= j < i && #[trigger] es[j].0@ == k && p(es[j].1)),
            decreases n - i,
        {
            let v = self.value_at(i);
            let keep = f(v);
            if keep {
                let k = self.key_at(i).clone();
                let ghost before = ks@;
                ks.push(k);
                proof {
                    assert(texts(ks@) =~= texts(before).push(k@));
                    assert(!texts(before).contains(k@)) by {
                        if texts(before).contains(k@) {
                            let j = choose|j: int| 0 <= j < i && #[trigger] es[j].0@ == k@ && p(es[j].1);
                            assert(es[j].0@ == es[i as int].0@);
                        }
                    }
                    assert forall|q: Seq<char>| texts(ks@).contains(q) <==> (exists|j: int| 0 <= j < i + 1 && #[trigger] es[j].0@ == q && p(es[j].1)) by {
                        if texts(ks@).contains(q) && q != k@ {
                            assert(texts(before).contains(q)) by {
                                let x = choose|x: int| 0 <= x < texts(ks@).len() && texts(ks@)[x] == q;
                                assert(texts(before)[x] == q);
                            }
                        }
                        if exists|j: int| 0 <= j < i + 1 && #[trigger] es[j].0@ == q && p(es[j].1) {
                            let j = choose|j: int| 0 <= j < i + 1 && #[trigger] es[j].0@ == q && p(es[j].1);
                            if j == i {
                                assert(texts(ks@)[texts(before).len() as int] == q);
                            } else {
                                assert(texts(before).contains(q));
                                let x = choose|x: int| 0 <= x < texts(before).len() && texts(before)[x] == q;
                                assert(texts(ks@)[x] == q);
                            }
                        }
                    }
                }
            } else {
                proof {
                    assert forall|q: Seq<char>| texts(ks@).contains(q) <==> (exists|j: int| 0 <= j < i + 1 && #[trigger] es[j].0@ == q && p(es[j].1)) by {
                        if exists|j: int| 0 <= j < i + 1 && #[trigger] es[j].0@ == q && p(es[j].1) {
                            let j = choose|j: int| 0 <= j < i + 1 && #[trigger] es[j].0@ == q && p(es[j].1);
                            assert(j != i);
                        }
                    }
                }
            }
            i += 1;
        }
        proof {
            assert forall|q: Seq<char>| texts(ks@).to_set().contains(q) <==> self@.dom().filter(|k: Seq<char>| p(self@[k])).contains(q) by {
                if texts(ks@).contains(q) {
                    let j = choose|j: int| 0 <= j < n && #[trigger] es[j].0@ == q && p(es[j].1);
                    lemma_entry_in_map(es, j);
                }
                if self@.dom().contains(q) && p(self@[q]) {
                    let j = index_of_key(es, q);
                    lemma_entry_in_map(es, j);
                }
            }
            assert(texts(ks@).to_set() =~= self@.dom().filter(|k: Seq<char>| p(self@[k])));
        }
        ks
    }

    /// Removes every key in `keys`.
    pub fn remove_all(&mut self, keys: &Vec<String>)
        ensures
            final(self)@ == old(self)@.remove_keys(texts(keys@).to_set()),
    {
        let mut i: usize = 0;
        while i < keys.len()
            invariant
                i <= keys@.len(),
                self@ == old(self)@.remove_keys(texts(keys@).take(i as int).to_set()),
            decreases keys@.len() - i,
        {
            self.remove(keys[i].as_str());
            proof {
                let ts = texts(keys@);
                assert(ts.take(i + 1) =~= ts.take(i as int).push(ts[i as int]));
                ts.take(i as int).lemma_push_to_set_commute(ts[i as int]);
                assert(self@ =~= old(self)@.remove_keys(ts.take(i + 1).to_set()));
            }
            i += 1;
        }
        assert(texts(keys@).take(keys@.len() as int) =~= texts(keys@));
    }
}

/// A set of strings.
#[derive(Debug, Clone)]
pub struct StrSet {
    map: StrMap<()>,
}

impl View for StrSet {
    type V = Set<Seq<char>>;

    closed spec fn view(&self) -> Set<Seq<char>> {
        self.map@.dom()
    }
}

impl StrSet {
    /// The members in insertion order.
    pub closed spec fn members(&self) -> Seq<Seq<char>> {
        key_texts(self.map.entries())
    }

    /// With its members listed once each, the set is finite and has one
    /// member per listed text.
    pub proof fn lemma_view(&self)
        requires
            self.members().no_duplicates(),
        ensures
            self@.finite(),
            self@ == self.members().to_set(),
            self@.len() == self.members().len(),
    {
        let es = self.map.entries();
        let ks = self.members();
        assert forall|i: int, j: int| 0 <= i < es.len() && 0 <= j < es.len() && i != j implies #[trigger] es[i].0@
            != #[trigger] es[j].0@ by {
            assert(ks[i] == es[i].0@ && ks[j] == es[j].0@);
        }
        self.map.lemma_view();
        lemma_map_len(es);
    }

    /// An empty set.
    pub fn new() -> (s: StrSet)
        ensures
            s@ == Set::<Seq<char>>::empty(),
    {
        let s = StrSet { map: StrMap::new() };
        assert(s@ =~= Set::<Seq<char>>::empty());
        s
    }

    /// The number of members.
    pub fn len(&self) -> (n: usize)
        ensures
            n == self@.len(),
            n == self.members().len(),
            self.members().no_duplicates(),
            self@ == self.members().to_set(),
    {
        let n = self.map.len();
        proof {
            lemma_map_len(self.map.entries());
            let es = self.map.entries();
            let ks = self.members();
            assert forall|i: int, j: int| 0 <= i < ks.len() && 0 <= j < ks.len() && i != j implies ks[i]
                != ks[j] by {
                assert(ks[i] == es[i].0@ && ks[j] == es[j].0@);
            }
        }
        n
    }

    /// Whether the set has no members.
    pub fn is_empty(&self) -> (b: bool)
        ensures
            b == (self@.len() == 0),
    {
        self.map.len() == 0
    }

    /// A separate set with the same members.
    pub fn duplicate(&self) -> (r: StrSet)
        ensures
            r@ == self@,
    {
        let n = self.len();
        let mut r = StrSet::new();
        let mut i: usize = 0;
        while i < n
            invariant
                n == self.members().len(),
                n == self.map.entries().len(),
                self@ == self.members().to_set(),
                i <= n,
                r@ == self.members().take(i as int).to_set(),
            decreases n - i,
        {
            let k = self.map.key_at(i).clone();
            r.insert(k);
            proof {
                assert(self.members().take(i + 1) =~= self.members().take(i as int).push(self.members()[i as int]));
                self.members().take(i as int).lemma_push_to_set_commute(self.members()[i as int]);
            }
            i += 1;
        }
        assert(self.members().take(n as int) =~= self.members());
        r
    }

    /// Whether `s` is a member.
    pub fn contains(&self, s: &str) -> (b: bool)
        ensures
            b == self@.contains(s@),
    {
        self.map.contains_key(s)
    }

    /// Adds `s`; returns whether it was new.
    pub fn insert(&mut self, s: String) -> (added: bool)
        ensures
            final(self)@ == old(self)@.insert(s@),
            added == !old(self)@.contains(s@),
    {
        let prev = self.map.insert(s, ());
        assert(final(self)@ =~= old(self)@.insert(s@)) by {
            assert(self.map@.dom() =~= old(self).map@.dom().insert(s@));
        }
        prev.is_none()
    }

    /// Adds every string of `items`.
    pub fn insert_all(&mut self, items: &Vec<String>)
        ensures
            final(self)@ == old(self)@ + texts(items@).to_set(),
    {
        let mut i: usize = 0;
        while i < items.len()
            invariant
                i <= items@.len(),
                self@ == old(self)@ + texts(items@).take(i as int).to_set(),
            decreases items@.len() - i,
        {
            self.insert(items[i].clone());
            proof {
                let ts = texts(items@);
                assert(ts.take(i + 1) =~= ts.take(i as int).push(ts[i as int]));
                ts.take(i as int).lemma_push_to_set_commute(ts[i as int]);
                assert(self@ =~= old(self)@ + ts.take(i + 1).to_set());
            }
            i += 1;
        }
        assert(texts(items@).take(items@.len() as int) =~= texts(items@));
    }

    /// Removes `s`; returns whether it was a member.
    pub fn remove(&mut self, s: &str) -> (removed: bool)
        ensures
            final(self)@ == old(self)@.remove(s@),
            removed == old(self)@.contains(s@),
    {
        let prev = self.map.remove(s);
        assert(self.map@.dom() =~= old(self).map@.dom().remove(s@));
        prev.is_some()
    }
}

} // verus!

verus! {

/// The texts of a map of strings.
pub open spec fn text_values(m: Map<Seq<char>, String>) -> Map<Seq<char>, Seq<char>> {
    m.map_values(|s: String| s@)
}

impl StrMap<String> {
    /// A copy with the same keys in the same order and the same texts.
    pub fn duplicate(&self) -> (r: StrMap<String>)
        ensures
            text_values(r@) == text_values(self@),
            key_texts(r.entries()) == key_texts(self.entries()),
    {
        proof {
            use_type_invariant(self);
        }
        let ghost src = self.entries@;
        let mut entries: Vec<(String, String)> = Vec::new();
        let mut i: usize = 0;
        while i < self.entries.len()
            invariant
                src == self.entries@,
                i <= src.len(),
                entries@.len() == i,
                keys_unique(src),
                forall|j: int| 0 <= j < i ==> #[trigger] entries@[j].0@ == src[j].0@ && entries@[j].1@ == src[j].1@,
            decreases src.len() - i,
        {
            let k = self.entries[i].0.clone();
            let v = self.entries[i].1.clone();
            entries.push((k, v));
            i += 1;
        }
        let ghost dst = entries@;
        assert(keys_unique(dst)) by {
            assert forall|a: int, b: int| 0 <= a < dst.len() && 0 <= b < dst.len() && a != b implies #[trigger] dst[a].0@
                != #[trigger] dst[b].0@ by {
                assert(src[a].0@ != src[b].0@);
            }
        }
        assert forall|k: Seq<char>| has_key(dst, k) <==> has_key(src, k) by {
            if has_key(dst, k) {
                let j = choose|j: int| 0 <= j < dst.len() && #[trigger] dst[j].0@ == k;
                assert(src[j].0@ == k);
            }
            if has_key(src, k) {
                let j = choose|j: int| 0 <= j < src.len() && #[trigger] src[j].0@ == k;
                assert(dst[j].0@ == k);
            }
        }
        assert forall|k: Seq<char>| #[trigger] has_key(src, k) implies entries_map(dst)[k]@ == entries_map(src)[k]@ by {
            let j = choose|j: int| 0 <= j < src.len() && #[trigger] src[j].0@ == k;
            lemma_entry_in_map(src, j);
            assert(dst[j].0@ == k);
            lemma_entry_in_map(dst, j);
        }
        let r = StrMap { entries };
        assert(text_values(r@) =~= text_values(self@));
        assert(key_texts(r.entries()) =~= key_texts(self.entries()));
        r
    }
}

} // verus!
