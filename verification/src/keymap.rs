//! A map from string keys to values that keeps its entries in increasing key
//! order, as an ordered tree map does.

use crate::text::{
    chars_less, compare_str, lemma_chars_less_irreflexive, lemma_chars_less_total,
    lemma_chars_less_transitive, KeyOrder,
};
use vstd::prelude::*;

verus! {

/// Whether the keys of an entry sequence strictly increase.
pub open spec fn increasing<V>(ps: Seq<(Seq<char>, V)>) -> bool {
    forall|i: int, j: int| 0 <= i < j < ps.len() ==> chars_less(#[trigger] ps[i].0, #[trigger] ps[j].0)
}

/// Whether some entry has key `k`.
pub open spec fn has_key<V>(ps: Seq<(Seq<char>, V)>, k: Seq<char>) -> bool {
    exists|i: int| 0 <= i < ps.len() && #[trigger] ps[i].0 == k
}

/// The map that an entry sequence describes: later entries win.
pub open spec fn pairs_to_map<V>(ps: Seq<(Seq<char>, V)>) -> Map<Seq<char>, V>
    decreases ps.len(),
{
    if ps.len() == 0 {
        Map::empty()
    } else {
        pairs_to_map(ps.drop_last()).insert(ps.last().0, ps.last().1)
    }
}

/// A key is in the map exactly when some entry has it.
pub proof fn lemma_map_contains<V>(ps: Seq<(Seq<char>, V)>, k: Seq<char>)
    ensures
        pairs_to_map(ps).contains_key(k) == has_key(ps, k),
    decreases ps.len(),
{
    if ps.len() > 0 {
        let r = ps.drop_last();
        lemma_map_contains(r, k);
        if has_key(r, k) {
            let i = choose|i: int| 0 <= i < r.len() && #[trigger] r[i].0 == k;
            assert(ps[i].0 == k);
        }
        if has_key(ps, k) && ps.last().0 != k {
            let i = choose|i: int| 0 <= i < ps.len() && #[trigger] ps[i].0 == k;
            assert(r[i].0 == k);
        }
    }
}

/// Mapping the values of the entries maps the values of the map.
pub proof fn lemma_map_of_mapped<V, W>(
    ps: Seq<(Seq<char>, V)>,
    qs: Seq<(Seq<char>, W)>,
    f: spec_fn(V) -> W,
)
    requires
        qs.len() == ps.len(),
        forall|i: int| 0 <= i < ps.len() ==> #[trigger] qs[i] == (ps[i].0, f(ps[i].1)),
    ensures
        forall|k: Seq<char>| #[trigger] pairs_to_map(qs).contains_key(k) == pairs_to_map(ps).contains_key(k),
        forall|k: Seq<char>|
            pairs_to_map(ps).contains_key(k) ==> #[trigger] pairs_to_map(qs)[k] == f(pairs_to_map(ps)[k]),
    decreases ps.len(),
{
    if ps.len() > 0 {
        let pr = ps.drop_last();
        let qr = qs.drop_last();
        assert forall|i: int| 0 <= i < pr.len() implies #[trigger] qr[i] == (pr[i].0, f(pr[i].1)) by {
            assert(qs[i] == (ps[i].0, f(ps[i].1)));
        }
        lemma_map_of_mapped(pr, qr, f);
        assert(qs[qs.len() - 1] == (ps[ps.len() - 1].0, f(ps[ps.len() - 1].1)));
        assert forall|k: Seq<char>| #[trigger] pairs_to_map(qs).contains_key(k) == pairs_to_map(ps).contains_key(k) by {
            assert(pairs_to_map(qr).contains_key(k) == pairs_to_map(pr).contains_key(k));
        }
        assert forall|k: Seq<char>| pairs_to_map(ps).contains_key(k) implies #[trigger] pairs_to_map(qs)[k] == f(pairs_to_map(ps)[k]) by {
            if k != ps.last().0 {
                assert(pairs_to_map(qr).contains_key(k) == pairs_to_map(pr).contains_key(k));
                assert(pairs_to_map(qr)[k] == f(pairs_to_map(pr)[k]));
            }
        }
    } else {
        assert(pairs_to_map(qs) == Map::<Seq<char>, W>::empty());
        assert(pairs_to_map(ps) == Map::<Seq<char>, V>::empty());
    }
}

/// In an increasing sequence, each entry gives the value of its key.
pub proof fn lemma_entry_in_map<V>(ps: Seq<(Seq<char>, V)>, i: int)
    requires
        increasing(ps),
        0 <= i < ps.len(),
    ensures
        pairs_to_map(ps).contains_key(ps[i].0),
        pairs_to_map(ps)[ps[i].0] == ps[i].1,
    decreases ps.len(),
{
    if i < ps.len() - 1 {
        let r = ps.drop_last();
        assert(increasing(r));
        lemma_entry_in_map(r, i);
        assert(chars_less(ps[i].0, ps[ps.len() - 1].0));
        lemma_chars_less_irreflexive(ps[i].0);
        assert(r[i] == ps[i]);
    }
}

/// Entries with a given key occur at most once in an increasing sequence.
pub proof fn lemma_key_unique<V>(ps: Seq<(Seq<char>, V)>, i: int, j: int)
    requires
        increasing(ps),
        0 <= i < ps.len(),
        0 <= j < ps.len(),
        ps[i].0 == ps[j].0,
    ensures
        i == j,
{
    if i != j {
        if i < j {
            assert(chars_less(ps[i].0, ps[j].0));
        } else {
            assert(chars_less(ps[j].0, ps[i].0));
        }
        lemma_chars_less_irreflexive(ps[i].0);
    }
}

/// Two increasing sequences that describe the same map are equal.
pub proof fn lemma_increasing_canonical<V>(a: Seq<(Seq<char>, V)>, b: Seq<(Seq<char>, V)>)
    requires
        increasing(a),
        increasing(b),
        pairs_to_map(a) == pairs_to_map(b),
    ensures
        a == b,
    decreases a.len() + b.len(),
{
    if a.len() == 0 {
        if b.len() > 0 {
            lemma_entry_in_map(b, 0);
            lemma_map_contains(a, b[0].0);
        }
        assert(a =~= b);
    } else if b.len() == 0 {
        lemma_entry_in_map(a, 0);
        lemma_map_contains(b, a[0].0);
    } else {
        let la = a.last();
        let lb = b.last();
        lemma_entry_in_map(a, a.len() - 1);
        lemma_entry_in_map(b, b.len() - 1);
        // the last keys are both the greatest key of the map
        lemma_map_contains(b, la.0);
        lemma_map_contains(a, lb.0);
        assert(has_key(b, la.0));
        let jb = choose|j: int| 0 <= j < b.len() && #[trigger] b[j].0 == la.0;
        assert(has_key(a, lb.0));
        let ja = choose|j: int| 0 <= j < a.len() && #[trigger] a[j].0 == lb.0;
        if ja != a.len() - 1 {
            assert(chars_less(a[ja].0, a[a.len() - 1].0));
            if jb != b.len() - 1 {
                assert(chars_less(b[jb].0, b[b.len() - 1].0));
                lemma_chars_less_transitive(la.0, lb.0, la.0);
                lemma_chars_less_irreflexive(la.0);
            } else {
                lemma_chars_less_irreflexive(la.0);
            }
        }
        assert(la.0 == lb.0);
        lemma_entry_in_map(a, a.len() - 1);
        let ar = a.drop_last();
        let br = b.drop_last();
        assert(increasing(ar));
        assert(increasing(br));
        assert forall|k: Seq<char>| #[trigger] pairs_to_map(ar).contains_key(k) == pairs_to_map(br).contains_key(k) && (pairs_to_map(ar).contains_key(k) ==> pairs_to_map(ar)[k] == pairs_to_map(br)[k]) by {
            lemma_map_contains(ar, k);
            lemma_map_contains(br, k);
            lemma_map_contains(a, k);
            lemma_map_contains(b, k);
            if has_key(ar, k) {
                let i = choose|i: int| 0 <= i < ar.len() && #[trigger] ar[i].0 == k;
                lemma_entry_in_map(a, i);
                lemma_entry_in_map(ar, i);
                assert(chars_less(k, la.0));
                lemma_chars_less_irreflexive(k);
                assert(has_key(b, k));
                let j = choose|j: int| 0 <= j < b.len() && #[trigger] b[j].0 == k;
                lemma_entry_in_map(b, j);
                assert(j != b.len() - 1);
                lemma_entry_in_map(br, j);
                assert(has_key(br, k));
            } else if has_key(br, k) {
                let j = choose|j: int| 0 <= j < br.len() && #[trigger] br[j].0 == k;
                lemma_entry_in_map(b, j);
                assert(chars_less(k, lb.0));
                lemma_chars_less_irreflexive(k);
                assert(has_key(a, k));
                let i = choose|i: int| 0 <= i < a.len() && #[trigger] a[i].0 == k;
                assert(i != a.len() - 1);
                assert(ar[i].0 == k);
            }
        }
        assert(pairs_to_map(ar) =~= pairs_to_map(br));
        lemma_increasing_canonical(ar, br);
        assert(a =~= ar.push(la));
        assert(b =~= br.push(lb));
    }
}

/// A map from string keys to values, its entries kept in increasing key order.
#[derive(Debug)]
pub struct KeyMap<V> {
    entries: Vec<(String, V)>,
}

impl<V> KeyMap<V> {
    /// The entries, keys as character sequences, in increasing key order.
    pub closed spec fn pairs(self) -> Seq<(Seq<char>, V)> {
        self.entries@.map_values(|e: (String, V)| (e.0@, e.1))
    }

    /// A map is larger than each of its values.
    pub proof fn lemma_value_decreases(self, i: int)
        requires
            0 <= i < self.pairs().len(),
        ensures
            decreases_to!(self => self.pairs()[i].1),
    {
        assert(decreases_to!(self => self.entries));
        assert(decreases_to!(self.entries => self.entries@));
        assert(decreases_to!(self.entries@ => self.entries@[i]));
        assert(decreases_to!(self.entries@[i] => self.entries@[i].1));
    }

    #[verifier::type_invariant]
    closed spec fn keys_increase(self) -> bool {
        increasing(self.pairs())
    }

    /// The map from keys to values.
    pub open spec fn map(self) -> Map<Seq<char>, V> {
        pairs_to_map(self.pairs())
    }

    pub fn new() -> (r: Self)
        ensures
            r.pairs() == Seq::<(Seq<char>, V)>::empty(),
    {
        let r = KeyMap { entries: Vec::new() };
        assert(r.pairs() =~= Seq::<(Seq<char>, V)>::empty());
        r
    }

    /// The number of entries; the entries of every map have strictly
    /// increasing keys.
    pub fn len(&self) -> (r: usize)
        ensures
            r == self.pairs().len(),
            increasing(self.pairs()),
    {
        proof {
            use_type_invariant(self);
        }
        self.entries.len()
    }

    pub fn is_empty(&self) -> (r: bool)
        ensures
            r == (self.pairs().len() == 0),
    {
        self.entries.len() == 0
    }

    /// Appends an entry whose key is above every key present.
    pub fn push_last(&mut self, key: String, value: V)
        requires
            forall|i: int| 0 <= i < old(self).pairs().len() ==> chars_less(#[trigger] old(self).pairs()[i].0, key@),
        ensures
            final(self).pairs() == old(self).pairs().push((key@, value)),
    {
        proof {
            use_type_invariant(&*self);
        }
        let ghost old_ps = self.pairs();
        let ghost kv = key@;
        let mut entries: Vec<(String, V)> = Vec::new();
        std::mem::swap(&mut entries, &mut self.entries);
        assert(entries@.map_values(|e: (String, V)| (e.0@, e.1)) == old_ps);
        entries.push((key, value));
        let ghost ps = entries@.map_values(|e: (String, V)| (e.0@, e.1));
        assert(ps =~= old_ps.push((kv, value)));
        assert(increasing(ps)) by {
            assert forall|a: int, b: int| 0 <= a < b < ps.len() implies chars_less(#[trigger] ps[a].0, #[trigger] ps[b].0) by {
                if b < old_ps.len() {
                    assert(chars_less(old_ps[a].0, old_ps[b].0));
                }
            }
        }
        self.entries = entries;
    }

    /// The key of the entry at position `i`.
    pub fn key_at(&self, i: usize) -> (r: &String)
        requires
            i < self.pairs().len(),
        ensures
            r@ == self.pairs()[i as int].0,
    {
        &self.entries[i].0
    }

    /// The value of the entry at position `i`.
    pub fn value_at(&self, i: usize) -> (r: &V)
        requires
            i < self.pairs().len(),
        ensures
            *r == self.pairs()[i as int].1,
    {
        &self.entries[i].1
    }

    /// The position of the entry with key `key`, or where such an entry would
    /// go: the first position whose key is not below `key`.
    fn locate(&self, key: &str) -> (r: (usize, bool))
        ensures
            r.0 <= self.pairs().len(),
            forall|i: int| 0 <= i < r.0 ==> chars_less(#[trigger] self.pairs()[i].0, key@),
            r.1 ==> r.0 < self.pairs().len() && self.pairs()[r.0 as int].0 == key@,
            !r.1 ==> r.0 < self.pairs().len() ==> chars_less(key@, self.pairs()[r.0 as int].0),
    {
        proof {
            use_type_invariant(self);
        }
        let mut i: usize = 0;
        while i < self.entries.len()
            invariant
                i <= self.pairs().len(),
                self.pairs().len() == self.entries@.len(),
                forall|j: int| 0 <= j < i ==> chars_less(#[trigger] self.pairs()[j].0, key@),
            decreases self.entries.len() - i,
        {
            assert(self.pairs()[i as int].0 == self.entries@[i as int].0@);
            match compare_str(self.entries[i].0.as_str(), key) {
                KeyOrder::Less => {},
                KeyOrder::Equal => {
                    return (i, true);
                },
                KeyOrder::Greater => {
                    return (i, false);
                },
            }
            i = i + 1;
        }
        (i, false)
    }

    /// The value stored under `key`, if any.
    pub fn get(&self, key: &str) -> (r: Option<&V>)
        ensures
            match r {
                Some(v) => self.map().contains_key(key@) && *v == self.map()[key@],
                None => !self.map().contains_key(key@),
            },
    {
        proof {
            use_type_invariant(self);
        }
        let (i, found) = self.locate(key);
        if found {
            proof {
                lemma_entry_in_map(self.pairs(), i as int);
            }
            Some(&self.entries[i].1)
        } else {
            proof {
                lemma_map_contains(self.pairs(), key@);
                if has_key(self.pairs(), key@) {
                    let j = choose|j: int| 0 <= j < self.pairs().len() && #[trigger] self.pairs()[j].0 == key@;
                    if j < i {
                        lemma_chars_less_irreflexive(key@);
                    } else if j > i {
                        assert(chars_less(self.pairs()[i as int].0, self.pairs()[j].0));
                        lemma_chars_less_irreflexive(key@);
                        lemma_chars_less_transitive(key@, self.pairs()[i as int].0, key@);
                    } else {
                        lemma_chars_less_irreflexive(key@);
                    }
                }
            }
            None
        }
    }

    /// Whether some entry has key `key`.
    pub fn contains_key(&self, key: &str) -> (r: bool)
        ensures
            r == self.map().contains_key(key@),
    {
        self.get(key).is_some()
    }

    /// Stores `value` under `key`, replacing and returning what was there.
    pub fn insert(&mut self, key: String, value: V) -> (r: Option<V>)
        ensures
            final(self).map() == old(self).map().insert(key@, value),
            match r {
                Some(v) => old(self).map().contains_key(key@) && v == old(self).map()[key@],
                None => !old(self).map().contains_key(key@),
            },
    {
        proof {
            use_type_invariant(&*self);
        }
        let (i, found) = self.locate(key.as_str());
        let ghost old_ps = self.pairs();
        let mut entries: Vec<(String, V)> = Vec::new();
        std::mem::swap(&mut entries, &mut self.entries);
        assert(entries@.map_values(|e: (String, V)| (e.0@, e.1)) == old_ps);
        if found {
            let (_, old_value) = entries.remove(i);
            let ghost kv = key@;
            entries.insert(i, (key, value));
            let ghost ps = entries@.map_values(|e: (String, V)| (e.0@, e.1));
            assert(ps =~= old_ps.update(i as int, (kv, value)));
            assert(increasing(ps)) by {
                assert forall|a: int, b: int| 0 <= a < b < ps.len() implies chars_less(#[trigger] ps[a].0, #[trigger] ps[b].0) by {
                    assert(chars_less(old_ps[a].0, old_ps[b].0));
                }
            }
            self.entries = entries;
            proof {
                lemma_entry_in_map(old_ps, i as int);
                assert(self.pairs() == ps);
                assert forall|k: Seq<char>| #[trigger] self.map().contains_key(k) == old(self).map().insert(kv, value).contains_key(k) && (self.map().contains_key(k) ==> self.map()[k] == old(self).map().insert(kv, value)[k]) by {
                    lemma_map_contains(ps, k);
                    lemma_map_contains(old_ps, k);
                    if k == kv {
                        lemma_entry_in_map(ps, i as int);
                    } else if has_key(old_ps, k) {
                        let j = choose|j: int| 0 <= j < old_ps.len() && #[trigger] old_ps[j].0 == k;
                        lemma_entry_in_map(old_ps, j);
                        lemma_entry_in_map(ps, j);
                    } else if has_key(ps, k) {
                        let j = choose|j: int| 0 <= j < ps.len() && #[trigger] ps[j].0 == k;
                        assert(old_ps[j].0 == k);
                    }
                }
                assert(self.map() =~= old(self).map().insert(kv, value));
            }
            Some(old_value)
        } else {
            let ghost kv = key@;
            entries.insert(i, (key, value));
            let ghost ps = entries@.map_values(|e: (String, V)| (e.0@, e.1));
            assert(ps =~= old_ps.insert(i as int, (kv, value)));
            assert(increasing(ps)) by {
                assert forall|a: int, b: int| 0 <= a < b < ps.len() implies chars_less(#[trigger] ps[a].0, #[trigger] ps[b].0) by {
                    if b < i {
                        assert(chars_less(old_ps[a].0, old_ps[b].0));
                    } else if b == i {
                        assert(chars_less(old_ps[a].0, kv));
                    } else if a == i {
                        if b - 1 > i {
                            assert(chars_less(old_ps[i as int].0, old_ps[b - 1].0));
                            lemma_chars_less_transitive(kv, old_ps[i as int].0, old_ps[b - 1].0);
                        }
                    } else if a < i {
                        assert(chars_less(old_ps[a].0, kv));
                        if b - 1 > i {
                            assert(chars_less(old_ps[i as int].0, old_ps[b - 1].0));
                            lemma_chars_less_transitive(kv, old_ps[i as int].0, old_ps[b - 1].0);
                        }
                        lemma_chars_less_transitive(old_ps[a].0, kv, old_ps[b - 1].0);
                    } else {
                        assert(chars_less(old_ps[a - 1].0, old_ps[b - 1].0));
                    }
                }
            }
            self.entries = entries;
            proof {
                assert(self.pairs() == ps);
                lemma_map_contains(old_ps, kv);
                assert(!has_key(old_ps, kv)) by {
                    if has_key(old_ps, kv) {
                        let j = choose|j: int| 0 <= j < old_ps.len() && #[trigger] old_ps[j].0 == kv;
                        lemma_chars_less_irreflexive(kv);
                        if j >= i {
                            if j > i {
                                assert(chars_less(old_ps[i as int].0, old_ps[j].0));
                                lemma_chars_less_transitive(kv, old_ps[i as int].0, kv);
                            }
                        }
                    }
                }
                assert forall|k: Seq<char>| #[trigger] self.map().contains_key(k) == old(self).map().insert(kv, value).contains_key(k) && (self.map().contains_key(k) ==> self.map()[k] == old(self).map().insert(kv, value)[k]) by {
                    lemma_map_contains(ps, k);
                    lemma_map_contains(old_ps, k);
                    if k == kv {
                        lemma_entry_in_map(ps, i as int);
                    } else if has_key(old_ps, k) {
                        let j = choose|j: int| 0 <= j < old_ps.len() && #[trigger] old_ps[j].0 == k;
                        lemma_entry_in_map(old_ps, j);
                        if j < i {
                            lemma_entry_in_map(ps, j);
                        } else {
                            assert(ps[j + 1] == old_ps[j]);
                            lemma_entry_in_map(ps, j + 1);
                        }
                    } else if has_key(ps, k) {
                        let j = choose|j: int| 0 <= j < ps.len() && #[trigger] ps[j].0 == k;
                        if j < i {
                            assert(old_ps[j].0 == k);
                        } else if j > i {
                            assert(old_ps[j - 1].0 == k);
                        }
                    }
                }
                assert(self.map() =~= old(self).map().insert(kv, value));
            }
            None
        }
    }

    /// Removes the entry with key `key`, returning its value.
    pub fn remove(&mut self, key: &str) -> (r: Option<V>)
        ensures
            final(self).map() == old(self).map().remove(key@),
            match r {
                Some(v) => old(self).map().contains_key(key@) && v == old(self).map()[key@],
                None => !old(self).map().contains_key(key@),
            },
    {
        proof {
            use_type_invariant(&*self);
        }
        let (i, found) = self.locate(key);
        let ghost old_ps = self.pairs();
        if !found {
            proof {
                lemma_map_contains(old_ps, key@);
                if has_key(old_ps, key@) {
                    let j = choose|j: int| 0 <= j < old_ps.len() && #[trigger] old_ps[j].0 == key@;
                    lemma_chars_less_irreflexive(key@);
                    if j > i {
                        assert(chars_less(old_ps[i as int].0, old_ps[j].0));
                        lemma_chars_less_transitive(key@, old_ps[i as int].0, key@);
                    }
                }
                assert(self.map() =~= old(self).map().remove(key@));
            }
            return None;
        }
        let mut entries: Vec<(String, V)> = Vec::new();
        std::mem::swap(&mut entries, &mut self.entries);
        assert(entries@.map_values(|e: (String, V)| (e.0@, e.1)) == old_ps);
        let (_, old_value) = entries.remove(i);
        let ghost ps = entries@.map_values(|e: (String, V)| (e.0@, e.1));
        assert(ps =~= old_ps.remove(i as int));
        assert(increasing(ps)) by {
            assert forall|a: int, b: int| 0 <= a < b < ps.len() implies chars_less(#[trigger] ps[a].0, #[trigger] ps[b].0) by {
                if b < i {
                    assert(chars_less(old_ps[a].0, old_ps[b].0));
                } else if a < i {
                    assert(chars_less(old_ps[a].0, old_ps[b + 1].0));
                } else {
                    assert(chars_less(old_ps[a + 1].0, old_ps[b + 1].0));
                }
            }
        }
        self.entries = entries;
        proof {
            lemma_entry_in_map(old_ps, i as int);
            assert(self.pairs() == ps);
            let kv = key@;
            assert forall|k: Seq<char>| #[trigger] self.map().contains_key(k) == old(self).map().remove(kv).contains_key(k) && (self.map().contains_key(k) ==> self.map()[k] == old(self).map().remove(kv)[k]) by {
                lemma_map_contains(ps, k);
                lemma_map_contains(old_ps, k);
                if has_key(ps, k) {
                    let j = choose|j: int| 0 <= j < ps.len() && #[trigger] ps[j].0 == k;
                    lemma_entry_in_map(ps, j);
                    if j < i {
                        lemma_entry_in_map(old_ps, j);
                        if k == kv {
                            lemma_key_unique(old_ps, j, i as int);
                        }
                    } else {
                        assert(ps[j] == old_ps[j + 1]);
                        lemma_entry_in_map(old_ps, j + 1);
                        if k == kv {
                            lemma_key_unique(old_ps, j + 1, i as int);
                        }
                    }
                } else if k != kv && has_key(old_ps, k) {
                    let j = choose|j: int| 0 <= j < old_ps.len() && #[trigger] old_ps[j].0 == k;
                    if j < i {
                        assert(ps[j].0 == k);
                    } else if j > i {
                        assert(ps[j - 1].0 == k);
                    }
                }
            }
            assert(self.map() =~= old(self).map().remove(kv));
        }
        Some(old_value)
    }
}

} // verus!
