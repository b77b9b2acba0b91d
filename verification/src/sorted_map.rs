//! A map from string keys to values that keeps its keys in ascending order
//! without repetition, as an ordered tree map of strings does.
use vstd::prelude::*;
use crate::text::{lex_order, lemma_lex_order_props, lemma_lex_order_transitive, str_order};

verus! {

/// Keys in strictly ascending order.
pub open spec fn strictly_sorted(ks: Seq<Seq<char>>) -> bool {
    forall|i: int, j: int| 0 <= i < j < ks.len() ==> lex_order(#[trigger] ks[i], #[trigger] ks[j]) < 0
}

/// The keys of a sequence of entries.
pub open spec fn entry_keys<V>(s: Seq<(String, V)>) -> Seq<Seq<char>> {
    Seq::new(s.len(), |i: int| s[i].0@)
}

/// The map that a sequence of entries with distinct keys stands for.
pub open spec fn entry_map<V>(s: Seq<(String, V)>) -> Map<Seq<char>, V> {
    Map::new(
        |k: Seq<char>| entry_keys(s).contains(k),
        |k: Seq<char>| s[entry_keys(s).index_of(k)].1,
    )
}

/// In a strictly sorted sequence a key occurs at one position only.
pub proof fn lemma_sorted_unique(ks: Seq<Seq<char>>, i: int, j: int)
    requires
        strictly_sorted(ks),
        0 <= i < ks.len(),
        0 <= j < ks.len(),
        ks[i] == ks[j],
    ensures
        i == j,
{
    if i < j {
        lemma_lex_order_props(ks[i], ks[j]);
    } else if j < i {
        lemma_lex_order_props(ks[j], ks[i]);
    }
}

/// The entry at position `i` is what the map holds for its key.
pub proof fn lemma_entry_map_at<V>(s: Seq<(String, V)>, i: int)
    requires
        strictly_sorted(entry_keys(s)),
        0 <= i < s.len(),
    ensures
        entry_map(s).dom().contains(s[i].0@),
        entry_map(s)[s[i].0@] == s[i].1,
{
    let ks = entry_keys(s);
    assert(ks[i] == s[i].0@);
    let j = ks.index_of(s[i].0@);
    lemma_sorted_unique(ks, i, j);
}

/// A key is in the map exactly when some entry has it.
pub proof fn lemma_entry_map_dom<V>(s: Seq<(String, V)>, k: Seq<char>)
    requires
        strictly_sorted(entry_keys(s)),
    ensures
        entry_map(s).dom().contains(k) <==> exists|i: int| 0 <= i < s.len() && s[i].0@ == k,
{
    if entry_map(s).dom().contains(k) {
        let i = entry_keys(s).index_of(k);
        assert(s[i].0@ == k);
    }
    if exists|i: int| 0 <= i < s.len() && s[i].0@ == k {
        let i = choose|i: int| 0 <= i < s.len() && s[i].0@ == k;
        assert(entry_keys(s)[i] == k);
    }
}

/// Two sorted entry sequences whose entries agree position by position on a
/// map stand for that map.
pub proof fn lemma_entry_map_ext<V>(s: Seq<(String, V)>, m: Map<Seq<char>, V>)
    requires
        strictly_sorted(entry_keys(s)),
        forall|i: int| 0 <= i < s.len() ==> #[trigger] m.dom().contains(s[i].0@) && m[s[i].0@]
            == s[i].1,
        forall|k: Seq<char>|
            #[trigger] m.dom().contains(k) ==> exists|i: int| 0 <= i < s.len() && s[i].0@ == k,
    ensures
        entry_map(s) == m,
{
    assert forall|k: Seq<char>| entry_map(s).dom().contains(k) <==> m.dom().contains(k) by {
        lemma_entry_map_dom(s, k);
        if entry_map(s).dom().contains(k) {
            let i = choose|i: int| 0 <= i < s.len() && s[i].0@ == k;
            assert(m.dom().contains(s[i].0@));
        }
    }
    assert forall|k: Seq<char>| entry_map(s).dom().contains(k) implies entry_map(s)[k] == m[k] by {
        lemma_entry_map_dom(s, k);
        let i = choose|i: int| 0 <= i < s.len() && s[i].0@ == k;
        lemma_entry_map_at(s, i);
        assert(m.dom().contains(s[i].0@));
    }
    assert(entry_map(s) =~= m);
}

/// An ordered map from strings to values.
#[derive(Debug)]
pub struct SortedMap<V> {
    entries: Vec<(String, V)>,
}

impl<V> View for SortedMap<V> {
    type V = Map<Seq<char>, V>;

    closed spec fn view(&self) -> Map<Seq<char>, V> {
        entry_map(self.entries@)
    }
}

impl<V> SortedMap<V> {
    /// The keys in ascending order.
    pub closed spec fn keys(&self) -> Seq<Seq<char>> {
        entry_keys(self.entries@)
    }

    /// Keys are held in strictly ascending order.
    pub closed spec fn wf(&self) -> bool {
        strictly_sorted(self.keys())
    }

    /// The keys are sorted, and they are the map's domain.
    pub proof fn lemma_keys(&self)
        requires
            self.wf(),
        ensures
            strictly_sorted(self.keys()),
            forall|k: Seq<char>| #[trigger] self@.dom().contains(k) <==> self.keys().contains(k),
            self@.dom().finite(),
            self@.dom().len() == self.keys().len(),
    {
        assert forall|k: Seq<char>| #[trigger] self@.dom().contains(k) <==> self.keys().contains(
            k,
        ) by {
            lemma_entry_map_dom(self.entries@, k);
            if self.keys().contains(k) {
                let i = choose|i: int| 0 <= i < self.keys().len() && self.keys()[i] == k;
                assert(self.entries@[i].0@ == k);
            }
        }
        lemma_sorted_no_duplicates(self.keys());
        self.keys().unique_seq_to_set();
        assert(self@.dom() =~= self.keys().to_set());
    }

    pub fn new() -> (r: Self)
        ensures
            r.wf(),
            r@ == Map::<Seq<char>, V>::empty(),
            r.keys().len() == 0,
    {
        let r = SortedMap { entries: Vec::new() };
        assert(r@ =~= Map::<Seq<char>, V>::empty());
        r
    }

    pub fn len(&self) -> (r: usize)
        ensures
            r == self.keys().len(),
    {
        self.entries.len()
    }

    pub fn is_empty(&self) -> (r: bool)
        ensures
            r == (self.keys().len() == 0),
    {
        self.entries.len() == 0
    }

    /// The key at position `i` of the ascending order.
    pub fn key_at(&self, i: usize) -> (r: &str)
        requires
            i < self.keys().len(),
        ensures
            r@ == self.keys()[i as int],
    {
        self.entries[i].0.as_str()
    }

    /// The value held for the key at position `i` of the ascending order.
    pub fn value_at(&self, i: usize) -> (r: &V)
        requires
            self.wf(),
            i < self.keys().len(),
        ensures
            self@.dom().contains(self.keys()[i as int]),
            *r == self@[self.keys()[i as int]],
    {
        proof {
            lemma_entry_map_at(self.entries@, i as int);
        }
        &self.entries[i].1
    }

    /// First position whose key is not below `key`, and whether it holds `key`.
    fn locate(&self, key: &str) -> (r: (usize, bool))
        requires
            self.wf(),
        ensures
            r.0 <= self.keys().len(),
            forall|i: int| 0 <= i < r.0 ==> lex_order(#[trigger] self.keys()[i], key@) < 0,
            r.0 < self.keys().len() ==> lex_order(key@, self.keys()[r.0 as int]) <= 0,
            r.1 == (r.0 < self.keys().len() && self.keys()[r.0 as int] == key@),
    {
        let n = self.entries.len();
        let mut i: usize = 0;
        while i < n
            invariant
                n == self.keys().len(),
                i <= n,
                forall|j: int| 0 <= j < i ==> lex_order(#[trigger] self.keys()[j], key@) < 0,
            decreases n - i,
        {
            let c = str_order(key, self.entries[i].0.as_str());
            proof {
                lemma_lex_order_props(key@, self.keys()[i as int]);
            }
            if c <= 0 {
                return (i, c == 0);
            }
            i += 1;
        }
        (n, false)
    }

    /// Proves that a key below the located position's key and above all
    /// earlier keys is absent.
    proof fn lemma_absent(&self, key: Seq<char>, pos: int)
        requires
            self.wf(),
            0 <= pos <= self.keys().len(),
            forall|i: int| 0 <= i < pos ==> lex_order(#[trigger] self.keys()[i], key) < 0,
            pos < self.keys().len() ==> lex_order(key, self.keys()[pos]) < 0,
        ensures
            !self@.dom().contains(key),
            forall|i: int| pos <= i < self.keys().len() ==> lex_order(key, #[trigger] self.keys()[i]) < 0,
    {
        assert forall|i: int| pos <= i < self.keys().len() implies lex_order(
            key,
            #[trigger] self.keys()[i],
        ) < 0 by {
            if i > pos {
                lemma_lex_order_transitive(key, self.keys()[pos], self.keys()[i]);
            }
        }
        lemma_entry_map_dom(self.entries@, key);
        if self@.dom().contains(key) {
            let i = choose|i: int| 0 <= i < self.entries@.len() && self.entries@[i].0@ == key;
            assert(self.keys()[i] == key);
            lemma_lex_order_props(key, key);
        }
    }

    /// Whether `key` has a value.
    pub fn contains_key(&self, key: &str) -> (r: bool)
        requires
            self.wf(),
        ensures
            r == self@.dom().contains(key@),
    {
        self.get(key).is_some()
    }

    /// The value held for `key`, if any.
    pub fn get(&self, key: &str) -> (r: Option<&V>)
        requires
            self.wf(),
        ensures
            match r {
                Some(v) => self@.dom().contains(key@) && *v == self@[key@],
                None => !self@.dom().contains(key@),
            },
    {
        let (pos, found) = self.locate(key);
        if found {
            proof {
                lemma_entry_map_at(self.entries@, pos as int);
            }
            Some(&self.entries[pos].1)
        } else {
            proof {
                if pos < self.keys().len() {
                    lemma_lex_order_props(key@, self.keys()[pos as int]);
                }
                self.lemma_absent(key@, pos as int);
            }
            None
        }
    }

    /// Sets the value of `key`, replacing a value it had.
    pub fn insert(&mut self, key: String, value: V)
        requires
            old(self).wf(),
        ensures
            final(self).wf(),
            final(self)@ == old(self)@.insert(key@, value),
            old(self)@.dom().contains(key@) ==> final(self).keys() == old(self).keys(),
    {
        let (pos, found) = self.locate(key.as_str());
        let ghost old_entries = self.entries@;
        let ghost old_map = self@;
        let ghost ks = self.keys();
        let ghost k = key@;
        proof {
            if pos < ks.len() {
                lemma_lex_order_props(k, ks[pos as int]);
            }
        }
        if found {
            self.entries.set(pos, (key, value));
            proof {
                assert(self.keys() =~= ks);
                assert forall|i: int| 0 <= i < self.entries@.len() implies #[trigger] old_map.insert(
                    k,
                    value,
                ).dom().contains(self.entries@[i].0@) && old_map.insert(k, value)[self.entries@[i].0@]
                    == self.entries@[i].1 by {
                    if i != pos {
                        lemma_entry_map_at(old_entries, i);
                        assert(ks[i] != k) by {
                            if ks[i] == k {
                                lemma_sorted_unique(ks, i, pos as int);
                            }
                        }
                    }
                }
                assert forall|k2: Seq<char>| #[trigger] old_map.insert(k, value).dom().contains(
                    k2,
                ) implies exists|i: int| 0 <= i < self.entries@.len() && self.entries@[i].0@ == k2 by {
                    if k2 == k {
                        assert(self.entries@[pos as int].0@ == k2);
                    } else {
                        lemma_entry_map_dom(old_entries, k2);
                        let i = choose|i: int| 0 <= i < old_entries.len() && old_entries[i].0@ == k2;
                        assert(self.entries@[i].0@ == k2);
                    }
                }
                lemma_entry_map_ext(self.entries@, old_map.insert(k, value));
            }
        } else {
            proof {
                self.lemma_absent(k, pos as int);
            }
            self.entries.insert(pos, (key, value));
            proof {
                let nks = self.keys();
                assert(nks =~= ks.insert(pos as int, k));
                assert forall|i: int, j: int| 0 <= i < j < nks.len() implies lex_order(
                    #[trigger] nks[i],
                    #[trigger] nks[j],
                ) < 0 by {
                    if j < pos {
                    } else if j == pos {
                    } else if i < pos {
                        assert(nks[j] == ks[j - 1]);
                        assert(lex_order(ks[i], ks[j - 1]) < 0);
                    } else if i == pos {
                        assert(nks[j] == ks[j - 1]);
                    } else {
                        assert(lex_order(ks[i - 1], ks[j - 1]) < 0);
                    }
                }
                assert forall|i: int| 0 <= i < self.entries@.len() implies #[trigger] old_map.insert(
                    k,
                    value,
                ).dom().contains(self.entries@[i].0@) && old_map.insert(k, value)[self.entries@[i].0@]
                    == self.entries@[i].1 by {
                    if i < pos {
                        lemma_entry_map_at(old_entries, i);
                        assert(ks[i] != k) by {
                            lemma_lex_order_props(ks[i], k);
                        }
                    } else if i > pos {
                        lemma_entry_map_at(old_entries, i - 1);
                        assert(ks[i - 1] != k) by {
                            lemma_lex_order_props(k, ks[i - 1]);
                        }
                    }
                }
                assert forall|k2: Seq<char>| #[trigger] old_map.insert(k, value).dom().contains(
                    k2,
                ) implies exists|i: int| 0 <= i < self.entries@.len() && self.entries@[i].0@ == k2 by {
                    if k2 == k {
                        assert(self.entries@[pos as int].0@ == k2);
                    } else {
                        lemma_entry_map_dom(old_entries, k2);
                        let i = choose|i: int| 0 <= i < old_entries.len() && old_entries[i].0@ == k2;
                        if i < pos {
                            assert(self.entries@[i].0@ == k2);
                        } else {
                            assert(self.entries@[i + 1].0@ == k2);
                        }
                    }
                }
                lemma_entry_map_ext(self.entries@, old_map.insert(k, value));
            }
        }
    }

    /// Appends an entry whose key is above every key held.
    pub fn push_greatest(&mut self, key: String, value: V)
        requires
            old(self).wf(),
            forall|i: int| 0 <= i < old(self).keys().len() ==> lex_order(#[trigger] old(self).keys()[i], key@) < 0,
        ensures
            final(self).wf(),
            final(self)@ == old(self)@.insert(key@, value),
            final(self).keys() == old(self).keys().push(key@),
    {
        let ghost old_entries = self.entries@;
        let ghost old_map = self@;
        let ghost ks = self.keys();
        let ghost k = key@;
        self.entries.push((key, value));
        proof {
            assert(self.keys() =~= ks.push(k));
            assert forall|i: int| 0 <= i < self.entries@.len() implies #[trigger] old_map.insert(
                k,
                value,
            ).dom().contains(self.entries@[i].0@) && old_map.insert(k, value)[self.entries@[i].0@]
                == self.entries@[i].1 by {
                if i < ks.len() {
                    lemma_entry_map_at(old_entries, i);
                    assert(ks[i] != k) by {
                        lemma_lex_order_props(ks[i], k);
                    }
                }
            }
            assert forall|k2: Seq<char>| #[trigger] old_map.insert(k, value).dom().contains(
                k2,
            ) implies exists|i: int| 0 <= i < self.entries@.len() && self.entries@[i].0@ == k2 by {
                if k2 == k {
                    assert(self.entries@[ks.len() as int].0@ == k2);
                } else {
                    lemma_entry_map_dom(old_entries, k2);
                    let i = choose|i: int| 0 <= i < old_entries.len() && old_entries[i].0@ == k2;
                    assert(self.entries@[i].0@ == k2);
                }
            }
            lemma_entry_map_ext(self.entries@, old_map.insert(k, value));
        }
    }
}

/// The first `i + 1` keys of a strictly sorted sequence are the first `i`
/// keys and the key at `i`, which is not among them.
pub proof fn lemma_sorted_prefix_step(ks: Seq<Seq<char>>, i: int)
    requires
        strictly_sorted(ks),
        0 <= i < ks.len(),
    ensures
        !ks.take(i).contains(ks[i]),
        forall|k: Seq<char>| #[trigger] ks.take(i + 1).contains(k) <==> (ks.take(i).contains(k) || k == ks[i]),
{
    let t0 = ks.take(i);
    let t1 = ks.take(i + 1);
    if t0.contains(ks[i]) {
        let m = choose|m: int| 0 <= m < t0.len() && t0[m] == ks[i];
        assert(ks[m] == ks[i]);
        lemma_lex_order_props(ks[m], ks[i]);
    }
    assert forall|k: Seq<char>| #[trigger] t1.contains(k) <==> (t0.contains(k) || k == ks[i]) by {
        if t1.contains(k) {
            let m = choose|m: int| 0 <= m < t1.len() && t1[m] == k;
            if m < i {
                assert(t0[m] == k);
            }
        }
        if t0.contains(k) {
            let m = choose|m: int| 0 <= m < t0.len() && t0[m] == k;
            assert(t1[m] == k);
        }
        if k == ks[i] {
            assert(t1[i] == k);
        }
    }
}

/// A strictly sorted sequence holds no key twice.
pub proof fn lemma_sorted_no_duplicates(ks: Seq<Seq<char>>)
    requires
        strictly_sorted(ks),
    ensures
        ks.no_duplicates(),
{
    assert forall|i: int, j: int| 0 <= i < ks.len() && 0 <= j < ks.len() && i != j implies ks[i]
        != ks[j] by {
        if ks[i] == ks[j] {
            lemma_sorted_unique(ks, i, j);
        }
    }
}

} // verus!
