//! A small string-keyed map backed by a vector of pairs, with a
//! mathematical `Map` view. It backs both the record cache and the
//! directory image; neither ever grows past what one process loads into
//! memory, so linear scans are acceptable.

use vstd::prelude::*;

verus! {

/// The mathematical content of a sequence of key/value pairs: later
/// pairs override earlier ones.
pub(crate) open spec fn pairs_map<V>(s: Seq<(String, V)>) -> Map<Seq<char>, V>
    decreases s.len(),
{
    if s.len() == 0 {
        Map::empty()
    } else {
        pairs_map(s.drop_last()).insert(s.last().0@, s.last().1)
    }
}

/// A key of `pairs_map(s)` is exactly a key of some pair of `s`.
pub(crate) proof fn lemma_pairs_map_dom<V>(s: Seq<(String, V)>, k: Seq<char>)
    ensures
        pairs_map(s).dom().contains(k) <==> exists|i: int| 0 <= i < s.len() && s[i].0@ == k,
    decreases s.len(),
{
    if s.len() > 0 {
        lemma_pairs_map_dom(s.drop_last(), k);
        if s.last().0@ == k {
            assert(s[s.len() - 1].0@ == k);
        } else if pairs_map(s).dom().contains(k) {
            let i = choose|i: int| 0 <= i < s.drop_last().len() && s.drop_last()[i].0@ == k;
            assert(s[i].0@ == k);
        } else {
            assert forall|i: int| 0 <= i < s.len() implies s[i].0@ != k by {
                if i < s.len() - 1 {
                    assert(s.drop_last()[i] == s[i]);
                    assert(s.drop_last()[i].0@ != k);
                }
            }
        }
    }
}

/// When the keys of `s` are distinct, the pair holding a key gives its
/// value in `pairs_map(s)`.
pub(crate) proof fn lemma_pairs_map_at<V>(s: Seq<(String, V)>, i: int)
    requires
        distinct_keys(s),
        0 <= i < s.len(),
    ensures
        pairs_map(s).dom().contains(s[i].0@),
        pairs_map(s)[s[i].0@] == s[i].1,
    decreases s.len(),
{
    lemma_pairs_map_dom(s, s[i].0@);
    if i < s.len() - 1 {
        assert(s.drop_last()[i] == s[i]);
        lemma_pairs_map_at(s.drop_last(), i);
        assert(s.last().0@ != s[i].0@);
    }
}

/// The keys of the pairs of `s` are pairwise distinct.
pub(crate) open spec fn distinct_keys<V>(s: Seq<(String, V)>) -> bool {
    forall|i: int, j: int| 0 <= i < j < s.len() ==> s[i].0@ != s[j].0@
}

/// Removing the pair at `i` from a distinct-keyed sequence removes its
/// key from the map.
pub(crate) proof fn lemma_pairs_map_remove<V>(s: Seq<(String, V)>, i: int)
    requires
        distinct_keys(s),
        0 <= i < s.len(),
    ensures
        pairs_map(s.remove(i)) == pairs_map(s).remove(s[i].0@),
    decreases s.len(),
{
    let k = s[i].0@;
    lemma_pairs_map_dom(s.drop_last(), k);
    if i == s.len() - 1 {
        assert(s.remove(i) =~= s.drop_last());
        assert(forall|j: int| 0 <= j < s.len() - 1 ==> s.drop_last()[j] == s[j] && s[j].0@ != k);
        assert(!pairs_map(s.drop_last()).dom().contains(k));
        assert(pairs_map(s.drop_last()).insert(k, s.last().1).remove(k) =~= pairs_map(
            s.drop_last(),
        ));
    } else {
        let t = s.drop_last();
        assert(s.remove(i).drop_last() =~= t.remove(i));
        assert(s.remove(i).last() == s.last());
        lemma_pairs_map_remove(t, i);
        assert(t[i] == s[i]);
        assert(pairs_map(s.remove(i)) == pairs_map(t.remove(i)).insert(s.last().0@, s.last().1));
        assert(s.last().0@ != k);
        assert(pairs_map(t).remove(k).insert(s.last().0@, s.last().1) =~= pairs_map(t).insert(
            s.last().0@,
            s.last().1,
        ).remove(k));
    }
}

/// A string-keyed map of values of type `V`, backed by a vector of
/// pairs whose keys are pairwise distinct.
#[derive(Clone)]
pub struct StrMap<V> {
    pairs: Vec<(String, V)>,
}

impl<V> StrMap<V> {
    /// The keys, in storage order.
    pub(crate) closed spec fn kseq(&self) -> Seq<Seq<char>> {
        self.pairs@.map_values(|p: (String, V)| p.0@)
    }

    /// The values, in storage order.
    pub(crate) closed spec fn vseq(&self) -> Seq<V> {
        self.pairs@.map_values(|p: (String, V)| p.1)
    }

    /// The keys are pairwise distinct.
    pub(crate) closed spec fn wf(&self) -> bool {
        distinct_keys(self.pairs@)
    }

    /// The mathematical content.
    pub(crate) closed spec fn view(&self) -> Map<Seq<char>, V> {
        pairs_map(self.pairs@)
    }

    /// A key of the map is a key of some pair, and under distinctness the
    /// pair holding a key gives its value.
    pub(crate) proof fn lemma_positions(&self)
        ensures
            forall|k: Seq<char>|
                self@.dom().contains(k) <==> exists|i: int| 0 <= i < self.kseq().len()
                    && self.kseq()[i] == k,
            self.wf() ==> forall|i: int|
                0 <= i < self.kseq().len() ==> self@.dom().contains(#[trigger] self.kseq()[i])
                    && self@[self.kseq()[i]] == self.vseq()[i],
            self.wf() ==> forall|i: int, j: int|
                0 <= i < j < self.kseq().len() ==> self.kseq()[i] != self.kseq()[j],
            self.vseq().len() == self.kseq().len(),
    {
        assert(self.vseq().len() == self.pairs@.len());
        assert(self.kseq().len() == self.pairs@.len());
        assert forall|k: Seq<char>|
            self@.dom().contains(k) <==> exists|i: int|
                0 <= i < self.kseq().len() && self.kseq()[i] == k by {
            lemma_pairs_map_dom(self.pairs@, k);
            if self@.dom().contains(k) {
                let i = choose|i: int| 0 <= i < self.pairs@.len() && self.pairs@[i].0@ == k;
                assert(self.kseq()[i] == k);
            }
            if exists|i: int| 0 <= i < self.kseq().len() && self.kseq()[i] == k {
                let i = choose|i: int| 0 <= i < self.kseq().len() && self.kseq()[i] == k;
                assert(self.pairs@[i].0@ == k);
            }
        }
        if self.wf() {
            assert forall|i: int| 0 <= i < self.kseq().len() implies self@.dom().contains(
                #[trigger] self.kseq()[i],
            ) && self@[self.kseq()[i]] == self.vseq()[i] by {
                lemma_pairs_map_at(self.pairs@, i);
            }
            assert forall|i: int, j: int|
                0 <= i < j < self.kseq().len() implies self.kseq()[i] != self.kseq()[j] by {
                assert(self.pairs@[i].0@ != self.pairs@[j].0@);
            }
        }
    }

    /// Under distinctness the number of keys equals the number of pairs.
    pub(crate) proof fn lemma_dom_len(&self)
        requires
            self.wf(),
        ensures
            self@.dom().len() == self.kseq().len(),
            self@.dom().finite(),
    {
        lemma_pairs_map_len(self.pairs@);
    }

    /// An empty map.
    pub(crate) fn new() -> (r: Self)
        ensures
            r@ == Map::<Seq<char>, V>::empty(),
            r.wf(),
            r.kseq() == Seq::<Seq<char>>::empty(),
    {
        let r = StrMap { pairs: Vec::new() };
        proof {
            assert(r.kseq() =~= Seq::<Seq<char>>::empty());
        }
        r
    }

    /// The number of pairs held.
    pub(crate) fn len(&self) -> (n: usize)
        ensures
            n == self.kseq().len(),
    {
        self.pairs.len()
    }

    /// The position of the pair holding key `k`, if one does.
    fn find(&self, k: &str) -> (r: Option<usize>)
        ensures
            match r {
                Some(i) => i < self.kseq().len() && self.kseq()[i as int] == k@,
                None => forall|i: int| 0 <= i < self.kseq().len() ==> self.kseq()[i] != k@,
            },
    {
        let key = k.to_owned();
        let n = self.pairs.len();
        let mut i: usize = 0;
        while i < n
            invariant
                n == self.kseq().len(),
                i <= n,
                key@ == k@,
                forall|j: int| 0 <= j < i ==> self.kseq()[j] != k@,
            decreases n - i,
        {
            if self.pairs[i].0 == key {
                assert(self.kseq()[i as int] == k@);
                return Some(i);
            }
            i = i + 1;
        }
        None
    }

    /// Whether a pair holds key `k`.
    pub(crate) fn contains_key(&self, k: &str) -> (r: bool)
        ensures
            r == self@.dom().contains(k@),
    {
        proof {
            self.lemma_positions();
        }
        self.find(k).is_some()
    }

    /// The value held under key `k`, if any.
    pub(crate) fn get(&self, k: &str) -> (r: Option<&V>)
        requires
            self.wf(),
        ensures
            match r {
                Some(v) => self@.dom().contains(k@) && *v == self@[k@],
                None => !self@.dom().contains(k@),
            },
    {
        proof {
            self.lemma_positions();
        }
        match self.find(k) {
            Some(i) => Some(&self.pairs[i].1),
            None => None,
        }
    }

    /// Put `v` under key `k`, handing back what was there.
    pub(crate) fn insert(&mut self, k: String, v: V) -> (old_v: Option<V>)
        requires
            old(self).wf(),
        ensures
            final(self).wf(),
            final(self)@ == old(self)@.insert(k@, v),
            match old_v {
                Some(w) => old(self)@.dom().contains(k@) && w == old(self)@[k@],
                None => !old(self)@.dom().contains(k@),
            },
    {
        proof {
            self.lemma_positions();
        }
        let ghost prior = self.pairs@;
        let found = self.find(k.as_str());
        let old_v = match found {
            Some(i) => {
                let (_, w) = self.pairs.remove(i);
                proof {
                    lemma_pairs_map_remove(prior, i as int);
                    lemma_pairs_map_at(prior, i as int);
                    assert forall|a: int, b: int|
                        0 <= a < b < self.pairs@.len() implies self.pairs@[a].0@
                        != self.pairs@[b].0@ by {
                        assert(self.pairs@[a] == if a < i { prior[a] } else { prior[a + 1] });
                        assert(self.pairs@[b] == if b < i { prior[b] } else { prior[b + 1] });
                    }
                    assert forall|j: int| 0 <= j < self.pairs@.len() implies self.pairs@[j].0@
                        != k@ by {
                        assert(self.pairs@[j] == if j < i { prior[j] } else { prior[j + 1] });
                        assert(prior[i as int].0@ == k@);
                    }
                }
                Some(w)
            },
            None => {
                proof {
                    assert forall|j: int| 0 <= j < self.pairs@.len() implies self.pairs@[j].0@
                        != k@ by {
                        assert(old(self).kseq()[j] != k@);
                    }
                }
                None
            },
        };
        let ghost mid = self.pairs@;
        proof {
            assert(distinct_keys(mid));
            assert(forall|j: int| 0 <= j < mid.len() ==> #[trigger] mid[j].0@ != k@);
        }
        self.pairs.push((k, v));
        proof {
            assert(self.pairs@.drop_last() =~= mid);
            assert forall|a: int, b: int|
                0 <= a < b < self.pairs@.len() implies self.pairs@[a].0@ != self.pairs@[b].0@ by {
                if b < self.pairs@.len() - 1 {
                    assert(self.pairs@[a] == mid[a] && self.pairs@[b] == mid[b]);
                } else {
                    assert(self.pairs@[a] == mid[a] && self.pairs@[b].0@ == k@);
                }
            }
            if found is Some {
                assert(pairs_map(mid) == pairs_map(prior).remove(k@));
                assert(self@ =~= old(self)@.insert(k@, v));
            } else {
                assert(self@ =~= old(self)@.insert(k@, v));
            }
        }
        old_v
    }

    /// Remove the pair holding key `k`, handing back its value.
    pub(crate) fn remove(&mut self, k: &str) -> (old_v: Option<V>)
        requires
            old(self).wf(),
        ensures
            final(self).wf(),
            final(self)@ == old(self)@.remove(k@),
            match old_v {
                Some(w) => old(self)@.dom().contains(k@) && w == old(self)@[k@],
                None => !old(self)@.dom().contains(k@) && final(self)@ == old(self)@,
            },
    {
        proof {
            self.lemma_positions();
        }
        let ghost prior = self.pairs@;
        match self.find(k) {
            Some(i) => {
                let (_, w) = self.pairs.remove(i);
                proof {
                    lemma_pairs_map_remove(prior, i as int);
                    lemma_pairs_map_at(prior, i as int);
                }
                Some(w)
            },
            None => {
                proof {
                    assert(self@.remove(k@) =~= self@);
                }
                None
            },
        }
    }

    /// The key of the pair at position `i`.
    pub(crate) fn key_at(&self, i: usize) -> (r: &String)
        requires
            i < self.kseq().len(),
        ensures
            r@ == self.kseq()[i as int],
    {
        &self.pairs[i].0
    }

    /// The value of the pair at position `i`.
    pub(crate) fn value_at(&self, i: usize) -> (r: &V)
        requires
            i < self.kseq().len(),
        ensures
            *r == self.vseq()[i as int],
    {
        &self.pairs[i].1
    }

    /// All keys, in storage order, as fresh strings.
    pub(crate) fn keys(&self) -> (r: Vec<String>)
        ensures
            r@.map_values(|s: String| s@) == self.kseq(),
    {
        let n = self.pairs.len();
        let mut r: Vec<String> = Vec::new();
        let mut i: usize = 0;
        while i < n
            invariant
                n == self.kseq().len(),
                i <= n,
                r@.len() == i,
                forall|j: int| 0 <= j < i ==> #[trigger] r@[j]@ == self.kseq()[j],
            decreases n - i,
        {
            r.push(self.pairs[i].0.clone());
            proof {
                assert(r@[i as int]@ == self.kseq()[i as int]);
            }
            i = i + 1;
        }
        proof {
            assert forall|j: int| 0 <= j < n implies r@.map_values(|s: String| s@)[j]
                == self.kseq()[j] by {
                assert(r@[j]@ == self.kseq()[j]);
            }
            assert(r@.map_values(|s: String| s@) =~= self.kseq());
        }
        r
    }
}

/// Under distinct keys, the domain of `pairs_map(s)` has as many keys as
/// `s` has pairs.
pub(crate) proof fn lemma_pairs_map_len<V>(s: Seq<(String, V)>)
    requires
        distinct_keys(s),
    ensures
        pairs_map(s).dom().finite(),
        pairs_map(s).dom().len() == s.len(),
    decreases s.len(),
{
    if s.len() == 0 {
        assert(pairs_map(s).dom() =~= Set::<Seq<char>>::empty());
    } else {
        lemma_pairs_map_len(s.drop_last());
        lemma_pairs_map_dom(s.drop_last(), s.last().0@);
        assert(forall|j: int|
            0 <= j < s.len() - 1 ==> s.drop_last()[j] == s[j] && s[j].0@ != s.last().0@);
        assert(!pairs_map(s.drop_last()).dom().contains(s.last().0@));
        assert(pairs_map(s).dom() =~= pairs_map(s.drop_last()).dom().insert(s.last().0@));
    }
}

} // verus!
