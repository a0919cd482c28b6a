//! A small association map keyed by `Chapter`, with a `Map` view.
//!
//! Snapshots and records hold at most a few dozen entries, so a vector of
//! pairs with pairwise-distinct keys backs the map.
use vstd::prelude::*;

use crate::levels::Chapter;

verus! {

broadcast use vstd::set::group_set_axioms;

/// The map described by an association sequence, later pairs overriding
/// earlier ones.
pub open spec fn map_of<V>(s: Seq<(Chapter, V)>) -> Map<Chapter, V>
    decreases s.len(),
{
    if s.len() == 0 {
        Map::empty()
    } else {
        map_of(s.drop_last()).insert(s.last().0, s.last().1)
    }
}

/// Pairwise-distinct keys.
pub open spec fn unique_keys<V>(s: Seq<(Chapter, V)>) -> bool {
    forall|i: int, j: int| 0 <= i < j < s.len() ==> s[i].0 != s[j].0
}

pub proof fn lemma_map_of_contains<V>(s: Seq<(Chapter, V)>, k: Chapter)
    ensures
        map_of(s).contains_key(k) <==> exists|i: int| 0 <= i < s.len() && s[i].0 == k,
    decreases s.len(),
{
    if s.len() > 0 {
        lemma_map_of_contains(s.drop_last(), k);
        if s.last().0 == k {
            assert(s[s.len() - 1].0 == k);
        } else if map_of(s).contains_key(k) {
            let i = choose|i: int| 0 <= i < s.drop_last().len() && s.drop_last()[i].0 == k;
            assert(s[i].0 == k);
        } else {
            assert forall|i: int| 0 <= i < s.len() implies s[i].0 != k by {
                if i < s.len() - 1 {
                    assert(s.drop_last()[i].0 == s[i].0);
                }
            }
        }
    }
}

pub proof fn lemma_map_of_index<V>(s: Seq<(Chapter, V)>, i: int)
    requires
        unique_keys(s),
        0 <= i < s.len(),
    ensures
        map_of(s).contains_key(s[i].0),
        map_of(s)[s[i].0] == s[i].1,
    decreases s.len(),
{
    if i == s.len() - 1 {
    } else {
        assert(s.drop_last()[i] == s[i]);
        lemma_map_of_index(s.drop_last(), i);
        assert(s[i].0 != s.last().0);
    }
}

pub proof fn lemma_map_of_len<V>(s: Seq<(Chapter, V)>)
    requires
        unique_keys(s),
    ensures
        map_of(s).dom().len() == s.len(),
        map_of(s).dom().finite(),
    decreases s.len(),
{
    if s.len() > 0 {
        lemma_map_of_len(s.drop_last());
        lemma_map_of_contains(s.drop_last(), s.last().0);
        assert forall|i: int| 0 <= i < s.drop_last().len() implies s.drop_last()[i].0
            != s.last().0 by {
            assert(s.drop_last()[i] == s[i]);
        }
        assert(!map_of(s.drop_last()).contains_key(s.last().0));
        assert(map_of(s).dom() == map_of(s.drop_last()).dom().insert(s.last().0));
    }
}

/// An insertion-ordered map from chapters to values.
#[derive(Debug)]
pub struct ChapterMap<V> {
    entries: Vec<(Chapter, V)>,
}

impl<V> View for ChapterMap<V> {
    type V = Map<Chapter, V>;

    closed spec fn view(&self) -> Map<Chapter, V> {
        map_of(self.entries@)
    }
}

impl<V> ChapterMap<V> {
    #[verifier::type_invariant]
    spec fn inv(self) -> bool {
        unique_keys(self.entries@)
    }

    /// The entries as a sequence of pairs, in insertion order.
    pub closed spec fn pairs(&self) -> Seq<(Chapter, V)> {
        self.entries@
    }

    /// The number of stored pairs, together with the facts that connect the
    /// pair sequence to the map view.
    pub fn pair_count(&self) -> (n: usize)
        ensures
            n == self.pairs().len(),
            unique_keys(self.pairs()),
            self@ == map_of(self.pairs()),
            self@.dom().finite(),
            n == self@.dom().len(),
            forall|i: int|
                0 <= i < self.pairs().len() ==> #[trigger] self@.contains_key(self.pairs()[i].0)
                    && self@[self.pairs()[i].0] == self.pairs()[i].1,
            forall|k: Chapter|
                self@.contains_key(k) ==> exists|i: int|
                    0 <= i < self.pairs().len() && self.pairs()[i].0 == k,
    {
        proof {
            use_type_invariant(self);
            lemma_map_of_len(self.entries@);
            assert forall|i: int| 0 <= i < self.pairs().len() implies #[trigger] self@.contains_key(
                self.pairs()[i].0,
            ) && self@[self.pairs()[i].0] == self.pairs()[i].1 by {
                lemma_map_of_index(self.entries@, i);
            }
            assert forall|k: Chapter| self@.contains_key(k) implies exists|i: int|
                0 <= i < self.pairs().len() && self.pairs()[i].0 == k by {
                lemma_map_of_contains(self.entries@, k);
                let i = choose|i: int| 0 <= i < self.entries@.len() && self.entries@[i].0 == k;
                assert(0 <= i < self.pairs().len() && self.pairs()[i].0 == k);
            }
        }
        self.entries.len()
    }

    /// The pair at a position, in insertion order.
    pub fn pair_at(&self, i: usize) -> (r: &(Chapter, V))
        requires
            i < self.pairs().len(),
        ensures
            *r == self.pairs()[i as int],
    {
        &self.entries[i]
    }

    /// An empty map.
    pub fn new() -> (r: ChapterMap<V>)
        ensures
            r@ == Map::<Chapter, V>::empty(),
            r.pairs() == Seq::<(Chapter, V)>::empty(),
    {
        ChapterMap { entries: Vec::new() }
    }

    /// The number of chapters with an entry.
    pub fn len(&self) -> (n: usize)
        ensures
            n == self@.dom().len(),
            n == self.pairs().len(),
    {
        proof {
            use_type_invariant(self);
            lemma_map_of_len(self.entries@);
        }
        self.entries.len()
    }

    /// The value recorded for a chapter, if any.
    pub fn get(&self, c: &Chapter) -> (r: Option<&V>)
        ensures
            match r {
                Some(v) => self@.contains_key(*c) && *v == self@[*c],
                None => !self@.contains_key(*c),
            },
    {
        proof {
            use_type_invariant(self);
        }
        let n = self.entries.len();
        let mut i: usize = 0;
        while i < n
            invariant
                n == self.entries@.len(),
                i <= n,
                unique_keys(self.entries@),
                self@ == map_of(self.entries@),
                forall|j: int| 0 <= j < i ==> self.entries@[j].0 != *c,
            decreases n - i,
        {
            if self.entries[i].0 == *c {
                proof {
                    lemma_map_of_index(self.entries@, i as int);
                }
                return Some(&self.entries[i].1);
            }
            i += 1;
        }
        proof {
            lemma_map_of_contains(self.entries@, *c);
        }
        None
    }

    /// Whether a chapter has an entry.
    pub fn contains_key(&self, c: &Chapter) -> (r: bool)
        ensures
            r == self@.contains_key(*c),
    {
        self.get(c).is_some()
    }

    /// Record a value for a chapter, replacing any earlier one.
    pub fn insert(&mut self, c: Chapter, v: V)
        ensures
            final (self)@ == old(self)@.insert(c, v),
    {
        proof {
            use_type_invariant(&*self);
        }
        let n = self.entries.len();
        let mut i: usize = 0;
        while i < n
            invariant
                n == self.entries@.len(),
                i <= n,
                unique_keys(self.entries@),
                self.entries@ == old(self).entries@,
                forall|j: int| 0 <= j < i ==> self.entries@[j].0 != c,
            decreases n - i,
        {
            if self.entries[i].0 == c {
                proof {
                    lemma_map_of_update(self.entries@, i as int, c, v);
                }
                let mut es: Vec<(Chapter, V)> = Vec::new();
                core::mem::swap(&mut es, &mut self.entries);
                es[i] = (c, v);
                core::mem::swap(&mut es, &mut self.entries);
                return ;
            }
            i += 1;
        }
        let mut es: Vec<(Chapter, V)> = Vec::new();
        core::mem::swap(&mut es, &mut self.entries);
        proof {
            assert(es@.push((c, v)).drop_last() =~= es@);
        }
        es.push((c, v));
        core::mem::swap(&mut es, &mut self.entries);
    }
}

impl<V: Copy> ChapterMap<V> {
    /// An identical copy of the map.
    pub fn duplicate(&self) -> (r: ChapterMap<V>)
        ensures
            r@ == self@,
            r.pairs() == self.pairs(),
    {
        proof {
            use_type_invariant(self);
        }
        let n = self.entries.len();
        let mut es: Vec<(Chapter, V)> = Vec::new();
        let mut i: usize = 0;
        while i < n
            invariant
                n == self.entries@.len(),
                i <= n,
                es@ == self.entries@.take(i as int),
            decreases n - i,
        {
            es.push(self.entries[i]);
            proof {
                assert(es@ =~= self.entries@.take(i + 1));
            }
            i += 1;
        }
        proof {
            use_type_invariant(self);
            assert(es@ =~= self.entries@);
        }
        ChapterMap { entries: es }
    }
}

proof fn lemma_map_of_update<V>(s: Seq<(Chapter, V)>, i: int, k: Chapter, v: V)
    requires
        unique_keys(s),
        0 <= i < s.len(),
        s[i].0 == k,
    ensures
        unique_keys(s.update(i, (k, v))),
        map_of(s.update(i, (k, v))) == map_of(s).insert(k, v),
    decreases s.len(),
{
    let t = s.update(i, (k, v));
    assert forall|a: int, b: int| 0 <= a < b < t.len() implies t[a].0 != t[b].0 by {
        assert(s[a].0 != s[b].0);
    }
    if i == s.len() - 1 {
        assert(t.drop_last() =~= s.drop_last());
        assert(map_of(t) == map_of(s.drop_last()).insert(k, v));
        assert(map_of(s).insert(k, v) == map_of(s.drop_last()).insert(k, s[i].1).insert(k, v));
        assert(map_of(s.drop_last()).insert(k, s[i].1).insert(k, v) =~= map_of(
            s.drop_last(),
        ).insert(k, v));
    } else {
        assert(t.drop_last() =~= s.drop_last().update(i, (k, v)));
        assert(s.drop_last()[i] == s[i]);
        lemma_map_of_update(s.drop_last(), i, k, v);
        assert(t.last() == s.last());
        assert(s.last().0 != k);
        assert(map_of(t) == map_of(s.drop_last()).insert(k, v).insert(s.last().0, s.last().1));
        assert(map_of(s.drop_last()).insert(k, v).insert(s.last().0, s.last().1) =~= map_of(
            s.drop_last(),
        ).insert(s.last().0, s.last().1).insert(k, v));
    }
}

} // verus!
