//! The change watcher's monotonicity filter: of the snapshots parsed from
//! successive file modifications, one is passed on only when it is no less
//! complete than the last emitted snapshot and differs from it; anything
//! smaller or identical is treated as a stale or partial write.
use vstd::prelude::*;

use vstd::set_lib::lemma_subset_equality;

use crate::levels::Chapter;
use crate::saves::AreaModeStats;
use crate::saves::TimeMap;

verus! {

/// Whether two snapshots record the same statistics for the same segments.
fn time_map_eq(a: &TimeMap, b: &TimeMap) -> (r: bool)
    ensures
        r == (a@ == b@),
{
    let na = a.pair_count();
    let nb = b.pair_count();
    if na != nb {
        return false;
    }
    let mut i: usize = 0;
    while i < na
        invariant
            na == a.pairs().len(),
            i <= na,
            a@.dom().len() == na,
            b@.dom().len() == na,
            a@.dom().finite(),
            b@.dom().finite(),
            forall|j: int|
                0 <= j < a.pairs().len() ==> #[trigger] a@.contains_key(a.pairs()[j].0)
                    && a@[a.pairs()[j].0] == a.pairs()[j].1,
            forall|k: Chapter|
                a@.contains_key(k) ==> exists|j: int|
                    0 <= j < a.pairs().len() && a.pairs()[j].0 == k,
            forall|j: int|
                0 <= j < i ==> b@.contains_key(#[trigger] a.pairs()[j].0) && b@[a.pairs()[j].0]
                    == a.pairs()[j].1,
        decreases na - i,
    {
        let p = a.pair_at(i);
        proof {
            assert(a@.contains_key(a.pairs()[i as int].0) && a@[a.pairs()[i as int].0]
                == a.pairs()[i as int].1);
        }
        match b.get(&p.0) {
            Some(v) => {
                if !(*v == p.1) {
                    return false;
                }
            }
            None => {
                return false;
            }
        }
        i += 1;
    }
    proof {
        assert forall|k: Chapter| a@.contains_key(k) implies b@.contains_key(k) && b@[k]
            == a@[k] by {
            let j = choose|j: int| 0 <= j < a.pairs().len() && a.pairs()[j].0 == k;
            assert(b@.contains_key(a.pairs()[j].0));
        }
        assert(a@.dom().subset_of(b@.dom()));
        lemma_subset_equality(a@.dom(), b@.dom());
        assert(a@ =~= b@);
    }
    true
}

/// The watcher's own record of the last emitted snapshot.
pub struct EmissionFilter {
    last: Option<TimeMap>,
}

impl EmissionFilter {
    /// The last emitted snapshot, if any was emitted.
    pub closed spec fn last_emitted(&self) -> Option<Map<Chapter, AreaModeStats>> {
        match self.last {
            Some(m) => Some(m@),
            None => None,
        }
    }

    /// A filter that has emitted nothing yet.
    pub fn new() -> (r: EmissionFilter)
        ensures
            r.last_emitted() is None,
    {
        EmissionFilter { last: None }
    }

    /// Whether a freshly parsed snapshot should be emitted: the first
    /// snapshot always is; a later one only when it holds at least as many
    /// completed segments as the last emitted snapshot and differs from it.
    /// A snapshot with fewer completed segments, or one identical to the
    /// last emitted, is treated as a stale or partial write. An emitted
    /// snapshot becomes the new comparison basis; a suppressed one leaves it
    /// unchanged.
    pub fn should_emit(&mut self, snapshot: &TimeMap) -> (emit: bool)
        ensures
            emit == (match old(self).last_emitted() {
                None => true,
                Some(prev) => snapshot@.dom().len() >= prev.dom().len() && snapshot@ != prev,
            }),
            final (self).last_emitted() == (if emit {
                Some(snapshot@)
            } else {
                old(self).last_emitted()
            }),
    {
        let emit = match &self.last {
            None => true,
            Some(prev) => snapshot.len() >= prev.len() && !time_map_eq(snapshot, prev),
        };
        if emit {
            self.last = Some(snapshot.duplicate());
        }
        emit
    }
}

} // verus!
