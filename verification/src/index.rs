//! The index: the next issue identifier, and for each issue the next
//! identifier of a comment.

use std::collections::HashMap;
use vstd::prelude::*;
use vstd::std_specs::hash::*;
use vstd::std_specs::iter::IteratorSpec;

verus! {

broadcast use group_hash_axioms;

/// The map that a list of `(issue, count)` pairs stands for: a later pair
/// replaces an earlier one of the same issue.
pub open spec fn pairs_map(s: Seq<(u32, u32)>) -> Map<u32, u32>
    decreases s.len(),
{
    if s.len() == 0 {
        Map::empty()
    } else {
        pairs_map(s.drop_last()).insert(s.last().0, s.last().1)
    }
}

/// Whether no two pairs of `s` speak of the same issue.
pub open spec fn distinct_keys(s: Seq<(u32, u32)>) -> bool {
    forall|i: int, j: int| 0 <= i < j < s.len() ==> (#[trigger] s[i]).0 != (#[trigger] s[j]).0
}

/// Whether a pair of `s` speaks of issue `k`.
pub open spec fn has_key(s: Seq<(u32, u32)>, k: u32) -> bool {
    exists|i: int| 0 <= i < s.len() && (#[trigger] s[i]).0 == k
}

/// The issues of `pairs_map(s)` are those that a pair of `s` speaks of.
pub proof fn lemma_pairs_map_dom(s: Seq<(u32, u32)>, k: u32)
    ensures
        pairs_map(s).contains_key(k) <==> has_key(s, k),
    decreases s.len(),
{
    if s.len() > 0 {
        let t = s.drop_last();
        lemma_pairs_map_dom(t, k);
        if has_key(s, k) {
            let i = choose|i: int| 0 <= i < s.len() && (#[trigger] s[i]).0 == k;
            if i < s.len() - 1 {
                assert(t[i].0 == k);
            }
        }
        if has_key(t, k) {
            let i = choose|i: int| 0 <= i < t.len() && (#[trigger] t[i]).0 == k;
            assert(s[i].0 == k);
        }
        if s.last().0 == k {
            assert(s[s.len() - 1].0 == k);
        }
    }
}

/// Where no issue occurs twice, `pairs_map(s)` gives each issue the count of
/// its pair.
pub proof fn lemma_pairs_map_value(s: Seq<(u32, u32)>, i: int)
    requires
        distinct_keys(s),
        0 <= i < s.len(),
    ensures
        pairs_map(s).contains_key(s[i].0),
        pairs_map(s)[s[i].0] == s[i].1,
    decreases s.len(),
{
    let t = s.drop_last();
    if i < s.len() - 1 {
        assert(distinct_keys(t)) by {
            assert forall|a: int, b: int| 0 <= a < b < t.len() implies (#[trigger] t[a]).0 != (
            #[trigger] t[b]).0 by {
                assert(s[a].0 != s[b].0);
            }
        }
        lemma_pairs_map_value(t, i);
        assert(t[i] == s[i]);
        assert(s[i].0 != s[s.len() - 1].0);
    }
}

/// The index of a store.
#[derive(Debug)]
pub struct Index {
    issue_count: u32,
    comment_count: HashMap<u32, u32>,
}

impl Index {
    /// The next unused issue identifier.
    pub closed spec fn issue_count(&self) -> u32 {
        self.issue_count
    }

    /// For each issue that has one, the next unused identifier of a comment.
    pub closed spec fn comment_count(&self) -> Map<u32, u32> {
        self.comment_count@
    }

    /// The index of an empty store.
    pub fn new() -> (index: Index)
        ensures
            index.issue_count() == 0,
            index.comment_count() == Map::<u32, u32>::empty(),
    {
        Index { issue_count: 0, comment_count: HashMap::new() }
    }

    /// The next unused issue identifier.
    pub fn next_issue_id(&self) -> (id: u32)
        ensures
            id == self.issue_count(),
    {
        self.issue_count
    }

    /// Sets the next unused issue identifier to `count`.
    pub fn set_issue_count(&mut self, count: u32)
        ensures
            final(self).issue_count() == count,
            final(self).comment_count() == old(self).comment_count(),
    {
        self.issue_count = count;
    }

    /// The next unused comment identifier of `issue_id`, if the index knows
    /// the issue.
    pub fn comment_count_of(&self, issue_id: u32) -> (count: Option<u32>)
        ensures
            count == (if self.comment_count().contains_key(issue_id) {
                Some(self.comment_count()[issue_id])
            } else {
                None
            }),
    {
        match self.comment_count.get(&issue_id) {
            Some(n) => Some(*n),
            None => None,
        }
    }

    /// Sets the next unused comment identifier of `issue_id` to `count`.
    pub fn set_comment_count(&mut self, issue_id: u32, count: u32)
        ensures
            final(self).issue_count() == old(self).issue_count(),
            final(self).comment_count() == old(self).comment_count().insert(issue_id, count),
    {
        self.comment_count.insert(issue_id, count);
    }

    /// The issues that have a comment counter, each once with its counter,
    /// in the order in which the map hands them out.
    pub fn pairs(&self) -> (v: Vec<(u32, u32)>)
        ensures
            distinct_keys(v@),
            pairs_map(v@) == self.comment_count(),
    {
        let m = &self.comment_count;
        let mut v: Vec<(u32, u32)> = Vec::new();
        let ghost walked = spec_hash_map_iter(m).remaining();
        for pair in it: m.iter()
            invariant
                v@.len() == it.index(),
                walked == it.seq(),
                it.seq().no_duplicates(),
                forall|k: u32| #[trigger] m@.contains_key(k) ==> it.seq().contains((&k, &m@[k])),
                forall|i: int|
                    0 <= i < it.seq().len() ==> m@.contains_key(*(#[trigger] it.seq()[i]).0)
                        && m@[*it.seq()[i].0] == *it.seq()[i].1,
                forall|i: int|
                    0 <= i < v@.len() ==> (#[trigger] v@[i]) == (*it.seq()[i].0, *it.seq()[i].1),
        {
            let (k, count) = pair;
            v.push((*k, *count));
        }
        proof {
            assert forall|i: int, j: int| 0 <= i < j < v@.len() implies (#[trigger] v@[i]).0 != (
            #[trigger] v@[j]).0 by {
                if v@[i].0 == v@[j].0 {
                    assert(m@[*walked[i].0] == *walked[i].1);
                    assert(m@[*walked[j].0] == *walked[j].1);
                    assert(walked[i] == walked[j]);
                }
            }
            assert forall|k: u32| pairs_map(v@).contains_key(k) <==> m@.contains_key(k) by {
                lemma_pairs_map_dom(v@, k);
                if has_key(v@, k) {
                    let i = choose|i: int| 0 <= i < v@.len() && (#[trigger] v@[i]).0 == k;
                    assert(m@.contains_key(*walked[i].0));
                }
                if m@.contains_key(k) {
                    let p = (&k, &m@[k]);
                    assert(walked.contains(p));
                    let i = choose|i: int| 0 <= i < walked.len() && walked[i] == p;
                    assert(v@[i].0 == k);
                }
            }
            assert forall|k: u32| pairs_map(v@).contains_key(k) implies pairs_map(v@)[k]
                == m@[k] by {
                lemma_pairs_map_dom(v@, k);
                let i = choose|i: int| 0 <= i < v@.len() && (#[trigger] v@[i]).0 == k;
                lemma_pairs_map_value(v@, i);
                assert(m@[*walked[i].0] == *walked[i].1);
            }
            assert(pairs_map(v@) =~= m@);
        }
        v
    }
}

} // verus!
