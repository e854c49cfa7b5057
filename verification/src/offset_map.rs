//! A per-partition offset table: a small association list from
//! (topic, partition) keys to offsets, viewed as a mathematical map.
//! Both the fetch cursors of the consumption loop and the commit points
//! of the commit coordinator are tables of this shape.

use vstd::prelude::*;

use crate::types::TopicPartition;

verus! {

/// The map described by an association list, later entries winning.
pub open spec fn assoc_view(s: Seq<(TopicPartition, u64)>) -> Map<(Seq<char>, u32), u64>
    decreases s.len(),
{
    if s.len() == 0 {
        Map::empty()
    } else {
        assoc_view(s.drop_last()).insert(s.last().0@, s.last().1)
    }
}

/// Pairwise distinct keys, so that every key names one entry.
pub open spec fn distinct_keys(s: Seq<(TopicPartition, u64)>) -> bool {
    forall|i: int, j: int| 0 <= i < j < s.len() ==> #[trigger] s[i].0@ != #[trigger] s[j].0@
}

/// A key is in the map exactly when some entry carries it.
pub proof fn lemma_assoc_contains(s: Seq<(TopicPartition, u64)>, k: (Seq<char>, u32))
    ensures
        assoc_view(s).contains_key(k) <==> exists|i: int|
            0 <= i < s.len() && #[trigger] s[i].0@ == k,
    decreases s.len(),
{
    if s.len() > 0 {
        lemma_assoc_contains(s.drop_last(), k);
        if s.last().0@ == k {
            assert(s[s.len() - 1].0@ == k);
        } else {
            if exists|i: int| 0 <= i < s.len() && #[trigger] s[i].0@ == k {
                let i = choose|i: int| 0 <= i < s.len() && #[trigger] s[i].0@ == k;
                assert(s.drop_last()[i].0@ == k);
            }
        }
    }
}

/// With distinct keys, each entry's key maps to that entry's value.
pub proof fn lemma_assoc_value(s: Seq<(TopicPartition, u64)>, i: int)
    requires
        distinct_keys(s),
        0 <= i < s.len(),
    ensures
        assoc_view(s).contains_key(s[i].0@),
        assoc_view(s)[s[i].0@] == s[i].1,
    decreases s.len(),
{
    if i < s.len() - 1 {
        assert(distinct_keys(s.drop_last())) by {
            assert forall|x: int, y: int|
                0 <= x < y < s.drop_last().len() implies #[trigger] s.drop_last()[x].0@
                != #[trigger] s.drop_last()[y].0@ by {
                assert(s[x].0@ != s[y].0@);
            }
        }
        lemma_assoc_value(s.drop_last(), i);
        assert(s.drop_last()[i] == s[i]);
        assert(s[i].0@ != s.last().0@);
    }
}

/// Removing the entry at `i` removes exactly its key from the map view.
pub proof fn lemma_assoc_remove(s: Seq<(TopicPartition, u64)>, i: int)
    requires
        distinct_keys(s),
        0 <= i < s.len(),
    ensures
        assoc_view(s.remove(i)) == assoc_view(s).remove(s[i].0@),
    decreases s.len(),
{
    let k = s[i].0@;
    if i == s.len() - 1 {
        assert(s.remove(i) =~= s.drop_last());
        lemma_assoc_contains(s.drop_last(), k);
        assert(!assoc_view(s.drop_last()).contains_key(k)) by {
            if exists|j: int| 0 <= j < s.drop_last().len() && #[trigger] s.drop_last()[j].0@ == k {
                let j = choose|j: int|
                    0 <= j < s.drop_last().len() && #[trigger] s.drop_last()[j].0@ == k;
                assert(s[j].0@ == s[i].0@);
            }
        }
        assert(assoc_view(s.drop_last()) =~= assoc_view(s).remove(k));
    } else {
        assert(distinct_keys(s.drop_last())) by {
            assert forall|x: int, y: int|
                0 <= x < y < s.drop_last().len() implies #[trigger] s.drop_last()[x].0@
                != #[trigger] s.drop_last()[y].0@ by {
                assert(s[x].0@ != s[y].0@);
            }
        }
        assert(s.drop_last()[i] == s[i]);
        lemma_assoc_remove(s.drop_last(), i);
        let r = s.remove(i);
        s.remove_ensures(i);
        assert(r.drop_last() =~= s.drop_last().remove(i)) by {
            s.drop_last().remove_ensures(i);
        }
        assert(r.last() == s.last());
        assert(assoc_view(r) == assoc_view(s.drop_last().remove(i)).insert(s.last().0@, s.last().1));
        // The removed key differs from the last entry's key, so removal and
        // the final insert commute.
        assert(s.last().0@ != k);
        assert(assoc_view(s.drop_last()).remove(k).insert(s.last().0@, s.last().1) =~= assoc_view(
            s.drop_last(),
        ).insert(s.last().0@, s.last().1).remove(k));
    }
}

/// A table of offsets keyed by (topic, partition), e.g. fetch cursors or
/// commit points.  Viewed as a map from the key pair to the offset.
pub struct OffsetTable {
    pub entries: Vec<(TopicPartition, u64)>,
}

impl View for OffsetTable {
    type V = Map<(Seq<char>, u32), u64>;

    open spec fn view(&self) -> Map<(Seq<char>, u32), u64> {
        assoc_view(self.entries@)
    }
}

impl OffsetTable {
    pub open spec fn wf(self) -> bool {
        distinct_keys(self.entries@)
    }

    pub open spec fn spec_entries(self) -> Seq<(TopicPartition, u64)> {
        self.entries@
    }

    pub fn new() -> (r: OffsetTable)
        ensures
            r.wf(),
            r@ == Map::<(Seq<char>, u32), u64>::empty(),
            r.spec_entries().len() == 0,
    {
        OffsetTable { entries: Vec::new() }
    }

    fn find(&self, tp: &TopicPartition) -> (r: Option<usize>)
        ensures
            match r {
                Some(i) => i < self.entries@.len() && self.entries@[i as int].0@ == tp@,
                None => forall|i: int|
                    0 <= i < self.entries@.len() ==> #[trigger] self.entries@[i].0@ != tp@,
            },
    {
        let mut i: usize = 0;
        while i < self.entries.len()
            invariant
                i <= self.entries@.len(),
                forall|j: int| 0 <= j < i ==> #[trigger] self.entries@[j].0@ != tp@,
            decreases self.entries@.len() - i,
        {
            if self.entries[i].0.key_eq(tp) {
                return Some(i);
            }
            i = i + 1;
        }
        None
    }

    /// The offset recorded for this key, if any.
    pub fn lookup(&self, tp: &TopicPartition) -> (r: Option<u64>)
        requires
            self.wf(),
        ensures
            r == if self@.contains_key(tp@) {
                Some(self@[tp@])
            } else {
                None::<u64>
            },
    {
        proof {
            lemma_assoc_contains(self.entries@, tp@);
        }
        match self.find(tp) {
            Some(i) => {
                proof {
                    lemma_assoc_value(self.entries@, i as int);
                }
                Some(self.entries[i].1)
            },
            None => None,
        }
    }

    /// Records `v` for this key, replacing any earlier entry.
    pub fn put(&mut self, tp: &TopicPartition, v: u64)
        requires
            old(self).wf(),
        ensures
            final(self).wf(),
            final(self)@ == old(self)@.insert(tp@, v),
    {
        let ghost pre = self.entries@;
        let ghost k = tp@;
        match self.find(tp) {
            Some(i) => {
                proof {
                    lemma_assoc_remove(pre, i as int);
                    pre.remove_ensures(i as int);
                }
                self.entries.remove(i);
                proof {
                    let cur = self.entries@;
                    assert forall|x: int| 0 <= x < cur.len() implies #[trigger] cur[x].0@ != k by {
                        if x < i {
                            assert(cur[x] == pre[x]);
                            assert(pre[x].0@ != pre[i as int].0@);
                        } else {
                            assert(cur[x] == pre[x + 1]);
                            assert(pre[i as int].0@ != pre[x + 1].0@);
                        }
                    }
                    assert(distinct_keys(cur)) by {
                        assert forall|x: int, y: int|
                            0 <= x < y < cur.len() implies #[trigger] cur[x].0@
                            != #[trigger] cur[y].0@ by {
                            if y < i {
                                assert(cur[x] == pre[x] && cur[y] == pre[y]);
                            } else if x < i {
                                assert(cur[x] == pre[x] && cur[y] == pre[y + 1]);
                            } else {
                                assert(cur[x] == pre[x + 1] && cur[y] == pre[y + 1]);
                            }
                        }
                    }
                }
            },
            None => {
                proof {
                    lemma_assoc_contains(pre, k);
                    assert(assoc_view(pre).remove(k) =~= assoc_view(pre));
                }
            },
        }
        let ghost mid = self.entries@;
        self.entries.push((tp.clone(), v));
        proof {
            assert(self.entries@.drop_last() =~= mid);
            assert(self.entries@.last().0@ == k);
            assert(assoc_view(self.entries@) == assoc_view(mid).insert(k, v));
            assert(assoc_view(mid) =~= assoc_view(pre).remove(k));
            assert(assoc_view(pre).remove(k).insert(k, v) =~= assoc_view(pre).insert(k, v));
            let cur = self.entries@;
            assert(distinct_keys(cur)) by {
                assert forall|x: int, y: int|
                    0 <= x < y < cur.len() implies #[trigger] cur[x].0@ != #[trigger] cur[y].0@ by {
                    if y < cur.len() - 1 {
                        assert(cur[x] == mid[x] && cur[y] == mid[y]);
                    } else {
                        assert(cur[x] == mid[x]);
                        assert(mid[x].0@ != k);
                    }
                }
            }
        }
    }

    /// The recorded pairs, in insertion order of their latest update.
    pub fn pairs(&self) -> (r: &Vec<(TopicPartition, u64)>)
        ensures
            r@ == self.spec_entries(),
    {
        &self.entries
    }

    pub fn len(&self) -> (r: usize)
        ensures
            r == self.spec_entries().len(),
    {
        self.entries.len()
    }
}

} // verus!
