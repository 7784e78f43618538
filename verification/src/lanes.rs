//! The lane set: the ordered commits of the lineages being traced.
//!
//! Each layout step selects the lane holding the chronologically newest
//! commit (ties resolve to the leftmost lane, a stable and deterministic
//! rule) and, after expanding it, collapses every lane that reconverged on
//! an already-traced commit, wherever it sits, so that no two lanes ever
//! share a commit.

use vstd::prelude::*;
use crate::commit::{Commit, CommitView};

verus! {

/// `mi` is the index of the leftmost lane with the maximal timestamp.
pub open spec fn is_first_max(lanes: Seq<CommitView>, mi: int) -> bool {
    &&& 0 <= mi < lanes.len()
    &&& forall|j: int| 0 <= j < lanes.len() ==> (#[trigger] lanes[j]).timestamp <= lanes[mi].timestamp
    &&& forall|j: int| 0 <= j < mi ==> (#[trigger] lanes[j]).timestamp < lanes[mi].timestamp
}

/// The scan behind [`first_max_index`]: the best index among `best` and the
/// lanes from `i` on, preferring the earlier lane on ties.
pub open spec fn first_max_from(lanes: Seq<CommitView>, i: int, best: int) -> int
    decreases lanes.len() - i,
{
    if i < 0 || i >= lanes.len() {
        best
    } else if lanes[i].timestamp > lanes[best].timestamp {
        first_max_from(lanes, i + 1, i)
    } else {
        first_max_from(lanes, i + 1, best)
    }
}

/// The index of the leftmost lane holding the maximal timestamp.
pub open spec fn first_max_index(lanes: Seq<CommitView>) -> int
    recommends
        lanes.len() > 0,
{
    first_max_from(lanes, 1, 0)
}

proof fn lemma_first_max_from(lanes: Seq<CommitView>, i: int, best: int)
    requires
        0 <= best < i <= lanes.len(),
        forall|j: int| 0 <= j < i ==> (#[trigger] lanes[j]).timestamp <= lanes[best].timestamp,
        forall|j: int| 0 <= j < best ==> (#[trigger] lanes[j]).timestamp < lanes[best].timestamp,
        forall|j: int|
            best < j < i ==> (#[trigger] lanes[j]).timestamp < lanes[best].timestamp
                || lanes[j].timestamp == lanes[best].timestamp,
    ensures
        is_first_max(lanes, first_max_from(lanes, i, best)),
    decreases lanes.len() - i,
{
    if i < lanes.len() {
        if lanes[i].timestamp > lanes[best].timestamp {
            lemma_first_max_from(lanes, i + 1, i);
        } else {
            lemma_first_max_from(lanes, i + 1, best);
        }
    }
}

/// The leftmost maximal lane really is a maximum, and every lane left of it
/// is strictly older.
pub proof fn lemma_first_max_is_max(lanes: Seq<CommitView>)
    requires
        lanes.len() > 0,
    ensures
        is_first_max(lanes, first_max_index(lanes)),
{
    lemma_first_max_from(lanes, 1, 0);
}

/// Selects the lane to advance: the leftmost one whose commit has the
/// maximal timestamp.
pub fn find_max_index(lanes: &Vec<Commit>) -> (r: usize)
    requires
        lanes.len() > 0,
    ensures
        r == first_max_index(lanes.deep_view()),
        is_first_max(lanes.deep_view(), r as int),
{
    let ghost dv = lanes.deep_view();
    let mut best: usize = 0;
    let mut i: usize = 1;
    while i < lanes.len()
        invariant
            dv == lanes.deep_view(),
            1 <= i <= lanes.len(),
            best < i,
            first_max_from(dv, i as int, best as int) == first_max_index(dv),
        decreases lanes.len() - i,
    {
        if lanes[i].timestamp > lanes[best].timestamp {
            best = i;
        }
        i = i + 1;
    }
    proof {
        lemma_first_max_is_max(dv);
    }
    best
}

/// Some lane in `s` holds the commit `id`.
pub open spec fn id_in(s: Seq<CommitView>, id: u64) -> bool {
    exists|k: int| 0 <= k < s.len() && (#[trigger] s[k]).id == id
}

/// No two lanes hold the same commit, anywhere in the set.
pub open spec fn distinct_ids(s: Seq<CommitView>) -> bool {
    forall|i: int, j: int|
        0 <= i < j < s.len() ==> (#[trigger] s[i]).id != (#[trigger] s[j]).id
}

/// The lane set with every lane whose commit already occurs in an earlier
/// lane removed: each commit keeps its leftmost lane only.
pub open spec fn dedup_spec(s: Seq<CommitView>) -> Seq<CommitView>
    decreases s.len(),
{
    if s.len() == 0 {
        Seq::empty()
    } else {
        let rest = dedup_spec(s.drop_last());
        if id_in(s.drop_last(), s.last().id) {
            rest
        } else {
            rest.push(s.last())
        }
    }
}

proof fn lemma_id_in_push(s: Seq<CommitView>, e: CommitView, id: u64)
    ensures
        id_in(s.push(e), id) == (id_in(s, id) || e.id == id),
{
    if id_in(s, id) {
        let k = choose|k: int| 0 <= k < s.len() && s[k].id == id;
        assert(s.push(e)[k].id == id);
    }
    if e.id == id {
        assert(s.push(e)[s.len() as int].id == id);
    }
    if id_in(s.push(e), id) {
        let k = choose|k: int| 0 <= k < s.push(e).len() && s.push(e)[k].id == id;
        if k < s.len() {
            assert(s[k].id == id);
        }
    }
}

/// Deduplication keeps exactly the commit identifiers that were there.
pub proof fn lemma_dedup_ids(s: Seq<CommitView>, id: u64)
    ensures
        id_in(dedup_spec(s), id) == id_in(s, id),
    decreases s.len(),
{
    if s.len() > 0 {
        let prefix = s.drop_last();
        lemma_dedup_ids(prefix, id);
        assert(prefix.push(s.last()) =~= s);
        lemma_id_in_push(prefix, s.last(), id);
        if !id_in(prefix, s.last().id) {
            lemma_id_in_push(dedup_spec(prefix), s.last(), id);
        } else {
            if id == s.last().id {
                assert(id_in(prefix, id));
            }
        }
    }
}

/// Deduplication never lengthens the lane set, and keeps at least one lane.
pub proof fn lemma_dedup_len(s: Seq<CommitView>)
    ensures
        dedup_spec(s).len() <= s.len(),
        s.len() > 0 ==> dedup_spec(s).len() >= 1,
    decreases s.len(),
{
    if s.len() > 0 {
        lemma_dedup_len(s.drop_last());
        if s.len() == 1 {
            assert(!id_in(s.drop_last(), s.last().id));
        }
    }
}

/// After deduplication no two lanes hold the same commit.
pub proof fn lemma_dedup_distinct(s: Seq<CommitView>)
    ensures
        distinct_ids(dedup_spec(s)),
    decreases s.len(),
{
    if s.len() > 0 {
        let prefix = s.drop_last();
        lemma_dedup_distinct(prefix);
        if !id_in(prefix, s.last().id) {
            let r = dedup_spec(prefix).push(s.last());
            assert forall|i: int, j: int| 0 <= i < j < r.len() implies (#[trigger] r[i]).id != (
            #[trigger] r[j]).id by {
                if j == r.len() - 1 {
                    assert(r[i] == dedup_spec(prefix)[i]);
                    if r[i].id == s.last().id {
                        assert(id_in(dedup_spec(prefix), s.last().id));
                        lemma_dedup_ids(prefix, s.last().id);
                    }
                } else {
                    assert(r[i] == dedup_spec(prefix)[i]);
                    assert(r[j] == dedup_spec(prefix)[j]);
                }
            }
        }
    }
}

/// Every lane of the deduplicated set is one of the lanes it was built from.
pub proof fn lemma_dedup_subset(s: Seq<CommitView>)
    ensures
        forall|i: int|
            0 <= i < dedup_spec(s).len() ==> exists|k: int|
                0 <= k < s.len() && #[trigger] dedup_spec(s)[i] == s[k],
    decreases s.len(),
{
    if s.len() > 0 {
        let prefix = s.drop_last();
        lemma_dedup_subset(prefix);
        let r = dedup_spec(s);
        assert forall|i: int| 0 <= i < r.len() implies exists|k: int|
            0 <= k < s.len() && #[trigger] r[i] == s[k] by {
            if i < dedup_spec(prefix).len() {
                assert(r[i] == dedup_spec(prefix)[i]);
                let k = choose|k: int| 0 <= k < prefix.len() && dedup_spec(prefix)[i] == prefix[k];
                assert(r[i] == s[k]);
            } else {
                assert(r[i] == s.last());
                assert(r[i] == s[s.len() - 1]);
            }
        }
    }
}

/// Deduplicating a lane set that holds no duplicate commit at all is a
/// no-op: same lanes, same order, same length.
pub proof fn lemma_dedup_noop(s: Seq<CommitView>)
    requires
        distinct_ids(s),
    ensures
        dedup_spec(s) == s,
    decreases s.len(),
{
    if s.len() == 0 {
        assert(dedup_spec(s) =~= s);
    } else {
        let prefix = s.drop_last();
        assert(distinct_ids(prefix)) by {
            assert forall|i: int, j: int| 0 <= i < j < prefix.len() implies (
            #[trigger] prefix[i]).id != (#[trigger] prefix[j]).id by {
                assert(prefix[i] == s[i]);
                assert(prefix[j] == s[j]);
            }
        }
        lemma_dedup_noop(prefix);
        assert(!id_in(prefix, s.last().id)) by {
            if id_in(prefix, s.last().id) {
                let k = choose|k: int| 0 <= k < prefix.len() && prefix[k].id == s.last().id;
                assert(s[k].id == s[s.len() - 1].id);
            }
        }
        assert(prefix.push(s.last()) =~= s);
    }
}

/// Deduplication is idempotent.
pub proof fn lemma_dedup_idempotent(s: Seq<CommitView>)
    ensures
        dedup_spec(dedup_spec(s)) == dedup_spec(s),
{
    lemma_dedup_distinct(s);
    lemma_dedup_noop(dedup_spec(s));
}

/// Whether some lane of `v` holds the commit `id`.
fn contains_id(v: &Vec<Commit>, id: u64) -> (r: bool)
    ensures
        r == id_in(v.deep_view(), id),
{
    let ghost dv = v.deep_view();
    let mut j: usize = 0;
    while j < v.len()
        invariant
            dv == v.deep_view(),
            j <= v.len(),
            forall|k: int| 0 <= k < j ==> (#[trigger] dv[k]).id != id,
        decreases v.len() - j,
    {
        if v[j].id == id {
            proof {
                assert(dv[j as int].id == id);
            }
            return true;
        }
        j = j + 1;
    }
    false
}

/// Removes every lane whose commit already occurs in an earlier lane, so
/// that no two lanes of the result hold the same commit.
pub fn dedup_lanes(lanes: &Vec<Commit>) -> (r: Vec<Commit>)
    ensures
        r.deep_view() == dedup_spec(lanes.deep_view()),
        r@.len() <= lanes@.len(),
        lanes@.len() > 0 ==> r@.len() >= 1,
{
    let ghost dv = lanes.deep_view();
    let mut r: Vec<Commit> = Vec::new();
    proof {
        assert(dv.take(0) =~= Seq::<CommitView>::empty());
        assert(r.deep_view() =~= dedup_spec(dv.take(0)));
    }
    let mut i: usize = 0;
    while i < lanes.len()
        invariant
            dv == lanes.deep_view(),
            i <= lanes@.len(),
            r.deep_view() == dedup_spec(dv.take(i as int)),
        decreases lanes@.len() - i,
    {
        let ghost prev = r.deep_view();
        let seen = contains_id(&r, lanes[i].id);
        proof {
            lemma_dedup_ids(dv.take(i as int), dv[i as int].id);
            assert(dv.take(i as int + 1).drop_last() =~= dv.take(i as int));
            assert(dv.take(i as int + 1).last() == dv[i as int]);
        }
        if !seen {
            r.push(lanes[i].duplicate());
            proof {
                assert(r.deep_view() =~= prev.push(dv[i as int]));
            }
        }
        i = i + 1;
    }
    proof {
        assert(dv.take(i as int) =~= dv);
        lemma_dedup_len(dv);
    }
    r
}

} // verus!
