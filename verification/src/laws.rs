//! Laws of the layout engine, stated and proved over the model.
//!
//! Each proof function here states one property of [`layout_spec`] that a
//! reader of the library should be able to rely on: how linear histories,
//! single merges, roots, budgets, stop conditions and octopus merges
//! behave, and that a walk over an ancestry-consistent store never draws
//! the same commit twice. The executable engine inherits them through its
//! contract.

use vstd::prelude::*;
use crate::branch::BranchView;
use crate::commit::{store_find, CommitView};
use crate::connector::{
    connector_spec, fork_glyph, join_glyph, node_glyph, repeat_chars, terminal_glyph,
};
use crate::graph_node::RowView;
use crate::lanes::{
    dedup_spec, distinct_ids, first_max_from, first_max_index, id_in, lemma_first_max_is_max,
};
use crate::layout::{expanded_lanes, layout_spec, prepend_rows, resolve_parents, row_for, GraphError};

verus! {

/// `c` is a linear history inside `store`: each commit's sole parent is the
/// next one, the last is a root, and timestamps strictly decrease along it.
pub open spec fn linear_chain(store: Seq<CommitView>, c: Seq<CommitView>) -> bool {
    &&& c.len() >= 1
    &&& forall|i: int| 0 <= i < c.len() ==> store_find(store, (#[trigger] c[i]).id) == Some(c[i])
    &&& forall|i: int| 0 <= i < c.len() - 1 ==> (#[trigger] c[i]).parents == seq![c[i + 1].id]
    &&& c[c.len() - 1].parents.len() == 0
    &&& forall|i: int| 0 <= i < c.len() - 1 ==> c[i + 1].timestamp < (#[trigger] c[i]).timestamp
}

/// The row a chain commit produces: a single lane, no split, no join.
pub open spec fn chain_row(branches: Seq<BranchView>, c: Seq<CommitView>, k: int) -> RowView {
    row_for(branches, c[k], 1, 0, 0)
}

/// One step of a single-lane walk along a chain: the row for `c[k]` is
/// emitted, and the walk either ends (root reached, or stop hit) or goes on
/// from `c[k + 1]`.
proof fn lemma_chain_step(
    store: Seq<CommitView>,
    branches: Seq<BranchView>,
    stop: Option<u64>,
    c: Seq<CommitView>,
    k: int,
    b: nat,
)
    requires
        linear_chain(store, c),
        0 <= k < c.len(),
        b > 0,
    ensures
        layout_spec(store, branches, stop, seq![c[k]], b, false) == (if k == c.len() - 1 || stop
            == Some(c[k].id) {
            Ok::<(Seq<RowView>, bool), GraphError>((seq![chain_row(branches, c, k)], false))
        } else {
            prepend_rows(
                seq![chain_row(branches, c, k)],
                layout_spec(store, branches, stop, seq![c[k + 1]], (b - 1) as nat, false),
            )
        }),
{
    let lanes = seq![c[k]];
    assert(first_max_index(lanes) == 0);
    let cv = c[k];
    let np = cv.parents.len();
    if k == c.len() - 1 {
        assert(np == 0);
        assert(resolve_parents(store, cv.parents) == Ok::<Seq<CommitView>, GraphError>(
            Seq::empty(),
        ));
        let expanded = lanes.remove(0);
        assert(expanded.len() == 0);
        assert(dedup_spec(expanded).len() == 0);
        let row = row_for(branches, cv, 1, 0, 0);
        assert(layout_spec(store, branches, stop, dedup_spec(expanded), (b - 1) as nat, stop
            == Some(cv.id)) == Ok::<(Seq<RowView>, bool), GraphError>((
            Seq::<RowView>::empty(),
            false,
        )));
        assert(seq![row] + Seq::<RowView>::empty() =~= seq![row]);
    } else {
        assert(cv.parents == seq![c[k + 1].id]);
        assert(np == 1);
        assert(cv.parents[0] == c[k + 1].id);
        assert(store_find(store, cv.parents[0]) == Some(c[k + 1]));
        assert(cv.parents.drop_first().len() == 0);
        assert(resolve_parents(store, cv.parents.drop_first()) == Ok::<
            Seq<CommitView>,
            GraphError,
        >(Seq::empty()));
        assert(seq![c[k + 1]] + Seq::<CommitView>::empty() =~= seq![c[k + 1]]);
        assert(resolve_parents(store, cv.parents) == Ok::<Seq<CommitView>, GraphError>(
            seq![c[k + 1]],
        ));
        let expanded = lanes.remove(0).insert(0, c[k + 1]);
        assert(expanded =~= seq![c[k + 1]]);
        assert(distinct_ids(expanded));
        crate::lanes::lemma_dedup_noop(expanded);
        let next = dedup_spec(expanded);
        assert(next =~= seq![c[k + 1]]);
        assert(expanded.len() - next.len() == 0);
        let row = row_for(branches, cv, 1, 0, 0);
        if stop == Some(cv.id) {
            assert(layout_spec(store, branches, stop, next, (b - 1) as nat, true) == Ok::<
                (Seq<RowView>, bool),
                GraphError,
            >((Seq::<RowView>::empty(), false)));
            assert(seq![row] + Seq::<RowView>::empty() =~= seq![row]);
        }
    }
}

/// A walk along a chain with enough budget and no stop reached: one row per
/// remaining commit, in chain order, with no truncation.
proof fn lemma_chain_full(
    store: Seq<CommitView>,
    branches: Seq<BranchView>,
    c: Seq<CommitView>,
    k: int,
    b: nat,
)
    requires
        linear_chain(store, c),
        0 <= k < c.len(),
        b >= c.len() - k,
    ensures
        ({
            let r = layout_spec(store, branches, None, seq![c[k]], b, false);
            &&& r is Ok
            &&& r->Ok_0.1 == false
            &&& r->Ok_0.0.len() == c.len() - k
            &&& forall|i: int|
                0 <= i < c.len() - k ==> (#[trigger] r->Ok_0.0[i]) == chain_row(branches, c, k + i)
        }),
    decreases c.len() - k,
{
    lemma_chain_step(store, branches, None, c, k, b);
    if k < c.len() - 1 {
        lemma_chain_full(store, branches, c, k + 1, (b - 1) as nat);
        let rest = layout_spec(store, branches, None, seq![c[k + 1]], (b - 1) as nat, false);
        let rows = seq![chain_row(branches, c, k)] + rest->Ok_0.0;
        assert forall|i: int| 0 <= i < c.len() - k implies (#[trigger] rows[i]) == chain_row(
            branches,
            c,
            k + i,
        ) by {
            if i > 0 {
                assert(rows[i] == rest->Ok_0.0[i - 1]);
            }
        }
    }
}

/// A walk along a chain longer than the budget: exactly `b` rows, in chain
/// order, reported as truncated.
proof fn lemma_chain_truncated(
    store: Seq<CommitView>,
    branches: Seq<BranchView>,
    stop: Option<u64>,
    c: Seq<CommitView>,
    k: int,
    b: nat,
)
    requires
        linear_chain(store, c),
        0 <= k < c.len(),
        b < c.len() - k,
        forall|i: int| k <= i < k + b ==> stop != Some((#[trigger] c[i]).id),
    ensures
        ({
            let r = layout_spec(store, branches, stop, seq![c[k]], b, false);
            &&& r is Ok
            &&& r->Ok_0.1 == true
            &&& r->Ok_0.0.len() == b
            &&& forall|i: int|
                0 <= i < b ==> (#[trigger] r->Ok_0.0[i]) == chain_row(branches, c, k + i)
        }),
    decreases b,
{
    if b > 0 {
        lemma_chain_step(store, branches, stop, c, k, b);
        lemma_chain_truncated(store, branches, stop, c, k + 1, (b - 1) as nat);
        let rest = layout_spec(store, branches, stop, seq![c[k + 1]], (b - 1) as nat, false);
        let rows = seq![chain_row(branches, c, k)] + rest->Ok_0.0;
        assert forall|i: int| 0 <= i < b implies (#[trigger] rows[i]) == chain_row(
            branches,
            c,
            k + i,
        ) by {
            if i > 0 {
                assert(rows[i] == rest->Ok_0.0[i - 1]);
            }
        }
    }
}

/// A walk along a chain towards a stop at position `t`: the rows reach down
/// to the stop commit inclusively and no further.
proof fn lemma_chain_stopped(
    store: Seq<CommitView>,
    branches: Seq<BranchView>,
    c: Seq<CommitView>,
    k: int,
    t: int,
    b: nat,
)
    requires
        linear_chain(store, c),
        distinct_ids(c),
        0 <= k <= t < c.len(),
        b >= t - k + 1,
    ensures
        ({
            let r = layout_spec(store, branches, Some(c[t].id), seq![c[k]], b, false);
            &&& r is Ok
            &&& r->Ok_0.1 == false
            &&& r->Ok_0.0.len() == t - k + 1
            &&& forall|i: int|
                0 <= i <= t - k ==> (#[trigger] r->Ok_0.0[i]) == chain_row(branches, c, k + i)
        }),
    decreases t - k,
{
    lemma_chain_step(store, branches, Some(c[t].id), c, k, b);
    if k == t {
    } else {
        assert(c[k].id != c[t].id);
        lemma_chain_stopped(store, branches, c, k + 1, t, (b - 1) as nat);
        let rest = layout_spec(store, branches, Some(c[t].id), seq![c[k + 1]], (b - 1) as nat,
            false);
        let rows = seq![chain_row(branches, c, k)] + rest->Ok_0.0;
        assert forall|i: int| 0 <= i <= t - k implies (#[trigger] rows[i]) == chain_row(
            branches,
            c,
            k + i,
        ) by {
            if i > 0 {
                assert(rows[i] == rest->Ok_0.0[i - 1]);
            }
        }
    }
}

/// Linear history: a chain of `N` commits lays out as exactly `N` rows, one
/// per commit in chain (strictly decreasing timestamp) order, every row a
/// plain single-lane connector except the root's terminal one, with no
/// split or join anywhere and no truncation.
pub proof fn lemma_linear_history(
    store: Seq<CommitView>,
    branches: Seq<BranchView>,
    c: Seq<CommitView>,
    budget: nat,
)
    requires
        linear_chain(store, c),
        budget >= c.len(),
    ensures
        ({
            let r = layout_spec(store, branches, None, seq![c[0]], budget, false);
            &&& r is Ok
            &&& r->Ok_0.1 == false
            &&& r->Ok_0.0.len() == c.len()
            &&& forall|i: int|
                0 <= i < c.len() ==> ((#[trigger] r->Ok_0.0[i]).oid == c[i].id
                    && r->Ok_0.0[i].summary == c[i].summary)
            &&& forall|i: int|
                0 <= i < c.len() - 1 ==> (#[trigger] r->Ok_0.0[i]).grapheme == "\u{251c}\u{25cf}"@
            &&& r->Ok_0.0[c.len() - 1].grapheme == "\u{251c}\u{25cf}"@ + "\n\u{257d}"@
        }),
{
    lemma_chain_full(store, branches, c, 0, budget);
    let r = layout_spec(store, branches, None, seq![c[0]], budget, false);
    assert(repeat_chars("\u{2502} "@, 0) + "\u{251c}\u{25cf}"@ =~= "\u{251c}\u{25cf}"@);
    assert forall|i: int| 0 <= i < c.len() - 1 implies (#[trigger] r->Ok_0.0[i]).grapheme
        == "\u{251c}\u{25cf}"@ by {
        assert(r->Ok_0.0[i] == chain_row(branches, c, i));
        assert(c[i].parents.len() == 1);
        assert(r->Ok_0.0[i].grapheme == connector_spec(1, 0, 1, 0));
    }
    assert(r->Ok_0.0[c.len() - 1] == chain_row(branches, c, c.len() - 1));
    assert(r->Ok_0.0[c.len() - 1].grapheme == connector_spec(1, 0, 0, 0));
}

/// Budget truncation: a chain longer than the budget `B`, with no stop
/// condition met within the budget, lays out as exactly `B` rows and
/// reports truncation, not an error.
pub proof fn lemma_budget_truncation(
    store: Seq<CommitView>,
    branches: Seq<BranchView>,
    stop: Option<u64>,
    c: Seq<CommitView>,
    budget: nat,
)
    requires
        linear_chain(store, c),
        budget < c.len(),
        forall|i: int| 0 <= i < budget ==> stop != Some((#[trigger] c[i]).id),
    ensures
        ({
            let r = layout_spec(store, branches, stop, seq![c[0]], budget, false);
            &&& r is Ok
            &&& r->Ok_0.1 == true
            &&& r->Ok_0.0.len() == budget
            &&& forall|i: int| 0 <= i < budget ==> (#[trigger] r->Ok_0.0[i]).oid == c[i].id
        }),
{
    lemma_chain_truncated(store, branches, stop, c, 0, budget);
}

/// Stop-condition inclusivity: with the stop target on chain commit `t`,
/// the rows are exactly the commits down to and including `t`, and no
/// ancestor of `t` appears among them.
pub proof fn lemma_stop_inclusive(
    store: Seq<CommitView>,
    branches: Seq<BranchView>,
    c: Seq<CommitView>,
    t: int,
    budget: nat,
)
    requires
        linear_chain(store, c),
        distinct_ids(c),
        0 <= t < c.len(),
        budget >= t + 1,
    ensures
        ({
            let r = layout_spec(store, branches, Some(c[t].id), seq![c[0]], budget, false);
            &&& r is Ok
            &&& r->Ok_0.1 == false
            &&& r->Ok_0.0.len() == t + 1
            &&& forall|i: int| 0 <= i <= t ==> (#[trigger] r->Ok_0.0[i]).oid == c[i].id
            &&& forall|i: int, j: int|
                0 <= i <= t && t < j < c.len() ==> (#[trigger] r->Ok_0.0[i]).oid != (
                #[trigger] c[j]).id
        }),
{
    lemma_chain_stopped(store, branches, c, 0, t, budget);
}

/// `bs` is a lineage inside `store` that ends on the commit `dv`: each
/// entry's sole parent is the next one, the last entry's parent is `dv`,
/// and timestamps strictly decrease along it.
pub open spec fn branch_chain(store: Seq<CommitView>, bs: Seq<CommitView>, dv: CommitView) -> bool {
    &&& bs.len() >= 1
    &&& forall|i: int| 0 <= i < bs.len() ==> store_find(store, (#[trigger] bs[i]).id) == Some(bs[i])
    &&& forall|i: int| 0 <= i < bs.len() - 1 ==> (#[trigger] bs[i]).parents == seq![bs[i + 1].id]
    &&& bs[bs.len() - 1].parents == seq![dv.id]
    &&& forall|i: int| 0 <= i < bs.len() - 1 ==> bs[i + 1].timestamp < (#[trigger] bs[i]).timestamp
}

proof fn lemma_ts_monotonic(bs: Seq<CommitView>, i: int, j: int)
    requires
        forall|k: int|
            0 <= k < bs.len() - 1 ==> bs[k + 1].timestamp < (#[trigger] bs[k]).timestamp,
        0 <= i <= j < bs.len(),
    ensures
        bs[j].timestamp <= bs[i].timestamp,
    decreases j - i,
{
    if i < j {
        lemma_ts_monotonic(bs, i + 1, j);
    }
}

/// The tail of a single-merge walk: one already-joined lane on `dv` beside
/// the still-advancing second lineage. Each remaining lineage commit gets a
/// plain two-lane row, the last one the join row, and the root ends the
/// walk.
proof fn lemma_join_phase(
    store: Seq<CommitView>,
    branches: Seq<BranchView>,
    cs: Seq<CommitView>,
    dv: CommitView,
    j: int,
    b: nat,
)
    requires
        branch_chain(store, cs, dv),
        store_find(store, dv.id) == Some(dv),
        dv.parents.len() == 0,
        forall|q: int| 0 <= q < cs.len() ==> (#[trigger] cs[q]).id != dv.id,
        cs[cs.len() - 1].timestamp > dv.timestamp,
        0 <= j < cs.len(),
        b >= cs.len() - j + 1,
    ensures
        ({
            let n = cs.len() as int;
            let r = layout_spec(store, branches, None, seq![dv, cs[j]], b, false);
            &&& r is Ok
            &&& r->Ok_0.1 == false
            &&& r->Ok_0.0.len() == n - j + 1
            &&& forall|i: int|
                0 <= i < n - j ==> (#[trigger] r->Ok_0.0[i]) == row_for(
                    branches,
                    cs[j + i],
                    2,
                    1,
                    if j + i == n - 1 {
                        1
                    } else {
                        0
                    },
                )
            &&& r->Ok_0.0[n - j] == row_for(branches, dv, 1, 0, 0)
        }),
    decreases cs.len() - j,
{
    let n = cs.len() as int;
    let lanes = seq![dv, cs[j]];
    lemma_ts_monotonic(cs, j, n - 1);
    assert(first_max_from(lanes, 2, 1) == 1);
    assert(first_max_from(lanes, 1, 0) == 1);
    assert(first_max_index(lanes) == 1);
    let cv = cs[j];
    let target = if j < n - 1 {
        cs[j + 1]
    } else {
        dv
    };
    assert(cv.parents == seq![target.id]);
    assert(cv.parents[0] == target.id);
    assert(store_find(store, cv.parents[0]) == Some(target));
    assert(cv.parents.drop_first().len() == 0);
    assert(resolve_parents(store, cv.parents.drop_first()) == Ok::<Seq<CommitView>, GraphError>(
        Seq::empty(),
    ));
    assert(seq![target] + Seq::<CommitView>::empty() =~= seq![target]);
    assert(resolve_parents(store, cv.parents) == Ok::<Seq<CommitView>, GraphError>(seq![target]));
    let expanded = lanes.remove(1).insert(1, target);
    assert(expanded =~= seq![dv, target]);
    if j < n - 1 {
        assert(distinct_ids(expanded));
        crate::lanes::lemma_dedup_noop(expanded);
        assert(expanded.len() - dedup_spec(expanded).len() == 0);
        let row = row_for(branches, cv, 2, 1, 0);
        lemma_join_phase(store, branches, cs, dv, j + 1, (b - 1) as nat);
        let rest = layout_spec(store, branches, None, seq![dv, cs[j + 1]], (b - 1) as nat, false);
        assert(dedup_spec(expanded) =~= seq![dv, cs[j + 1]]);
        let rows = seq![row] + rest->Ok_0.0;
        assert forall|i: int| 0 <= i < n - j implies (#[trigger] rows[i]) == row_for(
            branches,
            cs[j + i],
            2,
            1,
            if j + i == n - 1 {
                1
            } else {
                0
            },
        ) by {
            if i > 0 {
                assert(rows[i] == rest->Ok_0.0[i - 1]);
            }
        }
        assert(rows[n - j] == rest->Ok_0.0[n - j - 1]);
    } else {
        assert(expanded =~= seq![dv, dv]);
        assert(expanded.drop_last() =~= seq![dv]);
        assert(distinct_ids(seq![dv]));
        crate::lanes::lemma_dedup_noop(seq![dv]);
        assert(id_in(seq![dv], dv.id)) by {
            assert(seq![dv][0].id == dv.id);
        }
        assert(dedup_spec(expanded) =~= seq![dv]);
        assert(expanded.len() - dedup_spec(expanded).len() == 1);
        let row = row_for(branches, cv, 2, 1, 1);
        let chain_d = seq![dv];
        assert(linear_chain(store, chain_d));
        lemma_chain_full(store, branches, chain_d, 0, (b - 1) as nat);
        let rest = layout_spec(store, branches, None, seq![dv], (b - 1) as nat, false);
        assert(rest->Ok_0.0[0] == chain_row(branches, chain_d, 0));
        let rows = seq![row] + rest->Ok_0.0;
        assert(rows.len() == 2);
        assert(rows[0] == row);
        assert(rows[1] == rest->Ok_0.0[0]);
    }
}

/// The head of a single-merge walk: the first lineage advancing beside the
/// second lineage's still-untouched head. Each first-lineage commit gets a
/// plain two-lane row until the shared ancestor enters its lane and the
/// join phase takes over.
proof fn lemma_fork_phase(
    store: Seq<CommitView>,
    branches: Seq<BranchView>,
    bs: Seq<CommitView>,
    cs: Seq<CommitView>,
    dv: CommitView,
    k: int,
    b: nat,
)
    requires
        branch_chain(store, bs, dv),
        branch_chain(store, cs, dv),
        store_find(store, dv.id) == Some(dv),
        dv.parents.len() == 0,
        forall|i: int| 0 <= i < bs.len() ==> (#[trigger] bs[i]).id != cs[0].id,
        forall|q: int| 0 <= q < cs.len() ==> (#[trigger] cs[q]).id != dv.id,
        bs[bs.len() - 1].timestamp > cs[0].timestamp,
        cs[cs.len() - 1].timestamp > dv.timestamp,
        0 <= k < bs.len(),
        b >= (bs.len() - k) + cs.len() + 1,
    ensures
        ({
            let m = bs.len() as int;
            let n = cs.len() as int;
            let r = layout_spec(store, branches, None, seq![bs[k], cs[0]], b, false);
            &&& r is Ok
            &&& r->Ok_0.1 == false
            &&& r->Ok_0.0.len() == (m - k) + n + 1
            &&& forall|i: int|
                0 <= i < m - k ==> (#[trigger] r->Ok_0.0[i]) == row_for(
                    branches,
                    bs[k + i],
                    2,
                    0,
                    0,
                )
            &&& forall|i: int|
                m - k <= i < (m - k) + n ==> (#[trigger] r->Ok_0.0[i]) == row_for(
                    branches,
                    cs[i - (m - k)],
                    2,
                    1,
                    if i == (m - k) + n - 1 {
                        1
                    } else {
                        0
                    },
                )
            &&& r->Ok_0.0[(m - k) + n] == row_for(branches, dv, 1, 0, 0)
        }),
    decreases bs.len() - k,
{
    let m = bs.len() as int;
    let n = cs.len() as int;
    let lanes = seq![bs[k], cs[0]];
    lemma_ts_monotonic(bs, k, m - 1);
    assert(first_max_from(lanes, 2, 0) == 0);
    assert(first_max_from(lanes, 1, 0) == 0);
    assert(first_max_index(lanes) == 0);
    let cv = bs[k];
    let target = if k < m - 1 {
        bs[k + 1]
    } else {
        dv
    };
    assert(cv.parents == seq![target.id]);
    assert(cv.parents[0] == target.id);
    assert(store_find(store, cv.parents[0]) == Some(target));
    assert(cv.parents.drop_first().len() == 0);
    assert(resolve_parents(store, cv.parents.drop_first()) == Ok::<Seq<CommitView>, GraphError>(
        Seq::empty(),
    ));
    assert(seq![target] + Seq::<CommitView>::empty() =~= seq![target]);
    assert(resolve_parents(store, cv.parents) == Ok::<Seq<CommitView>, GraphError>(seq![target]));
    let expanded = lanes.remove(0).insert(0, target);
    assert(expanded =~= seq![target, cs[0]]);
    assert(distinct_ids(expanded));
    crate::lanes::lemma_dedup_noop(expanded);
    assert(expanded.len() - dedup_spec(expanded).len() == 0);
    let row = row_for(branches, cv, 2, 0, 0);
    if k < m - 1 {
        lemma_fork_phase(store, branches, bs, cs, dv, k + 1, (b - 1) as nat);
        let rest = layout_spec(store, branches, None, seq![bs[k + 1], cs[0]], (b - 1) as nat,
            false);
        assert(dedup_spec(expanded) =~= seq![bs[k + 1], cs[0]]);
        let rows = seq![row] + rest->Ok_0.0;
        assert forall|i: int| 0 <= i < m - k implies (#[trigger] rows[i]) == row_for(
            branches,
            bs[k + i],
            2,
            0,
            0,
        ) by {
            if i > 0 {
                assert(rows[i] == rest->Ok_0.0[i - 1]);
            }
        }
        assert forall|i: int| m - k <= i < (m - k) + n implies (#[trigger] rows[i]) == row_for(
            branches,
            cs[i - (m - k)],
            2,
            1,
            if i == (m - k) + n - 1 {
                1
            } else {
                0
            },
        ) by {
            assert(rows[i] == rest->Ok_0.0[i - 1]);
        }
        assert(rows[(m - k) + n] == rest->Ok_0.0[(m - k) + n - 1]);
    } else {
        lemma_join_phase(store, branches, cs, dv, 0, (b - 1) as nat);
        let rest = layout_spec(store, branches, None, seq![dv, cs[0]], (b - 1) as nat, false);
        assert(dedup_spec(expanded) =~= seq![dv, cs[0]]);
        let rows = seq![row] + rest->Ok_0.0;
        assert forall|i: int| m - k <= i < (m - k) + n implies (#[trigger] rows[i]) == row_for(
            branches,
            cs[i - (m - k)],
            2,
            1,
            if i == (m - k) + n - 1 {
                1
            } else {
                0
            },
        ) by {
            assert(rows[i] == rest->Ok_0.0[i - 1]);
        }
        assert(rows[(m - k) + n] == rest->Ok_0.0[n]);
    }
}

/// Single merge: a two-parent commit whose parent lineages reconverge at a
/// common ancestor lays out with exactly one split row (the merge itself),
/// one plain two-lane row per lineage commit, exactly one join row (the
/// second lineage folding back), and one terminal row for the shared
/// ancestor, which appears exactly once. No step of the walk holds more
/// than two lanes: every connector between the split and the join is that
/// of a two-lane set. The first lineage is the newer one throughout; the
/// other ordering is the same shape with the lineages swapped.
pub proof fn lemma_single_merge(
    store: Seq<CommitView>,
    branches: Seq<BranchView>,
    av: CommitView,
    bs: Seq<CommitView>,
    cs: Seq<CommitView>,
    dv: CommitView,
    budget: nat,
)
    requires
        av.parents == seq![bs[0].id, cs[0].id],
        branch_chain(store, bs, dv),
        branch_chain(store, cs, dv),
        store_find(store, dv.id) == Some(dv),
        dv.parents.len() == 0,
        forall|i: int| 0 <= i < bs.len() ==> (#[trigger] bs[i]).id != cs[0].id,
        forall|q: int| 0 <= q < cs.len() ==> (#[trigger] cs[q]).id != dv.id,
        bs[bs.len() - 1].timestamp > cs[0].timestamp,
        cs[cs.len() - 1].timestamp > dv.timestamp,
        budget >= bs.len() + cs.len() + 2,
    ensures
        ({
            let m = bs.len() as int;
            let n = cs.len() as int;
            let r = layout_spec(store, branches, None, seq![av], budget, false);
            &&& r is Ok
            &&& r->Ok_0.1 == false
            &&& r->Ok_0.0.len() == m + n + 2
            &&& r->Ok_0.0[0] == row_for(branches, av, 1, 0, 0)
            &&& r->Ok_0.0[0].grapheme == node_glyph(1, 0, true) + fork_glyph(1, 0)
            &&& forall|i: int|
                1 <= i <= m ==> (#[trigger] r->Ok_0.0[i]) == row_for(branches, bs[i - 1], 2, 0, 0)
            &&& forall|i: int|
                m < i <= m + n ==> (#[trigger] r->Ok_0.0[i]) == row_for(
                    branches,
                    cs[i - 1 - m],
                    2,
                    1,
                    if i == m + n {
                        1
                    } else {
                        0
                    },
                )
            &&& r->Ok_0.0[m + n + 1] == row_for(branches, dv, 1, 0, 0)
            &&& r->Ok_0.0[m + n + 1].grapheme == node_glyph(1, 0, false) + terminal_glyph()
        }),
{
    let m = bs.len() as int;
    let n = cs.len() as int;
    let lanes = seq![av];
    assert(first_max_index(lanes) == 0);
    assert(av.parents[0] == bs[0].id);
    assert(av.parents.drop_first()[0] == cs[0].id);
    assert(av.parents.drop_first().drop_first().len() == 0);
    assert(resolve_parents(store, av.parents.drop_first().drop_first()) == Ok::<
        Seq<CommitView>,
        GraphError,
    >(Seq::empty()));
    assert(seq![cs[0]] + Seq::<CommitView>::empty() =~= seq![cs[0]]);
    assert(resolve_parents(store, av.parents.drop_first()) == Ok::<Seq<CommitView>, GraphError>(
        seq![cs[0]],
    ));
    assert(seq![bs[0]] + seq![cs[0]] =~= seq![bs[0], cs[0]]);
    assert(resolve_parents(store, av.parents) == Ok::<Seq<CommitView>, GraphError>(
        seq![bs[0], cs[0]],
    ));
    let expanded = lanes.remove(0).insert(0, bs[0]).insert(1, cs[0]);
    assert(expanded =~= seq![bs[0], cs[0]]);
    assert(distinct_ids(expanded));
    crate::lanes::lemma_dedup_noop(expanded);
    assert(expanded.len() - dedup_spec(expanded).len() == 0);
    let row = row_for(branches, av, 1, 0, 0);
    lemma_fork_phase(store, branches, bs, cs, dv, 0, (budget - 1) as nat);
    let rest = layout_spec(store, branches, None, seq![bs[0], cs[0]], (budget - 1) as nat, false);
    assert(dedup_spec(expanded) =~= seq![bs[0], cs[0]]);
    let rows = seq![row] + rest->Ok_0.0;
    assert forall|i: int| 1 <= i <= m implies (#[trigger] rows[i]) == row_for(
        branches,
        bs[i - 1],
        2,
        0,
        0,
    ) by {
        assert(rows[i] == rest->Ok_0.0[i - 1]);
    }
    assert forall|i: int| m < i <= m + n implies (#[trigger] rows[i]) == row_for(
        branches,
        cs[i - 1 - m],
        2,
        1,
        if i == m + n {
            1
        } else {
            0
        },
    ) by {
        assert(rows[i] == rest->Ok_0.0[i - 1]);
    }
    assert(rows[m + n + 1] == rest->Ok_0.0[m + n]);
}

/// Single merge over a diamond: a two-parent commit `a` whose parents `b`
/// and `c` reconverge on the root `d` lays out as exactly four rows — the
/// split row for `a`, a plain row for the newer parent `b`, the join row
/// for the older parent `c` (collapsing its lane back into `d`'s), and the
/// terminal row for `d`, which appears exactly once although two lanes
/// reached it. Exactly one row carries the split connector and exactly one
/// the join connector, and no step holds more than two lanes (the
/// connectors of the middle rows are those of a two-lane set).
pub proof fn lemma_diamond(
    store: Seq<CommitView>,
    branches: Seq<BranchView>,
    av: CommitView,
    bv: CommitView,
    cv: CommitView,
    dv: CommitView,
    budget: nat,
)
    requires
        av.parents == seq![bv.id, cv.id],
        bv.parents == seq![dv.id],
        cv.parents == seq![dv.id],
        dv.parents.len() == 0,
        av.id != bv.id && av.id != cv.id && av.id != dv.id,
        bv.id != cv.id && bv.id != dv.id,
        cv.id != dv.id,
        av.timestamp > bv.timestamp,
        bv.timestamp > cv.timestamp,
        cv.timestamp > dv.timestamp,
        store_find(store, av.id) == Some(av),
        store_find(store, bv.id) == Some(bv),
        store_find(store, cv.id) == Some(cv),
        store_find(store, dv.id) == Some(dv),
        budget >= 4,
    ensures
        ({
            let r = layout_spec(store, branches, None, seq![av], budget, false);
            &&& r is Ok
            &&& r->Ok_0.1 == false
            &&& r->Ok_0.0 == seq![
                row_for(branches, av, 1, 0, 0),
                row_for(branches, bv, 2, 0, 0),
                row_for(branches, cv, 2, 1, 1),
                row_for(branches, dv, 1, 0, 0),
            ]
            &&& r->Ok_0.0[0].grapheme == node_glyph(1, 0, true) + fork_glyph(1, 0)
            &&& r->Ok_0.0[1].grapheme == node_glyph(2, 0, false)
            &&& r->Ok_0.0[2].grapheme == node_glyph(2, 1, false) + join_glyph(2, 1)
            &&& r->Ok_0.0[3].grapheme == node_glyph(1, 0, false) + terminal_glyph()
        }),
{
    let bs = seq![bv];
    let cs = seq![cv];
    lemma_single_merge(store, branches, av, bs, cs, dv, budget);
    let r = layout_spec(store, branches, None, seq![av], budget, false);
    assert(r->Ok_0.0[1] == row_for(branches, bs[0], 2, 0, 0));
    assert(r->Ok_0.0[2] == row_for(branches, cs[0], 2, 1, 1));
    assert(r->Ok_0.0 =~= seq![
        row_for(branches, av, 1, 0, 0),
        row_for(branches, bv, 2, 0, 0),
        row_for(branches, cv, 2, 1, 1),
        row_for(branches, dv, 1, 0, 0),
    ]);
}

/// Octopus rejection: when the active commit has more than two parents the
/// run fails with the topology error and produces no rows at all.
pub proof fn lemma_octopus_rejected(
    store: Seq<CommitView>,
    branches: Seq<BranchView>,
    stop: Option<u64>,
    lanes: Seq<CommitView>,
    budget: nat,
)
    requires
        budget > 0,
        lanes.len() > 0,
        lanes[first_max_index(lanes)].parents.len() > 2,
    ensures
        layout_spec(store, branches, stop, lanes, budget, false) == Err::<
            (Seq<RowView>, bool),
            GraphError,
        >(GraphError::UnsupportedTopology { id: lanes[first_max_index(lanes)].id }),
{
}

/// Root termination, step level: a root commit (no parents) always emits a
/// row whose connector ends in the terminal glyph — provided no join falls
/// on the same row — and its lane is removed, leaving one lane fewer.
pub proof fn lemma_root_terminal(
    store: Seq<CommitView>,
    branches: Seq<BranchView>,
    stop: Option<u64>,
    lanes: Seq<CommitView>,
    budget: nat,
)
    requires
        budget > 0,
        lanes.len() > 0,
        lanes[first_max_index(lanes)].parents.len() == 0,
        distinct_ids(lanes.remove(first_max_index(lanes))),
    ensures
        ({
            let mi = first_max_index(lanes);
            let row = row_for(branches, lanes[mi], lanes.len(), mi as nat, 0);
            &&& layout_spec(store, branches, stop, lanes, budget, false) == prepend_rows(
                seq![row],
                layout_spec(
                    store,
                    branches,
                    stop,
                    lanes.remove(mi),
                    (budget - 1) as nat,
                    stop == Some(lanes[mi].id),
                ),
            )
            &&& row.grapheme == node_glyph(lanes.len(), mi as nat, false) + terminal_glyph()
            &&& lanes.remove(mi).len() == lanes.len() - 1
        }),
{
    let mi = first_max_index(lanes);
    let cv = lanes[mi];
    crate::lanes::lemma_first_max_is_max(lanes);
    assert(resolve_parents(store, cv.parents) == Ok::<Seq<CommitView>, GraphError>(Seq::empty()));
    let expanded = lanes.remove(mi);
    crate::lanes::lemma_dedup_noop(expanded);
    assert(dedup_spec(expanded) == expanded);
    let row = row_for(branches, cv, lanes.len(), mi as nat, 0);
    assert(row.grapheme == connector_spec(lanes.len(), mi as nat, 0, 0));
    assert(stop == Some(cv.id) <==> (match stop {
        Some(t) => t == cv.id,
        None => false,
    }));
}


/// `c` is the commit the store hands out for its identifier.
pub open spec fn canonical(store: Seq<CommitView>, c: CommitView) -> bool {
    store_find(store, c.id) == Some(c)
}

/// Every lane holds the commit the store hands out for its identifier.
pub open spec fn lanes_canonical(store: Seq<CommitView>, lanes: Seq<CommitView>) -> bool {
    forall|i: int| 0 <= i < lanes.len() ==> canonical(store, #[trigger] lanes[i])
}

/// Timestamps are consistent with ancestry: every parent the store can
/// resolve is strictly older than its child.
pub open spec fn store_consistent(store: Seq<CommitView>) -> bool {
    forall|i: int, j: int|
        #![trigger store[i].parents[j]]
        0 <= i < store.len() && 0 <= j < store[i].parents.len() ==> (match store_find(
            store,
            store[i].parents[j],
        ) {
            Some(p) => p.timestamp < store[i].timestamp,
            None => true,
        })
}

/// The timestamp of the newest lane.
pub open spec fn max_lane_ts(lanes: Seq<CommitView>) -> i64
    recommends
        lanes.len() > 0,
{
    lanes[first_max_index(lanes)].timestamp
}

proof fn lemma_store_find_witness(s: Seq<CommitView>, id: u64)
    requires
        store_find(s, id) is Some,
    ensures
        store_find(s, id)->Some_0.id == id,
        canonical(s, store_find(s, id)->Some_0),
        exists|w: int| 0 <= w < s.len() && #[trigger] s[w] == store_find(s, id)->Some_0,
    decreases s.len(),
{
    if s.len() > 0 {
        if s[0].id == id {
            assert(s[0] == store_find(s, id)->Some_0);
        } else {
            lemma_store_find_witness(s.drop_first(), id);
            let w = choose|w: int|
                0 <= w < s.drop_first().len() && #[trigger] s.drop_first()[w] == store_find(
                    s.drop_first(),
                    id,
                )->Some_0;
            assert(s[w + 1] == store_find(s, id)->Some_0);
        }
    }
}

proof fn lemma_consistent_parent(store: Seq<CommitView>, c: CommitView, j: int)
    requires
        store_consistent(store),
        canonical(store, c),
        0 <= j < c.parents.len(),
        store_find(store, c.parents[j]) is Some,
    ensures
        store_find(store, c.parents[j])->Some_0.timestamp < c.timestamp,
{
    lemma_store_find_witness(store, c.id);
    let w = choose|w: int| 0 <= w < store.len() && #[trigger] store[w] == c;
    assert(store[w].parents[j] == c.parents[j]);
}

proof fn lemma_resolve_ok(store: Seq<CommitView>, parents: Seq<u64>, ps: Seq<CommitView>)
    requires
        resolve_parents(store, parents) == Ok::<Seq<CommitView>, GraphError>(ps),
    ensures
        ps.len() == parents.len(),
        forall|j: int| 0 <= j < ps.len() ==> store_find(store, parents[j]) == Some(#[trigger] ps[j]),
    decreases parents.len(),
{
    if parents.len() > 0 {
        let rest = resolve_parents(store, parents.drop_first())->Ok_0;
        lemma_resolve_ok(store, parents.drop_first(), rest);
        assert forall|j: int| 0 <= j < ps.len() implies store_find(store, parents[j]) == Some(
            #[trigger] ps[j],
        ) by {
            if j > 0 {
                assert(ps[j] == rest[j - 1]);
                assert(parents.drop_first()[j - 1] == parents[j]);
            }
        }
    }
}

proof fn lemma_expanded_elements(lanes: Seq<CommitView>, mi: int, ps: Seq<CommitView>)
    requires
        0 <= mi < lanes.len(),
        ps.len() <= 2,
    ensures
        forall|i: int|
            0 <= i < expanded_lanes(lanes, mi, ps).len() ==> (exists|k: int|
                0 <= k < lanes.len() && k != mi && #[trigger] expanded_lanes(lanes, mi, ps)[i]
                    == lanes[k]) || (exists|j: int|
                0 <= j < ps.len() && expanded_lanes(lanes, mi, ps)[i] == ps[j]),
{
    let removed = lanes.remove(mi);
    lanes.remove_ensures(mi);
    let e = expanded_lanes(lanes, mi, ps);
    if ps.len() >= 1 {
        removed.insert_ensures(mi, ps[0]);
    }
    if ps.len() == 2 {
        removed.insert(mi, ps[0]).insert_ensures(mi + 1, ps[1]);
    }
    assert forall|i: int| 0 <= i < e.len() implies (exists|k: int|
        0 <= k < lanes.len() && k != mi && #[trigger] e[i] == lanes[k]) || (exists|j: int|
        0 <= j < ps.len() && e[i] == ps[j]) by {
        if ps.len() == 0 {
            if i < mi {
                assert(e[i] == lanes[i]);
            } else {
                assert(e[i] == lanes[i + 1]);
            }
        } else if ps.len() == 1 {
            if i < mi {
                assert(e[i] == lanes[i]);
            } else if i == mi {
                assert(e[i] == ps[0]);
            } else {
                assert(e[i] == removed[i - 1]);
                assert(e[i] == lanes[i]);
            }
        } else {
            if i < mi {
                assert(e[i] == removed.insert(mi, ps[0])[i]);
                assert(e[i] == lanes[i]);
            } else if i == mi {
                assert(e[i] == ps[0]);
            } else if i == mi + 1 {
                assert(e[i] == ps[1]);
            } else {
                assert(e[i] == removed.insert(mi, ps[0])[i - 1]);
                assert(e[i] == removed[i - 2]);
                assert(e[i] == lanes[i - 1]);
            }
        }
    }
}

/// No commit is drawn twice: over a store whose timestamps are consistent
/// with ancestry, a walk that starts from lanes holding distinct canonical
/// commits emits every commit identifier at most once — reconverging lanes
/// are collapsed before they can be expanded again. Each emitted identifier
/// is moreover one of the starting lanes' or strictly older than the
/// newest starting lane.
pub proof fn lemma_rows_unique(
    store: Seq<CommitView>,
    branches: Seq<BranchView>,
    stop: Option<u64>,
    lanes: Seq<CommitView>,
    budget: nat,
    abort: bool,
)
    requires
        store_consistent(store),
        lanes_canonical(store, lanes),
        distinct_ids(lanes),
    ensures
        ({
            match layout_spec(store, branches, stop, lanes, budget, abort) {
                Ok((rows, tr)) => {
                    &&& (forall|i: int, j: int|
                        0 <= i < j < rows.len() ==> (#[trigger] rows[i]).oid != (
                        #[trigger] rows[j]).oid)
                    &&& (forall|i: int|
                        0 <= i < rows.len() ==> id_in(lanes, (#[trigger] rows[i]).oid) || (
                        store_find(store, rows[i].oid) is Some && store_find(
                            store,
                            rows[i].oid,
                        )->Some_0.timestamp < max_lane_ts(lanes)))
                },
                Err(_) => true,
            }
        }),
    decreases budget,
{
    if abort || lanes.len() == 0 || budget == 0 {
        // No rows are emitted; both claims are vacuous.
    } else {
        let mi = first_max_index(lanes);
        lemma_first_max_is_max(lanes);
        let c = lanes[mi];
        if c.parents.len() > 2 {
        } else {
            match resolve_parents(store, c.parents) {
                Err(_) => {},
                Ok(ps) => {
                    lemma_resolve_ok(store, c.parents, ps);
                    assert forall|j: int| 0 <= j < ps.len() implies canonical(
                        store,
                        #[trigger] ps[j],
                    ) && ps[j].timestamp < c.timestamp by {
                        lemma_store_find_witness(store, c.parents[j]);
                        lemma_consistent_parent(store, c, j);
                    }
                    let expanded = expanded_lanes(lanes, mi, ps);
                    lemma_expanded_elements(lanes, mi, ps);
                    let next = dedup_spec(expanded);
                    crate::lanes::lemma_dedup_distinct(expanded);
                    crate::lanes::lemma_dedup_subset(expanded);
                    let dup = (expanded.len() - next.len()) as nat;
                    let row = row_for(branches, c, lanes.len(), mi as nat, dup);
                    let abort_next = match stop {
                        Some(t) => t == c.id,
                        None => false,
                    };
                    // Every lane of the new set is an untouched old lane or a
                    // freshly resolved parent: canonical either way, and none
                    // of them holds the commit just emitted.
                    assert forall|i: int| 0 <= i < next.len() implies canonical(
                        store,
                        #[trigger] next[i],
                    ) && next[i].id != c.id && next[i].timestamp <= c.timestamp by {
                        let k = choose|k: int| 0 <= k < expanded.len() && #[trigger] next[i]
                            == expanded[k];
                        if exists|q: int|
                            0 <= q < lanes.len() && q != mi && #[trigger] expanded[k]
                                == lanes[q] {
                            let q = choose|q: int|
                                0 <= q < lanes.len() && q != mi && #[trigger] expanded[k]
                                    == lanes[q];
                            assert(canonical(store, lanes[q]));
                        } else {
                            let j = choose|j: int| 0 <= j < ps.len() && expanded[k] == ps[j];
                            if ps[j].id == c.id {
                                assert(store_find(store, ps[j].id) == Some(ps[j]));
                                assert(store_find(store, c.id) == Some(c));
                            }
                        }
                    }
                    assert(lanes_canonical(store, next));
                    if next.len() > 0 {
                        lemma_first_max_is_max(next);
                        assert(max_lane_ts(next) <= c.timestamp);
                    }
                    lemma_rows_unique(store, branches, stop, next, (budget - 1) as nat, abort_next);
                    let r_rest = layout_spec(
                        store,
                        branches,
                        stop,
                        next,
                        (budget - 1) as nat,
                        abort_next,
                    );
                    assert(layout_spec(store, branches, stop, lanes, budget, abort) == prepend_rows(
                        seq![row],
                        r_rest,
                    ));
                    match r_rest {
                        Ok((rest, tr)) => {
                            let rows = seq![row] + rest;
                            assert(rows[0].oid == c.id);
                            assert forall|i: int, j: int| 0 <= i < j < rows.len() implies (
                            #[trigger] rows[i]).oid != (#[trigger] rows[j]).oid by {
                                if i == 0 {
                                    assert(rows[j] == rest[j - 1]);
                                    if id_in(next, rest[j - 1].oid) {
                                        let k = choose|k: int|
                                            0 <= k < next.len() && (#[trigger] next[k]).id
                                                == rest[j - 1].oid;
                                    } else {
                                        if rest[j - 1].oid == c.id {
                                            assert(store_find(store, c.id) == Some(c));
                                        }
                                    }
                                } else {
                                    assert(rows[i] == rest[i - 1]);
                                    assert(rows[j] == rest[j - 1]);
                                }
                            }
                            assert forall|i: int| 0 <= i < rows.len() implies id_in(
                                lanes,
                                (#[trigger] rows[i]).oid,
                            ) || (store_find(store, rows[i].oid) is Some && store_find(
                                store,
                                rows[i].oid,
                            )->Some_0.timestamp < max_lane_ts(lanes)) by {
                                if i == 0 {
                                    assert(lanes[mi].id == c.id);
                                    assert(id_in(lanes, c.id));
                                } else {
                                    assert(rows[i] == rest[i - 1]);
                                    let oid = rest[i - 1].oid;
                                    if id_in(next, oid) {
                                        let k = choose|k: int|
                                            0 <= k < next.len() && (#[trigger] next[k]).id == oid;
                                        let m = choose|m: int|
                                            0 <= m < expanded.len() && #[trigger] next[k]
                                                == expanded[m];
                                        if exists|q: int|
                                            0 <= q < lanes.len() && q != mi
                                                && #[trigger] expanded[m] == lanes[q] {
                                            let q = choose|q: int|
                                                0 <= q < lanes.len() && q != mi
                                                    && #[trigger] expanded[m] == lanes[q];
                                            assert(lanes[q].id == oid);
                                            assert(id_in(lanes, oid));
                                        } else {
                                            let j = choose|j: int|
                                                0 <= j < ps.len() && expanded[m] == ps[j];
                                            assert(store_find(store, oid) == Some(ps[j]));
                                            assert(max_lane_ts(lanes) == c.timestamp);
                                        }
                                    } else {
                                        assert(max_lane_ts(next) <= c.timestamp);
                                        assert(max_lane_ts(lanes) == c.timestamp);
                                    }
                                }
                            }
                        },
                        Err(_) => {},
                    }
                },
            }
        }
    }
}


/// The single-head form of [`lemma_rows_unique`]: a whole layout run from
/// one head over an ancestry-consistent store gives every commit at most
/// one row.
pub proof fn lemma_track_rows_unique(
    store: Seq<CommitView>,
    branches: Seq<BranchView>,
    stop: Option<u64>,
    head: CommitView,
    budget: nat,
)
    requires
        store_consistent(store),
        canonical(store, head),
    ensures
        ({
            match layout_spec(store, branches, stop, seq![head], budget, false) {
                Ok((rows, tr)) => forall|i: int, j: int|
                    0 <= i < j < rows.len() ==> (#[trigger] rows[i]).oid != (
                    #[trigger] rows[j]).oid,
                Err(_) => true,
            }
        }),
{
    assert(distinct_ids(seq![head]));
    assert(lanes_canonical(store, seq![head]));
    lemma_rows_unique(store, branches, stop, seq![head], budget, false);
}

} // verus!
