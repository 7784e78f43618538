//! The layout engine: walking the commit DAG into rows.
//!
//! One step selects the lane holding the newest commit, emits a row for it,
//! replaces it by its parents (zero, one or two; more is a fatal topology
//! error), collapses lanes that reconverged, and decides whether the stop
//! condition ends the walk after this row. The walk ends when the lanes are
//! exhausted, when the stop commit has been emitted (that row is included:
//! the boundary is inclusive), or when the step budget runs out, which is
//! reported as truncation, not as an error.
//!
//! [`layout_spec`] is the mathematical model of the whole walk;
//! [`paint_branch`] is the executable engine, proved to return exactly what
//! the model says for every input.

use vstd::prelude::*;
use crate::branch::{label_of, short_hand_current_commit, BranchData, BranchView};
use crate::commit::{store_find, Commit, CommitStore, CommitView};
use crate::connector::{connector_spec, paint_connector};
use crate::graph_node::{GraphNode, RowView};
use crate::lanes::{dedup_lanes, dedup_spec, find_max_index, first_max_index};

verus! {

/// The ways a layout run can fail, and the defensive failures of
/// stop-condition selection.
#[derive(Clone, Copy, PartialEq, Eq, Structural, Debug)]
pub enum GraphError {
    /// A commit with more than two parents was selected: the lane model
    /// cannot draw an octopus merge and refuses to guess.
    UnsupportedTopology { id: u64 },
    /// A parent identifier is not present in the commit store.
    ObjectNotFound { id: u64 },
    /// The stop-condition list is empty; it must always hold at least the
    /// leading no-boundary entry.
    EmptyStopConditionSet,
    /// The stop-condition index points outside the list.
    SelectionOutOfRange { index: usize, len: usize },
}

/// What a finished layout run hands back: the rows in traversal order
/// (newest first) and whether the walk was cut short by the step budget.
pub struct LayoutOutcome {
    pub nodes: Vec<GraphNode>,
    pub truncated: bool,
}

/// Looks every identifier in `parents` up in the store, left to right,
/// failing on the first one that is missing.
pub open spec fn resolve_parents(store: Seq<CommitView>, parents: Seq<u64>) -> Result<
    Seq<CommitView>,
    GraphError,
>
    decreases parents.len(),
{
    if parents.len() == 0 {
        Ok(Seq::empty())
    } else {
        match store_find(store, parents[0]) {
            None => Err(GraphError::ObjectNotFound { id: parents[0] }),
            Some(p) => match resolve_parents(store, parents.drop_first()) {
                Ok(rest) => Ok(seq![p] + rest),
                Err(e) => Err(e),
            },
        }
    }
}

/// The lane set after the active lane `mi` is replaced by the active
/// commit's parents, kept in left-to-right order.
pub open spec fn expanded_lanes(
    lanes: Seq<CommitView>,
    mi: int,
    parents: Seq<CommitView>,
) -> Seq<CommitView>
    recommends
        0 <= mi < lanes.len(),
        parents.len() <= 2,
{
    let removed = lanes.remove(mi);
    if parents.len() == 0 {
        removed
    } else if parents.len() == 1 {
        removed.insert(mi, parents[0])
    } else {
        removed.insert(mi, parents[0]).insert(mi + 1, parents[1])
    }
}

/// The row emitted for the active commit `c` of a lane set of size `l`,
/// with `dup` lanes collapsed after expansion.
pub open spec fn row_for(
    branches: Seq<BranchView>,
    c: CommitView,
    l: nat,
    mi: nat,
    dup: nat,
) -> RowView {
    RowView {
        grapheme: connector_spec(l, mi, c.parents.len(), dup),
        oid: c.id,
        branch_shorthand: label_of(branches, c.id),
        summary: c.summary,
    }
}

/// The model of a whole layout run from a given lane set: the rows it
/// emits and whether it was truncated by the budget, or the error that
/// stopped it.
pub open spec fn layout_spec(
    store: Seq<CommitView>,
    branches: Seq<BranchView>,
    stop: Option<u64>,
    lanes: Seq<CommitView>,
    budget: nat,
    abort: bool,
) -> Result<(Seq<RowView>, bool), GraphError>
    decreases budget,
{
    if abort || lanes.len() == 0 {
        Ok((Seq::empty(), false))
    } else if budget == 0 {
        Ok((Seq::empty(), true))
    } else {
        let mi = first_max_index(lanes);
        let c = lanes[mi];
        if c.parents.len() > 2 {
            Err(GraphError::UnsupportedTopology { id: c.id })
        } else {
            match resolve_parents(store, c.parents) {
                Err(e) => Err(e),
                Ok(ps) => {
                    let expanded = expanded_lanes(lanes, mi, ps);
                    let next = dedup_spec(expanded);
                    let dup = (expanded.len() - next.len()) as nat;
                    let row = row_for(branches, c, lanes.len(), mi as nat, dup);
                    let abort_next = match stop {
                        Some(t) => t == c.id,
                        None => false,
                    };
                    match layout_spec(store, branches, stop, next, (budget - 1) as nat, abort_next) {
                        Ok((rows, tr)) => Ok((seq![row] + rows, tr)),
                        Err(e) => Err(e),
                    }
                },
            }
        }
    }
}

/// `r` with `rows` placed before its rows, errors passed through.
pub open spec fn prepend_rows(
    rows: Seq<RowView>,
    r: Result<(Seq<RowView>, bool), GraphError>,
) -> Result<(Seq<RowView>, bool), GraphError> {
    match r {
        Ok((rs, tr)) => Ok((rows + rs, tr)),
        Err(e) => Err(e),
    }
}

/// Walks the DAG step by step until the lanes are exhausted, the stop
/// commit has been emitted, or the budget runs out; the executable engine
/// behind every layout run.
pub fn paint_branch(
    store: &CommitStore,
    branches: &Vec<BranchData>,
    stop: Option<u64>,
    lanes: Vec<Commit>,
    budget: usize,
    abort: bool,
) -> (r: Result<LayoutOutcome, GraphError>)
    ensures
        outcome_matches(
            r,
            layout_spec(
                store.commits.deep_view(),
                branches.deep_view(),
                stop,
                lanes.deep_view(),
                budget as nat,
                abort,
            ),
        ),
{
    let ghost sdv = store.commits.deep_view();
    let ghost bdv = branches.deep_view();
    let ghost lanes0 = lanes.deep_view();
    let ghost budget0 = budget as nat;
    let ghost abort0 = abort;
    let mut lanes = lanes;
    let mut budget = budget;
    let mut abort = abort;
    let mut out: Vec<GraphNode> = Vec::new();
    let mut truncated = false;
    let mut failure: Option<GraphError> = None;
    proof {
        assert(out.deep_view() =~= Seq::<RowView>::empty());
    }
    loop
        invariant_except_break
            failure is None,
        invariant
            sdv == store.commits.deep_view(),
            bdv == branches.deep_view(),
            prepend_rows(
                out.deep_view(),
                layout_spec(sdv, bdv, stop, lanes.deep_view(), budget as nat, abort),
            ) == layout_spec(sdv, bdv, stop, lanes0, budget0, abort0),
        ensures
            match failure {
                None => layout_spec(sdv, bdv, stop, lanes0, budget0, abort0) == Ok::<
                    (Seq<RowView>, bool),
                    GraphError,
                >((out.deep_view(), truncated)),
                Some(e) => layout_spec(sdv, bdv, stop, lanes0, budget0, abort0) == Err::<
                    (Seq<RowView>, bool),
                    GraphError,
                >(e),
            },
        decreases budget,
    {
        let ghost ldv = lanes.deep_view();
        if abort || lanes.len() == 0 {
            proof {
                assert(layout_spec(sdv, bdv, stop, ldv, budget as nat, abort) == Ok::<
                    (Seq<RowView>, bool),
                    GraphError,
                >((Seq::<RowView>::empty(), false)));
                assert(out.deep_view() + Seq::<RowView>::empty() =~= out.deep_view());
            }
            truncated = false;
            break;
        }
        if budget == 0 {
            proof {
                assert(layout_spec(sdv, bdv, stop, ldv, budget as nat, abort) == Ok::<
                    (Seq<RowView>, bool),
                    GraphError,
                >((Seq::<RowView>::empty(), true)));
                assert(out.deep_view() + Seq::<RowView>::empty() =~= out.deep_view());
            }
            truncated = true;
            break;
        }
        let l = lanes.len();
        let mi = find_max_index(&lanes);
        let ghost c_view = ldv[mi as int];
        let cid = lanes[mi].id;
        let np = lanes[mi].parents.len();
        if np > 2 {
            proof {
                assert(layout_spec(sdv, bdv, stop, ldv, budget as nat, abort) == Err::<
                    (Seq<RowView>, bool),
                    GraphError,
                >(GraphError::UnsupportedTopology { id: cid }));
            }
            failure = Some(GraphError::UnsupportedTopology { id: cid });
            break;
        }
        let mut parents: Vec<Commit> = Vec::new();
        if np >= 1 {
            let pid = lanes[mi].parents[0];
            proof {
                assert(pid == c_view.parents[0]);
            }
            match store.find(pid) {
                None => {
                    proof {
                        assert(resolve_parents(sdv, c_view.parents) == Err::<
                            Seq<CommitView>,
                            GraphError,
                        >(GraphError::ObjectNotFound { id: pid }));
                        assert(layout_spec(sdv, bdv, stop, ldv, budget as nat, abort) == Err::<
                            (Seq<RowView>, bool),
                            GraphError,
                        >(GraphError::ObjectNotFound { id: pid }));
                    }
                    failure = Some(GraphError::ObjectNotFound { id: pid });
                    break;
                },
                Some(j) => {
                    parents.push(store.commits[j].duplicate());
                    proof {
                        assert(parents.deep_view()[0] == store.commits.deep_view()[j as int]);
                        assert(store_find(sdv, c_view.parents[0]) == Some(
                            parents.deep_view()[0],
                        ));
                    }
                },
            }
        }
        let ghost p0v = if np >= 1 {
            parents.deep_view()[0]
        } else {
            arbitrary()
        };
        if np == 2 {
            let pid = lanes[mi].parents[1];
            proof {
                assert(pid == c_view.parents[1]);
            }
            match store.find(pid) {
                None => {
                    proof {
                        assert(c_view.parents.drop_first()[0] == c_view.parents[1]);
                        assert(resolve_parents(sdv, c_view.parents.drop_first()) == Err::<
                            Seq<CommitView>,
                            GraphError,
                        >(GraphError::ObjectNotFound { id: pid }));
                        assert(resolve_parents(sdv, c_view.parents) == Err::<
                            Seq<CommitView>,
                            GraphError,
                        >(GraphError::ObjectNotFound { id: pid }));
                        assert(layout_spec(sdv, bdv, stop, ldv, budget as nat, abort) == Err::<
                            (Seq<RowView>, bool),
                            GraphError,
                        >(GraphError::ObjectNotFound { id: pid }));
                    }
                    failure = Some(GraphError::ObjectNotFound { id: pid });
                    break;
                },
                Some(j) => {
                    parents.push(store.commits[j].duplicate());
                    proof {
                        assert(parents.deep_view()[1] == store.commits.deep_view()[j as int]);
                        assert(store_find(sdv, c_view.parents[1]) == Some(
                            parents.deep_view()[1],
                        ));
                        assert(parents.deep_view()[0] == p0v);
                    }
                },
            }
        }
        let ghost pdv = parents.deep_view();
        proof {
            if np == 0 {
                assert(pdv =~= Seq::<CommitView>::empty());
                assert(resolve_parents(sdv, c_view.parents) == Ok::<
                    Seq<CommitView>,
                    GraphError,
                >(pdv));
            } else if np == 1 {
                assert(c_view.parents.drop_first().len() == 0);
                assert(resolve_parents(sdv, c_view.parents.drop_first()) == Ok::<
                    Seq<CommitView>,
                    GraphError,
                >(Seq::empty()));
                assert(seq![pdv[0]] + Seq::<CommitView>::empty() =~= pdv);
                assert(resolve_parents(sdv, c_view.parents) == Ok::<
                    Seq<CommitView>,
                    GraphError,
                >(pdv));
            } else {
                assert(c_view.parents.drop_first()[0] == c_view.parents[1]);
                assert(c_view.parents.drop_first().drop_first().len() == 0);
                assert(resolve_parents(sdv, c_view.parents.drop_first().drop_first()) == Ok::<
                    Seq<CommitView>,
                    GraphError,
                >(Seq::empty()));
                assert(seq![pdv[1]] + Seq::<CommitView>::empty() =~= seq![pdv[1]]);
                assert(resolve_parents(sdv, c_view.parents.drop_first()) == Ok::<
                    Seq<CommitView>,
                    GraphError,
                >(seq![pdv[1]]));
                assert(seq![pdv[0]] + seq![pdv[1]] =~= pdv);
                assert(resolve_parents(sdv, c_view.parents) == Ok::<
                    Seq<CommitView>,
                    GraphError,
                >(pdv));
            }
        }
        let c = lanes.remove(mi);
        if np == 1 {
            let p0 = parents.remove(0);
            lanes.insert(mi, p0);
        } else if np == 2 {
            let p1 = parents.remove(1);
            let p0 = parents.remove(0);
            lanes.insert(mi, p0);
            lanes.insert(mi + 1, p1);
        }
        proof {
            assert(lanes.deep_view() =~= expanded_lanes(ldv, mi as int, pdv));
        }
        let next = dedup_lanes(&lanes);
        let dup = lanes.len() - next.len();
        proof {
            if np == 1 && dup > 0 {
                assert(lanes.deep_view().len() == l);
                assert(next.deep_view().len() >= 1);
            }
        }
        let grapheme = paint_connector(l, mi, np, dup);
        let label = short_hand_current_commit(branches, cid);
        let node = GraphNode { grapheme, oid: cid, branch_shorthand: label, summary: c.summary };
        let ghost out_before = out.deep_view();
        let ghost row = row_for(bdv, c_view, l as nat, mi as nat, dup as nat);
        out.push(node);
        proof {
            assert(out.deep_view() =~= out_before.push(row));
        }
        let abort_next = match stop {
            Some(t) => t == cid,
            None => false,
        };
        let ghost ndv = next.deep_view();
        proof {
            let s_new = layout_spec(sdv, bdv, stop, ndv, (budget - 1) as nat, abort_next);
            assert(layout_spec(sdv, bdv, stop, ldv, budget as nat, abort) == prepend_rows(
                seq![row],
                s_new,
            ));
            match s_new {
                Ok((rows, tr)) => {
                    assert(out_before.push(row) + rows =~= out_before + (seq![row] + rows));
                },
                Err(e) => {},
            }
        }
        lanes = next;
        abort = abort_next;
        budget = budget - 1;
    }
    match failure {
        Some(e) => Err(e),
        None => Ok(LayoutOutcome { nodes: out, truncated }),
    }
}

/// Whether the executable result `r` is exactly what the model `s` says.
pub open spec fn outcome_matches(
    r: Result<LayoutOutcome, GraphError>,
    s: Result<(Seq<RowView>, bool), GraphError>,
) -> bool {
    match s {
        Ok((rows, tr)) => match r {
            Ok(o) => o.nodes.deep_view() == rows && o.truncated == tr,
            Err(_) => false,
        },
        Err(e) => r matches Err(e2) && e2 == e,
    }
}

} // verus!
