//! The session kernel: graph rows plus the cyclable stop-condition list.
//!
//! A kernel holds the rows of the last layout run, the ordered list of stop
//! conditions (`None` meaning "walk full history"), and the index of the
//! currently selected one. Cycling the selection wraps around at both ends
//! and re-runs the layout; selection state that is broken (an empty list, an
//! index out of range) is reported as an error rather than walked past.

use vstd::prelude::*;
use crate::branch::{BranchData, BranchView};
use crate::commit::{Commit, CommitStore};
use crate::graph_node::GraphNode;
use crate::layout::{layout_spec, outcome_matches, paint_branch, GraphError, LayoutOutcome};

verus! {

/// The fixed ceiling of layout steps per run: a safety valve against
/// unbounded histories, not a correctness mechanism.
pub const LIMIT_STACK: usize = 500;

/// The display name of a stop-condition entry, if it has one.
pub open spec fn stop_label(s: Option<BranchView>) -> Option<Seq<char>> {
    match s {
        Some(b) => Some(b.shorthand),
        None => None,
    }
}

/// The commit identifier a stop-condition entry points at, if any.
pub open spec fn stop_target_of(s: Option<BranchView>) -> Option<u64> {
    match s {
        Some(b) => Some(b.oid),
        None => None,
    }
}

/// Where cycling by `dir` moves the selected index, wrapping at both ends.
pub open spec fn cycled_index(cur: int, len: int, dir: isize) -> int {
    if dir > 0 {
        if cur < len - 1 {
            cur + 1
        } else {
            0
        }
    } else {
        if cur > 0 {
            cur - 1
        } else {
            len - 1
        }
    }
}

/// The engine session: the rows of the last run and the stop-condition
/// state that persists between runs.
pub struct Kernel {
    pub root_oid: Option<u64>,
    pub nodes: Vec<GraphNode>,
    pub nodes_len: usize,
    pub truncated: bool,
    pub stop_condition_i: usize,
    pub stop_conditions: Vec<Option<BranchData>>,
}

impl Kernel {
    /// The selection state is sound: the list is non-empty and the index is
    /// in range.
    pub open spec fn wf(self) -> bool {
        &&& self.stop_conditions@.len() >= 1
        &&& self.stop_condition_i < self.stop_conditions@.len()
    }

    /// The currently selected stop condition.
    pub open spec fn selected_stop(self) -> Option<BranchView> {
        self.stop_conditions.deep_view()[self.stop_condition_i as int]
    }

    /// The commit identifier at which the selected stop condition ends the
    /// walk, or `None` for a full walk.
    pub open spec fn stop_target(self) -> Option<u64> {
        stop_target_of(self.selected_stop())
    }

    /// Builds a session over a non-empty stop-condition list, with the
    /// first entry selected and no rows yet.
    pub fn new(root_oid: Option<u64>, stop_conditions: Vec<Option<BranchData>>) -> (k: Kernel)
        requires
            stop_conditions@.len() >= 1,
        ensures
            k.wf(),
            k.root_oid == root_oid,
            k.stop_conditions == stop_conditions,
            k.stop_condition_i == 0,
            k.nodes@.len() == 0,
            k.truncated == false,
    {
        Kernel {
            root_oid,
            nodes: Vec::new(),
            nodes_len: 0,
            truncated: false,
            stop_condition_i: 0,
            stop_conditions,
        }
    }

    /// How many rows the last run produced.
    pub fn get_nodes_len(&self) -> (r: usize)
        ensures
            r == self.nodes_len,
    {
        self.nodes_len
    }

    /// Whether the last run was cut short by the step budget.
    pub fn is_truncated(&self) -> (r: bool)
        ensures
            r == self.truncated,
    {
        self.truncated
    }

    /// The commit identifier of row `i`, or `None` when there is no such
    /// row.
    pub fn get_node_id(&self, i: usize) -> (r: Option<u64>)
        ensures
            r == if i < self.nodes@.len() {
                Some(self.nodes.deep_view()[i as int].oid)
            } else {
                None::<u64>
            },
    {
        if i < self.nodes.len() {
            Some(self.nodes[i].id())
        } else {
            None
        }
    }

    /// The target commit of the selected stop condition, or `None` when the
    /// selection is the no-boundary entry.
    pub fn get_selected_branch_oid(&self) -> (r: Option<u64>)
        requires
            self.wf(),
        ensures
            r == self.stop_target(),
    {
        match &self.stop_conditions[self.stop_condition_i] {
            Some(branch_data) => Some(branch_data.oid()),
            None => None,
        }
    }

    /// The stop-condition entries as display data: each entry's name (or
    /// `None` for the no-boundary entry) and whether it is the selected
    /// one.
    pub fn branches_strings(&self) -> (r: Vec<(Option<String>, bool)>)
        ensures
            r@.len() == self.stop_conditions@.len(),
            forall|i: int|
                0 <= i < r@.len() ==> (#[trigger] r@[i]).0.deep_view() == stop_label(
                    self.stop_conditions.deep_view()[i],
                ) && r@[i].1 == (i == self.stop_condition_i as int),
    {
        let mut r: Vec<(Option<String>, bool)> = Vec::new();
        let mut i: usize = 0;
        while i < self.stop_conditions.len()
            invariant
                i <= self.stop_conditions@.len(),
                r@.len() == i,
                forall|j: int|
                    0 <= j < i ==> (#[trigger] r@[j]).0.deep_view() == stop_label(
                        self.stop_conditions.deep_view()[j],
                    ) && r@[j].1 == (j == self.stop_condition_i as int),
            decreases self.stop_conditions@.len() - i,
        {
            let name: Option<String> = match &self.stop_conditions[i] {
                Some(b) => Some(b.shorthand().clone()),
                None => None,
            };
            r.push((name, i == self.stop_condition_i));
            i = i + 1;
        }
        r
    }

    /// Lays the graph out from `commit`: one fresh walk with the full step
    /// budget, the current stop condition, and no prior abort.
    pub fn paint_commit_track(
        &self,
        commit: &Commit,
        branches: &Vec<BranchData>,
        store: &CommitStore,
    ) -> (r: Result<LayoutOutcome, GraphError>)
        requires
            self.wf(),
        ensures
            outcome_matches(
                r,
                layout_spec(
                    store.commits.deep_view(),
                    branches.deep_view(),
                    self.stop_target(),
                    seq![commit@],
                    LIMIT_STACK as nat,
                    false,
                ),
            ),
    {
        let stop = self.get_selected_branch_oid();
        let mut lanes: Vec<Commit> = Vec::new();
        lanes.push(commit.duplicate());
        proof {
            assert(lanes.deep_view() =~= seq![commit@]);
        }
        paint_branch(store, branches, stop, lanes, LIMIT_STACK, false)
    }

    /// Re-runs the layout from `head` and stores the rows: the walk that
    /// follows every navigation event. On an error the stored rows are left
    /// as they were.
    pub fn run(
        &mut self,
        store: &CommitStore,
        head: &Commit,
        branches: &Vec<BranchData>,
    ) -> (r: Result<(), GraphError>)
        requires
            old(self).wf(),
        ensures
            final(self).wf(),
            final(self).stop_conditions == old(self).stop_conditions,
            final(self).stop_condition_i == old(self).stop_condition_i,
            final(self).root_oid == old(self).root_oid,
            match layout_spec(
                store.commits.deep_view(),
                branches.deep_view(),
                old(self).stop_target(),
                seq![head@],
                LIMIT_STACK as nat,
                false,
            ) {
                Ok((rows, tr)) => {
                    &&& r is Ok
                    &&& final(self).nodes.deep_view() == rows
                    &&& final(self).nodes_len == final(self).nodes@.len()
                    &&& final(self).truncated == tr
                },
                Err(e) => r == Err::<(), GraphError>(e) && *final(self) == *old(self),
            },
    {
        match self.paint_commit_track(head, branches, store) {
            Ok(outcome) => {
                self.nodes = outcome.nodes;
                self.nodes_len = self.nodes.len();
                self.truncated = outcome.truncated;
                Ok(())
            },
            Err(e) => Err(e),
        }
    }

    /// Cycles the selected stop condition by `i` (forward when positive,
    /// backward otherwise), wrapping at both ends, and re-runs the layout.
    /// A broken selection state is reported, never walked past.
    pub fn update_graph(
        &mut self,
        i: isize,
        store: &CommitStore,
        head: &Commit,
        branches: &Vec<BranchData>,
    ) -> (r: Result<(), GraphError>)
        ensures
            old(self).stop_conditions@.len() == 0 ==> r == Err::<
                (),
                GraphError,
            >(GraphError::EmptyStopConditionSet) && *final(self) == *old(self),
            old(self).stop_conditions@.len() > 0 && old(self).stop_condition_i
                >= old(self).stop_conditions@.len() ==> r == Err::<(), GraphError>(
                GraphError::SelectionOutOfRange {
                    index: old(self).stop_condition_i,
                    len: old(self).stop_conditions@.len() as usize,
                },
            ) && *final(self) == *old(self),
            old(self).wf() ==> {
                let new_i = cycled_index(
                    old(self).stop_condition_i as int,
                    old(self).stop_conditions@.len() as int,
                    i,
                );
                &&& final(self).wf()
                &&& final(self).stop_condition_i == new_i
                &&& final(self).stop_conditions == old(self).stop_conditions
                &&& match layout_spec(
                    store.commits.deep_view(),
                    branches.deep_view(),
                    stop_target_of(old(self).stop_conditions.deep_view()[new_i]),
                    seq![head@],
                    LIMIT_STACK as nat,
                    false,
                ) {
                    Ok((rows, tr)) => {
                        &&& r is Ok
                        &&& final(self).nodes.deep_view() == rows
                        &&& final(self).nodes_len == final(self).nodes@.len()
                        &&& final(self).truncated == tr
                    },
                    Err(e) => {
                        &&& r == Err::<(), GraphError>(e)
                        &&& final(self).nodes == old(self).nodes
                        &&& final(self).nodes_len == old(self).nodes_len
                        &&& final(self).truncated == old(self).truncated
                    },
                }
            },
    {
        let len = self.stop_conditions.len();
        if len == 0 {
            return Err(GraphError::EmptyStopConditionSet);
        }
        if self.stop_condition_i >= len {
            return Err(GraphError::SelectionOutOfRange { index: self.stop_condition_i, len });
        }
        if i > 0 {
            if self.stop_condition_i < len - 1 {
                self.stop_condition_i = self.stop_condition_i + 1;
            } else {
                self.stop_condition_i = 0;
            }
        } else {
            if self.stop_condition_i > 0 {
                self.stop_condition_i = self.stop_condition_i - 1;
            } else {
                self.stop_condition_i = len - 1;
            }
        }
        self.run(store, head, branches)
    }
}

} // verus!
