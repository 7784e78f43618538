use gitgraph::commit::{Commit, CommitStore};
use gitgraph::branch::{BranchData, BranchKind};
use gitgraph::layout::{paint_branch, GraphError};

fn commit(id: u64, timestamp: i64, parents: Vec<u64>) -> Commit {
    Commit::new(id, timestamp, format!("commit {}", id), parents)
}

fn store_of(commits: Vec<Commit>) -> CommitStore {
    let mut store = CommitStore::new();
    for c in commits {
        store.push(c);
    }
    store
}

fn chain_store(n: u64) -> CommitStore {
    // Commit i has parent i + 1; commit n - 1 is the root; timestamps decrease.
    let mut commits = Vec::new();
    for i in 0..n {
        let parents = if i + 1 < n { vec![i + 1] } else { vec![] };
        commits.push(commit(i, (n - i) as i64, parents));
    }
    store_of(commits)
}

#[test]
fn linear_history_produces_one_row_per_commit() {
    let store = chain_store(3);
    let branches: Vec<BranchData> = Vec::new();
    let head = commit(0, 3, vec![1]);
    let outcome = paint_branch(&store, &branches, None, vec![head], 500, false).unwrap();
    assert_eq!(outcome.nodes.len(), 3);
    assert!(!outcome.truncated);
    for (i, node) in outcome.nodes.iter().enumerate() {
        assert_eq!(node.oid, i as u64);
    }
    assert_eq!(outcome.nodes[0].grapheme, "├●");
    assert_eq!(outcome.nodes[1].grapheme, "├●");
    assert_eq!(outcome.nodes[2].grapheme, "├●\n╽");
}

#[test]
fn empty_lanes_produce_no_rows() {
    let store = chain_store(1);
    let branches: Vec<BranchData> = Vec::new();
    let outcome = paint_branch(&store, &branches, None, vec![], 500, false).unwrap();
    assert_eq!(outcome.nodes.len(), 0);
    assert!(!outcome.truncated);
}

#[test]
fn abort_flag_produces_no_rows() {
    let store = chain_store(2);
    let branches: Vec<BranchData> = Vec::new();
    let head = commit(0, 2, vec![1]);
    let outcome = paint_branch(&store, &branches, None, vec![head], 500, true).unwrap();
    assert_eq!(outcome.nodes.len(), 0);
    assert!(!outcome.truncated);
}

#[test]
fn budget_truncates_long_history() {
    let store = chain_store(10);
    let branches: Vec<BranchData> = Vec::new();
    let head = commit(0, 10, vec![1]);
    let outcome = paint_branch(&store, &branches, None, vec![head], 4, false).unwrap();
    assert_eq!(outcome.nodes.len(), 4);
    assert!(outcome.truncated);
    for (i, node) in outcome.nodes.iter().enumerate() {
        assert_eq!(node.oid, i as u64);
    }
}

#[test]
fn exact_budget_walks_history_without_truncation() {
    let store = chain_store(4);
    let branches: Vec<BranchData> = Vec::new();
    let head = commit(0, 4, vec![1]);
    let outcome = paint_branch(&store, &branches, None, vec![head], 4, false).unwrap();
    assert_eq!(outcome.nodes.len(), 4);
    assert!(!outcome.truncated);
}

#[test]
fn stop_condition_is_inclusive() {
    let store = chain_store(5);
    let branches: Vec<BranchData> = Vec::new();
    let head = commit(0, 5, vec![1]);
    let outcome = paint_branch(&store, &branches, Some(2), vec![head], 500, false).unwrap();
    assert_eq!(outcome.nodes.len(), 3);
    assert!(!outcome.truncated);
    assert_eq!(outcome.nodes[2].oid, 2);
    for node in &outcome.nodes {
        assert!(node.oid <= 2, "ancestors of the stop commit must be excluded");
    }
}

#[test]
fn octopus_merge_is_rejected_with_no_partial_output() {
    let mut commits = Vec::new();
    commits.push(commit(0, 4, vec![1, 2, 3]));
    commits.push(commit(1, 3, vec![]));
    commits.push(commit(2, 2, vec![]));
    commits.push(commit(3, 1, vec![]));
    let store = store_of(commits);
    let branches: Vec<BranchData> = Vec::new();
    let head = commit(0, 4, vec![1, 2, 3]);
    let r = paint_branch(&store, &branches, None, vec![head], 500, false);
    match r {
        Err(GraphError::UnsupportedTopology { id }) => assert_eq!(id, 0),
        _ => panic!("expected the octopus merge to be rejected"),
    }
}

#[test]
fn missing_parent_is_reported() {
    let mut commits = Vec::new();
    commits.push(commit(7, 2, vec![99]));
    let store = store_of(commits);
    let branches: Vec<BranchData> = Vec::new();
    let head = commit(7, 2, vec![99]);
    let r = paint_branch(&store, &branches, None, vec![head], 500, false);
    match r {
        Err(GraphError::ObjectNotFound { id }) => assert_eq!(id, 99),
        _ => panic!("expected the missing parent to be reported"),
    }
}

#[test]
fn diamond_produces_split_join_and_single_root_row() {
    // A merges B and C; both reconverge on the root D; A is newest.
    let mut commits = Vec::new();
    commits.push(commit(10, 40, vec![11, 12]));
    commits.push(commit(11, 30, vec![13]));
    commits.push(commit(12, 20, vec![13]));
    commits.push(commit(13, 10, vec![]));
    let store = store_of(commits);
    let branches: Vec<BranchData> = Vec::new();
    let head = commit(10, 40, vec![11, 12]);
    let outcome = paint_branch(&store, &branches, None, vec![head], 500, false).unwrap();
    assert_eq!(outcome.nodes.len(), 4);
    assert!(!outcome.truncated);
    assert_eq!(outcome.nodes[0].oid, 10);
    assert_eq!(outcome.nodes[1].oid, 11);
    assert_eq!(outcome.nodes[2].oid, 12);
    assert_eq!(outcome.nodes[3].oid, 13);
    assert_eq!(outcome.nodes[0].grapheme, "├●\n├─┐");
    assert_eq!(outcome.nodes[1].grapheme, "│ ├●");
    assert_eq!(outcome.nodes[2].grapheme, "│ ├●\n├─┘");
    assert_eq!(outcome.nodes[3].grapheme, "├●\n╽");
    let root_rows = outcome.nodes.iter().filter(|n| n.oid == 13).count();
    assert_eq!(root_rows, 1, "the shared root must appear exactly once");
    let split_rows = outcome.nodes.iter().filter(|n| n.grapheme.contains('┐')).count();
    let join_rows = outcome.nodes.iter().filter(|n| n.grapheme.contains('┘')).count();
    assert_eq!(split_rows, 1);
    assert_eq!(join_rows, 1);
}

#[test]
fn single_merge_with_longer_lineages_joins_once() {
    // The merge's two parent lineages are chains of two commits each, both
    // ending on the shared root; the newer lineage drains first.
    let mut commits = Vec::new();
    commits.push(commit(50, 100, vec![51, 53]));
    commits.push(commit(51, 90, vec![52]));
    commits.push(commit(52, 80, vec![56]));
    commits.push(commit(53, 70, vec![54]));
    commits.push(commit(54, 60, vec![56]));
    commits.push(commit(56, 10, vec![]));
    let store = store_of(commits);
    let branches: Vec<BranchData> = Vec::new();
    let head = commit(50, 100, vec![51, 53]);
    let outcome = paint_branch(&store, &branches, None, vec![head], 500, false).unwrap();
    let ids: Vec<u64> = outcome.nodes.iter().map(|n| n.oid).collect();
    assert_eq!(ids, vec![50, 51, 52, 53, 54, 56]);
    assert_eq!(outcome.nodes[0].grapheme, "├●\n├─┐");
    assert_eq!(outcome.nodes[1].grapheme, "│ ├●");
    assert_eq!(outcome.nodes[2].grapheme, "│ ├●");
    assert_eq!(outcome.nodes[3].grapheme, "│ ├●");
    assert_eq!(outcome.nodes[4].grapheme, "│ ├●\n├─┘");
    assert_eq!(outcome.nodes[5].grapheme, "├●\n╽");
}

#[test]
fn lanes_reconverging_apart_are_still_collapsed() {
    // Two merges: the head forks into a root X and a second merge M, and M
    // forks into a root Y and X again. When M expands, X would sit in two
    // non-neighbouring lanes; the duplicate lane is collapsed the same
    // step, so X's row appears exactly once.
    let mut commits = Vec::new();
    commits.push(commit(1, 100, vec![2, 3]));
    commits.push(commit(2, 50, vec![]));
    commits.push(commit(3, 80, vec![4, 2]));
    commits.push(commit(4, 30, vec![]));
    let store = store_of(commits);
    let branches: Vec<BranchData> = Vec::new();
    let head = commit(1, 100, vec![2, 3]);
    let outcome = paint_branch(&store, &branches, None, vec![head], 500, false).unwrap();
    let ids: Vec<u64> = outcome.nodes.iter().map(|n| n.oid).collect();
    assert_eq!(ids, vec![1, 3, 2, 4]);
    let x_rows = outcome.nodes.iter().filter(|n| n.oid == 2).count();
    assert_eq!(x_rows, 1, "a commit reachable via two lanes gets one row");
    assert_eq!(outcome.nodes[1].grapheme, "│ ├●\n├─┤");
}

#[test]
fn split_and_join_on_the_same_row_use_the_combined_connector() {
    // A merge whose two parents are the same commit: the fan-out and the
    // immediate reconvergence fall on one row and are drawn as one glyph.
    let mut commits = Vec::new();
    commits.push(commit(30, 20, vec![31, 31]));
    commits.push(commit(31, 10, vec![]));
    let store = store_of(commits);
    let branches: Vec<BranchData> = Vec::new();
    let head = commit(30, 20, vec![31, 31]);
    let outcome = paint_branch(&store, &branches, None, vec![head], 500, false).unwrap();
    assert_eq!(outcome.nodes.len(), 2);
    assert_eq!(outcome.nodes[0].grapheme, "├●\n├─┤");
    assert_eq!(outcome.nodes[1].grapheme, "├●\n╽");
}

#[test]
fn stop_condition_on_the_head_keeps_only_its_row() {
    let store = chain_store(3);
    let branches: Vec<BranchData> = Vec::new();
    let head = commit(0, 3, vec![1]);
    let outcome = paint_branch(&store, &branches, Some(0), vec![head], 500, false).unwrap();
    assert_eq!(outcome.nodes.len(), 1);
    assert_eq!(outcome.nodes[0].oid, 0);
}

#[test]
fn branch_labels_are_attached_to_matching_rows() {
    let store = chain_store(2);
    let branches = vec![
        BranchData::new(1, String::from("develop"), Some(BranchKind::Local)),
        BranchData::new(1, String::from("other"), Some(BranchKind::Remote)),
    ];
    let head = commit(0, 2, vec![1]);
    let outcome = paint_branch(&store, &branches, None, vec![head], 500, false).unwrap();
    assert_eq!(outcome.nodes[0].branch_shorthand, None);
    assert_eq!(outcome.nodes[1].branch_shorthand, Some(String::from("develop")));
    assert_eq!(outcome.nodes[0].summary, "commit 0");
}

#[test]
fn two_equal_lanes_join_after_one_parent_step() {
    // Two branch heads over a shared parent: E and F both advance to G.
    let mut commits = Vec::new();
    commits.push(commit(20, 40, vec![21, 22]));
    commits.push(commit(21, 30, vec![23]));
    commits.push(commit(22, 20, vec![23]));
    commits.push(commit(23, 10, vec![]));
    let store = store_of(commits);
    let branches: Vec<BranchData> = Vec::new();
    let head = commit(20, 40, vec![21, 22]);
    let outcome = paint_branch(&store, &branches, None, vec![head], 500, false).unwrap();
    // The join row collapses the duplicate lane the step it appears.
    assert!(outcome.nodes[2].grapheme.ends_with("┘"));
}
