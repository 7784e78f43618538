use gitgraph::branch::{BranchData, BranchKind};
use gitgraph::commit::{Commit, CommitStore};
use gitgraph::kernel::{Kernel, LIMIT_STACK};
use gitgraph::layout::GraphError;

fn commit(id: u64, timestamp: i64, parents: Vec<u64>) -> Commit {
    Commit::new(id, timestamp, format!("commit {}", id), parents)
}

fn chain_store(n: u64) -> CommitStore {
    let mut store = CommitStore::new();
    for i in 0..n {
        let parents = if i + 1 < n { vec![i + 1] } else { vec![] };
        store.push(commit(i, (n - i) as i64, parents));
    }
    store
}

fn local(oid: u64, name: &str) -> BranchData {
    BranchData::new(oid, String::from(name), Some(BranchKind::Local))
}

#[test]
fn run_fills_nodes_from_head() {
    let store = chain_store(3);
    let branches: Vec<BranchData> = Vec::new();
    let head = commit(0, 3, vec![1]);
    let mut kernel = Kernel::new(None, vec![None]);
    kernel.run(&store, &head, &branches).unwrap();
    assert_eq!(kernel.get_nodes_len(), 3);
    assert!(!kernel.is_truncated());
    assert_eq!(kernel.get_node_id(0), Some(0));
    assert_eq!(kernel.get_node_id(2), Some(2));
    assert_eq!(kernel.get_node_id(3), None);
}

#[test]
fn run_reports_truncation_at_the_stack_limit() {
    let n = (LIMIT_STACK as u64) + 40;
    let store = chain_store(n);
    let branches: Vec<BranchData> = Vec::new();
    let head = commit(0, n as i64, vec![1]);
    let mut kernel = Kernel::new(None, vec![None]);
    kernel.run(&store, &head, &branches).unwrap();
    assert_eq!(kernel.get_nodes_len(), LIMIT_STACK);
    assert!(kernel.is_truncated());
}

#[test]
fn selected_branch_oid_follows_the_selection() {
    let stops = vec![None, Some(local(1, "develop")), Some(local(2, "feature"))];
    let kernel = Kernel::new(None, stops);
    assert_eq!(kernel.get_selected_branch_oid(), None);
}

#[test]
fn update_graph_cycles_forward_and_wraps() {
    let store = chain_store(4);
    let branches: Vec<BranchData> = Vec::new();
    let head = commit(0, 4, vec![1]);
    let stops = vec![None, Some(local(1, "develop")), Some(local(2, "feature"))];
    let mut kernel = Kernel::new(None, stops);
    kernel.update_graph(1, &store, &head, &branches).unwrap();
    assert_eq!(kernel.get_selected_branch_oid(), Some(1));
    kernel.update_graph(1, &store, &head, &branches).unwrap();
    assert_eq!(kernel.get_selected_branch_oid(), Some(2));
    kernel.update_graph(1, &store, &head, &branches).unwrap();
    assert_eq!(kernel.get_selected_branch_oid(), None);
}

#[test]
fn update_graph_cycles_backward_and_wraps() {
    let store = chain_store(4);
    let branches: Vec<BranchData> = Vec::new();
    let head = commit(0, 4, vec![1]);
    let stops = vec![None, Some(local(1, "develop"))];
    let mut kernel = Kernel::new(None, stops);
    kernel.update_graph(-1, &store, &head, &branches).unwrap();
    assert_eq!(kernel.get_selected_branch_oid(), Some(1));
    kernel.update_graph(-1, &store, &head, &branches).unwrap();
    assert_eq!(kernel.get_selected_branch_oid(), None);
}

#[test]
fn update_graph_applies_the_new_stop_condition() {
    let store = chain_store(5);
    let branches: Vec<BranchData> = Vec::new();
    let head = commit(0, 5, vec![1]);
    let stops = vec![None, Some(local(2, "develop"))];
    let mut kernel = Kernel::new(None, stops);
    kernel.run(&store, &head, &branches).unwrap();
    assert_eq!(kernel.get_nodes_len(), 5);
    kernel.update_graph(1, &store, &head, &branches).unwrap();
    assert_eq!(kernel.get_nodes_len(), 3);
    assert_eq!(kernel.get_node_id(2), Some(2));
}

#[test]
fn update_graph_rejects_an_empty_stop_list() {
    let store = chain_store(2);
    let branches: Vec<BranchData> = Vec::new();
    let head = commit(0, 2, vec![1]);
    let mut kernel = Kernel {
        root_oid: None,
        nodes: Vec::new(),
        nodes_len: 0,
        truncated: false,
        stop_condition_i: 0,
        stop_conditions: Vec::new(),
    };
    let r = kernel.update_graph(1, &store, &head, &branches);
    assert_eq!(r, Err(GraphError::EmptyStopConditionSet));
}

#[test]
fn update_graph_rejects_a_selection_out_of_range() {
    let store = chain_store(2);
    let branches: Vec<BranchData> = Vec::new();
    let head = commit(0, 2, vec![1]);
    let mut kernel = Kernel {
        root_oid: None,
        nodes: Vec::new(),
        nodes_len: 0,
        truncated: false,
        stop_condition_i: 5,
        stop_conditions: vec![None],
    };
    let r = kernel.update_graph(1, &store, &head, &branches);
    assert_eq!(r, Err(GraphError::SelectionOutOfRange { index: 5, len: 1 }));
}

#[test]
fn branches_strings_mark_the_selected_entry() {
    let stops = vec![None, Some(local(1, "develop"))];
    let kernel = Kernel::new(None, stops);
    let labels = kernel.branches_strings();
    assert_eq!(labels.len(), 2);
    assert_eq!(labels[0], (None, true));
    assert_eq!(labels[1], (Some(String::from("develop")), false));
}

#[test]
fn paint_commit_track_matches_run() {
    let store = chain_store(3);
    let branches: Vec<BranchData> = Vec::new();
    let head = commit(0, 3, vec![1]);
    let kernel = Kernel::new(None, vec![None]);
    let outcome = kernel.paint_commit_track(&head, &branches, &store).unwrap();
    assert_eq!(outcome.nodes.len(), 3);
    assert!(!outcome.truncated);
}

#[test]
fn run_propagates_layout_errors_and_keeps_rows() {
    let mut store = CommitStore::new();
    store.push(commit(0, 2, vec![1]));
    store.push(commit(1, 1, vec![]));
    let branches: Vec<BranchData> = Vec::new();
    let head = commit(0, 2, vec![1]);
    let mut kernel = Kernel::new(None, vec![None]);
    kernel.run(&store, &head, &branches).unwrap();
    assert_eq!(kernel.get_nodes_len(), 2);
    let bad_head = commit(9, 9, vec![77]);
    let r = kernel.run(&store, &bad_head, &branches);
    assert_eq!(r, Err(GraphError::ObjectNotFound { id: 77 }));
    assert_eq!(kernel.get_nodes_len(), 2, "rows must be kept on a failed run");
}
