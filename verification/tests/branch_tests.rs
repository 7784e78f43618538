use gitgraph::branch::{branches_data, contains_str, short_hand_current_commit, BranchData,
    BranchKind};
use gitgraph::graph_node::short_id;

fn local(oid: u64, name: &str) -> BranchData {
    BranchData::new(oid, String::from(name), Some(BranchKind::Local))
}

#[test]
fn branch_data_exposes_its_parts() {
    let b = local(42, "develop");
    assert_eq!(b.oid(), 42);
    assert_eq!(b.shorthand(), "develop");
}

#[test]
fn contains_str_finds_substrings() {
    assert!(contains_str("feature/x-v2", "feature/x"));
    assert!(contains_str("feature/x", "feature/x"));
    assert!(contains_str("abc", ""));
    assert!(!contains_str("abc", "abcd"));
    assert!(!contains_str("feature/x", "main"));
}

#[test]
fn branches_data_keeps_related_branches() {
    let head = Some(String::from("feature/x"));
    let branches = vec![
        local(1, "feature/x-v2"),
        local(2, "main"),
        local(3, "feat"),
        local(4, "feature/x"),
    ];
    let stops = branches_data(&head, &branches, None);
    assert_eq!(stops.len(), 4);
    assert!(stops[0].is_none());
    assert_eq!(stops[1].as_ref().unwrap().oid(), 1);
    assert_eq!(stops[2].as_ref().unwrap().oid(), 3);
    assert_eq!(stops[3].as_ref().unwrap().oid(), 4);
}

#[test]
fn branches_data_without_head_keeps_every_branch() {
    let branches = vec![local(1, "a"), local(2, "b")];
    let stops = branches_data(&None, &branches, None);
    assert_eq!(stops.len(), 3);
    assert!(stops[0].is_none());
    assert_eq!(stops[1].as_ref().unwrap().shorthand(), "a");
    assert_eq!(stops[2].as_ref().unwrap().shorthand(), "b");
}

#[test]
fn branches_data_keeps_the_given_first_entry() {
    let branches = vec![local(1, "main")];
    let stops = branches_data(&None, &branches, Some(local(9, "chosen")));
    assert_eq!(stops[0].as_ref().unwrap().oid(), 9);
}

#[test]
fn short_hand_current_commit_takes_the_first_match() {
    let branches = vec![local(5, "one"), local(5, "two"), local(6, "three")];
    assert_eq!(short_hand_current_commit(&branches, 5), Some(String::from("one")));
    assert_eq!(short_hand_current_commit(&branches, 6), Some(String::from("three")));
    assert_eq!(short_hand_current_commit(&branches, 7), None);
}

#[test]
fn short_id_takes_seven_characters() {
    assert_eq!(short_id("0123456789abcdef"), "0123456");
    assert_eq!(short_id("aaaaaaa"), "aaaaaaa");
}
