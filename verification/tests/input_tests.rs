use gitgraph::input::{centered_rect_absolute, BranchesComponent, GraphComponent, MenuItem,
    UiAction, UiKey};
use gitgraph::lanes::dedup_lanes;
use gitgraph::commit::Commit;

#[test]
fn menu_items_map_to_tab_positions() {
    assert_eq!(usize::from(MenuItem::Home), 0);
    assert_eq!(usize::from(MenuItem::Nodes), 1);
    assert_eq!(usize::from(MenuItem::Edit), 2);
    assert_eq!(usize::from(MenuItem::SubSearch), 3);
}

#[test]
fn graph_component_starts_with_an_even_split() {
    let c = GraphComponent::new();
    assert_eq!(c.selected, 0);
    assert_eq!(c.percentage_left, 50);
    assert_eq!(c.percentage_right, 50);
    assert_eq!(c.diff_offset, 0);
    assert!(!c.help_toggled);
    assert!(!c.edit_mode);
    assert_eq!(c.filter_string, "");
}

#[test]
fn cursor_wraps_at_both_ends() {
    let mut c = GraphComponent::new();
    assert_eq!(c.event(UiKey::Up, 5), UiAction::Nothing);
    assert_eq!(c.selected, 4);
    c.event(UiKey::Down, 5);
    assert_eq!(c.selected, 0);
    c.event(UiKey::Down, 5);
    assert_eq!(c.selected, 1);
}

#[test]
fn paging_wraps_on_short_lists() {
    let mut c = GraphComponent::new();
    c.event(UiKey::PageDown, 5);
    assert_eq!(c.selected, 0);
    c.event(UiKey::PageUp, 5);
    assert_eq!(c.selected, 4);
    let mut d = GraphComponent::new();
    c.event(UiKey::Down, 30);
    d.selected = 11;
    d.event(UiKey::PageUp, 30);
    assert_eq!(d.selected, 1);
    d.event(UiKey::PageDown, 30);
    assert_eq!(d.selected, 11);
}

#[test]
fn pane_split_stays_complementary() {
    let mut c = GraphComponent::new();
    c.event(UiKey::Left, 1);
    assert_eq!((c.percentage_left, c.percentage_right), (49, 51));
    c.event(UiKey::Right, 1);
    c.event(UiKey::Right, 1);
    assert_eq!((c.percentage_left, c.percentage_right), (51, 49));
}

#[test]
fn diff_offset_scrolls_and_clamps_at_zero() {
    let mut c = GraphComponent::new();
    c.event(UiKey::Char('j'), 1);
    c.event(UiKey::Char('j'), 1);
    assert_eq!(c.diff_offset, 2);
    c.event(UiKey::Char('k'), 1);
    c.event(UiKey::Char('k'), 1);
    c.event(UiKey::Char('k'), 1);
    assert_eq!(c.diff_offset, 0);
    c.event(UiKey::Char('j'), 1);
    c.event(UiKey::Down, 3);
    assert_eq!(c.diff_offset, 0, "moving the cursor resets the diff scroll");
}

#[test]
fn tab_keys_cycle_the_stop_condition() {
    let mut c = GraphComponent::new();
    assert_eq!(c.event(UiKey::Tab, 1), UiAction::CycleStop { forward: true });
    assert_eq!(c.event(UiKey::BackTab, 1), UiAction::CycleStop { forward: false });
    assert_eq!(c.event(UiKey::Char('u'), 1), UiAction::CycleStop { forward: true });
}

#[test]
fn edit_mode_collects_the_filter_string() {
    let mut c = GraphComponent::new();
    c.event(UiKey::Char('i'), 1);
    assert!(c.edit_mode);
    c.event(UiKey::Char('d'), 1);
    c.event(UiKey::Char('e'), 1);
    c.event(UiKey::Char('x'), 1);
    c.event(UiKey::Backspace, 1);
    c.event(UiKey::Char('v'), 1);
    assert_eq!(c.filter_string, "dev");
    assert_eq!(c.event(UiKey::Tab, 1), UiAction::Nothing);
    c.event(UiKey::Esc, 1);
    assert!(!c.edit_mode);
    assert_eq!(c.filter_string, "dev");
}

#[test]
fn help_toggles_on_question_mark() {
    let mut c = GraphComponent::new();
    c.event(UiKey::Char('?'), 1);
    assert!(c.help_toggled);
    c.event(UiKey::Char('?'), 1);
    assert!(!c.help_toggled);
}

#[test]
fn branches_component_cycles_on_tab() {
    let mut b = BranchesComponent::new();
    assert_eq!(b.paragraph_title, "Branches title");
    assert_eq!(b.event(UiKey::Tab), UiAction::CycleStop { forward: true });
    assert_eq!(b.event(UiKey::BackTab), UiAction::CycleStop { forward: false });
    assert_eq!(b.event(UiKey::Enter), UiAction::Nothing);
}

#[test]
fn centered_rect_is_clipped_and_centred() {
    assert_eq!(centered_rect_absolute(65, 24, 100, 50), (17, 13, 65, 24));
    assert_eq!(centered_rect_absolute(65, 24, 40, 20), (0, 0, 40, 20));
}

#[test]
fn dedup_is_a_no_op_on_distinct_lanes() {
    let lanes = vec![
        Commit::new(1, 30, String::from("a"), vec![]),
        Commit::new(2, 20, String::from("b"), vec![]),
        Commit::new(3, 10, String::from("c"), vec![]),
    ];
    let once = dedup_lanes(&lanes);
    assert_eq!(once.len(), 3);
    let ids: Vec<u64> = once.iter().map(|c| c.id).collect();
    assert_eq!(ids, vec![1, 2, 3]);
    let twice = dedup_lanes(&once);
    let ids2: Vec<u64> = twice.iter().map(|c| c.id).collect();
    assert_eq!(ids2, ids, "deduplication is idempotent");
}

#[test]
fn dedup_collapses_duplicates_wherever_they_sit() {
    let lanes = vec![
        Commit::new(1, 30, String::from("a"), vec![]),
        Commit::new(1, 30, String::from("a"), vec![]),
        Commit::new(2, 20, String::from("b"), vec![]),
        Commit::new(1, 30, String::from("a"), vec![]),
        Commit::new(3, 10, String::from("c"), vec![]),
        Commit::new(2, 20, String::from("b"), vec![]),
    ];
    let out = dedup_lanes(&lanes);
    let ids: Vec<u64> = out.iter().map(|c| c.id).collect();
    assert_eq!(ids, vec![1, 2, 3], "each commit keeps its leftmost lane only");
}
