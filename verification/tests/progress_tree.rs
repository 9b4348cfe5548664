use dq::progress::BarStyle;
use dq::progress::ProgressBarManager;

#[test]
fn new_child_becomes_last_and_previous_loses_flag() {
    let mut m = ProgressBarManager::new();
    let root = m.add_root();
    let a = m.add_msg(Some(root));
    assert!(m.bar(a).is_last_child);
    let b = m.add_msg(Some(root));
    assert!(!m.bar(a).is_last_child);
    assert!(m.bar(b).is_last_child);
    let c = m.add_msg(Some(root));
    assert!(!m.bar(a).is_last_child);
    assert!(!m.bar(b).is_last_child);
    assert!(m.bar(c).is_last_child);
}

#[test]
fn exactly_one_last_child_across_adds_and_removes() {
    let mut m = ProgressBarManager::new();
    let root = m.add_root();
    let a = m.add_msg(Some(root));
    let b = m.add_msg(Some(root));
    let c = m.add_msg(Some(root));

    // Removing a middle child keeps the youngest as the last sibling.
    m.remove_bar(b);
    assert!(!m.bar(a).is_last_child);
    assert!(m.bar(c).is_last_child);
    assert!(!m.bar(b).alive);

    // Removing the last child hands the flag to the remaining youngest.
    m.remove_bar(c);
    assert!(m.bar(a).is_last_child);
    assert!(!m.bar(c).alive);

    // A later add takes the flag over again.
    let d = m.add_msg(Some(root));
    assert!(!m.bar(a).is_last_child);
    assert!(m.bar(d).is_last_child);
}

#[test]
fn removal_detaches_the_whole_subtree() {
    let mut m = ProgressBarManager::new();
    let root = m.add_root();
    let a = m.add_msg(Some(root));
    let a1 = m.add_msg(Some(a));
    let a2 = m.add_msg(Some(a));
    let b = m.add_msg(Some(root));
    m.remove_bar(a);
    assert!(!m.bar(a).alive);
    assert!(!m.bar(a1).alive);
    assert!(!m.bar(a2).alive);
    assert!(m.bar(root).alive);
    assert!(m.bar(b).alive);
    assert!(m.bar(b).is_last_child);
}

#[test]
fn levels_follow_nesting_depth() {
    let mut m = ProgressBarManager::new();
    let root = m.add_root();
    let child = m.add_msg(Some(root));
    let grandchild = m.add_child_with_total(child, Some(10));
    assert_eq!(m.bar(root).level, 0);
    assert_eq!(m.bar(child).level, 1);
    assert_eq!(m.bar(grandchild).level, 2);
}

#[test]
fn prefixes_encode_ancestry() {
    let mut m = ProgressBarManager::new();
    let root = m.add_root();
    let a = m.add_msg(Some(root));
    let b = m.add_msg(Some(root));
    let under_a = m.add_msg(Some(a));
    let under_b = m.add_msg(Some(b));

    assert_eq!(m.prefix(root), "");
    assert_eq!(m.prefix(a), "├── ");
    assert_eq!(m.prefix(b), "└── ");
    // Below a non-last ancestor the margin keeps a vertical continuation;
    // below the last ancestor it is blank.
    assert_eq!(m.prefix(under_a), "│   └── ");
    assert_eq!(m.prefix(under_b), "    └── ");
}

#[test]
fn deep_prefix_mixes_continuation_and_blank_margins() {
    let mut m = ProgressBarManager::new();
    let root = m.add_root();
    let a = m.add_msg(Some(root));
    let _b = m.add_msg(Some(root));
    let a1 = m.add_msg(Some(a));
    let a1x = m.add_msg(Some(a1));
    let _a1y = m.add_msg(Some(a1));
    // a has a later sibling (continuation), a1 is a's last child (blank),
    // a1x has a later sibling (branch glyph).
    assert_eq!(m.prefix(a1x), "│       ├── ");
}

#[test]
fn prefix_changes_when_sibling_arrives() {
    let mut m = ProgressBarManager::new();
    let root = m.add_root();
    let a = m.add_msg(Some(root));
    assert_eq!(m.prefix(a), "└── ");
    let _b = m.add_msg(Some(root));
    assert_eq!(m.prefix(a), "├── ");
}

#[test]
fn styles_and_positions_update() {
    let mut m = ProgressBarManager::new();
    let root = m.add_root();
    assert!(matches!(m.bar(root).style, BarStyle::UnknownTotal));

    let child = m.add_child_with_total(root, None);
    assert!(matches!(m.bar(child).style, BarStyle::UnknownTotal));

    m.update_template(child, Some(2048));
    assert!(matches!(m.bar(child).style, BarStyle::KnownTotal));
    assert_eq!(m.bar(child).length, Some(2048));

    m.update_template(child, None);
    assert!(matches!(m.bar(child).style, BarStyle::UnknownTotal));

    m.set_position(child, 100);
    assert_eq!(m.bar(child).position, 100);
    m.inc(child, 28);
    assert_eq!(m.bar(child).position, 128);
    m.inc(child, u64::MAX);
    assert_eq!(m.bar(child).position, u64::MAX);

    m.set_message(child, String::from("downloading"));
    assert_eq!(m.bar(child).message, "downloading");
    assert!(!m.bar(child).finished);
    m.finish(child, String::from("done"));
    assert!(m.bar(child).finished);
    assert_eq!(m.bar(child).message, "done");
}

#[test]
fn message_only_nodes_at_root_level() {
    let mut m = ProgressBarManager::new();
    let solo = m.add_msg(None);
    assert!(matches!(m.bar(solo).style, BarStyle::MessageOnly));
    assert!(m.bar(solo).parent.is_none());
    assert_eq!(m.prefix(solo), "");
    assert_eq!(m.node_count(), 1);
}
