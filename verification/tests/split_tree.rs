use pterminal::split::{PaneRect, SplitDirection, SplitTree, RATIO_ONE, UNIT};

fn frac(v: u64) -> f32 {
    v as f32 / UNIT as f32
}

fn thousandths(delta: f32) -> i64 {
    (delta * RATIO_ONE as f32).round() as i64
}

#[test]
fn single_pane_layout() {
    let tree = SplitTree::new(1);
    let layout = tree.layout();
    assert_eq!(layout.len(), 1);
    assert_eq!(layout[0].0, 1);
    let r = &layout[0].1;
    assert!((frac(r.x) - 0.0).abs() < f32::EPSILON);
    assert!((frac(r.width) - 1.0).abs() < f32::EPSILON);
}

#[test]
fn horizontal_split() {
    let mut tree = SplitTree::new(1);
    tree.split(1, SplitDirection::Horizontal, 2);
    let layout = tree.layout();
    assert_eq!(layout.len(), 2);
    assert!((frac(layout[0].1.width) - 0.5).abs() < f32::EPSILON);
    assert!((frac(layout[1].1.x) - 0.5).abs() < f32::EPSILON);
}

#[test]
fn remove_pane() {
    let mut tree = SplitTree::new(1);
    tree.split(1, SplitDirection::Horizontal, 2);
    assert!(tree.remove(2));
    assert_eq!(tree.pane_ids(), vec![1]);
}

#[test]
fn cannot_remove_only_pane() {
    let mut tree = SplitTree::new(1);
    assert!(!tree.remove(1));
}

#[test]
fn next_prev_pane() {
    let mut tree = SplitTree::new(1);
    tree.split(1, SplitDirection::Horizontal, 2);
    tree.split(2, SplitDirection::Vertical, 3);
    assert_eq!(tree.next_pane(1), Some(2));
    assert_eq!(tree.next_pane(3), Some(1)); // wraps
    assert_eq!(tree.prev_pane(1), Some(3)); // wraps
}

#[test]
fn adjust_ratio() {
    let mut tree = SplitTree::new(1);
    tree.split(1, SplitDirection::Horizontal, 2);
    tree.adjust_ratio(1, thousandths(0.1));
    let layout = tree.layout();
    assert!((frac(layout[0].1.width) - 0.6).abs() < f32::EPSILON);
}

#[test]
fn remove_only_pane_leaves_tree_unchanged() {
    let mut tree = SplitTree::new(7);
    assert!(!tree.remove(7));
    assert_eq!(tree.pane_ids(), vec![7]);
    assert!(tree.contains(7));
    assert!(!tree.remove(8));
    assert_eq!(tree.pane_ids(), vec![7]);
}

#[test]
fn adjust_ratio_clamps_at_both_ends() {
    let mut tree = SplitTree::new(1);
    tree.split(1, SplitDirection::Horizontal, 2);
    tree.adjust_ratio(1, 5000);
    assert_eq!(tree.layout()[0].1.width, UNIT / 10 * 9);
    tree.adjust_ratio(2, -5000);
    assert_eq!(tree.layout()[0].1.width, UNIT / 10);
    tree.adjust_ratio(1, i64::MAX);
    assert_eq!(tree.layout()[0].1.width, UNIT / 10 * 9);
    tree.adjust_ratio(1, i64::MIN);
    assert_eq!(tree.layout()[0].1.width, UNIT / 10);
}

#[test]
fn adjust_ratio_moves_the_closest_split() {
    let mut tree = SplitTree::new(1);
    tree.split(1, SplitDirection::Horizontal, 2);
    tree.split(2, SplitDirection::Vertical, 3);
    tree.adjust_ratio(3, 100);
    let layout = tree.layout();
    assert_eq!(layout[0].1.width, UNIT / 2);
    assert_eq!(layout[1].1.height, UNIT / 10 * 6);
    assert_eq!(layout[2].1.y, UNIT / 10 * 6);
    assert_eq!(layout[2].1.height, UNIT / 10 * 4);
    tree.adjust_ratio(9, 100);
    assert_eq!(tree.layout()[0].1.width, UNIT / 2);
}

#[test]
fn split_of_unknown_pane_changes_nothing() {
    let mut tree = SplitTree::new(1);
    tree.split(5, SplitDirection::Vertical, 2);
    assert_eq!(tree.pane_ids(), vec![1]);
    assert!(!tree.contains(2));
    assert_eq!(tree.next_pane(5), None);
    assert_eq!(tree.prev_pane(5), None);
    assert_eq!(tree.next_pane(1), Some(1));
}

fn overlap(a: &PaneRect, b: &PaneRect) -> bool {
    a.x < b.x + b.width && b.x < a.x + a.width && a.y < b.y + b.height && b.y < a.y + a.height
}

#[test]
fn layout_tiles_the_square_after_splits_and_removals() {
    let mut tree = SplitTree::new(0);
    tree.split(0, SplitDirection::Horizontal, 1);
    tree.split(1, SplitDirection::Vertical, 2);
    tree.split(0, SplitDirection::Vertical, 3);
    tree.split(2, SplitDirection::Horizontal, 4);
    tree.adjust_ratio(4, -333);
    assert!(tree.remove(1));
    assert!(!tree.remove(1));
    let ids = tree.pane_ids();
    assert_eq!(ids, vec![0, 3, 2, 4]);
    let layout = tree.layout();
    assert_eq!(layout.iter().map(|p| p.0).collect::<Vec<_>>(), ids);
    let mut area: u128 = 0;
    for (i, (_, r)) in layout.iter().enumerate() {
        assert!(r.width > 0 && r.height > 0);
        assert!(r.x + r.width <= UNIT && r.y + r.height <= UNIT);
        area += r.width as u128 * r.height as u128;
        for (_, other) in layout.iter().skip(i + 1) {
            assert!(!overlap(r, other));
        }
    }
    assert_eq!(area, UNIT as u128 * UNIT as u128);
}

#[test]
fn deep_trees_keep_positive_sizes_while_there_is_room() {
    let mut tree = SplitTree::new(0);
    for id in 1..25u64 {
        tree.split(id - 1, if id % 2 == 0 { SplitDirection::Vertical } else { SplitDirection::Horizontal }, id);
    }
    let layout = tree.layout();
    assert_eq!(layout.len(), 25);
    assert!(layout.iter().all(|(_, r)| r.width > 0 && r.height > 0));
    let mut narrow = SplitTree::new(0);
    for id in 1..40u64 {
        narrow.split(id - 1, SplitDirection::Horizontal, id);
    }
    let layout = narrow.layout();
    assert!(layout.iter().any(|(_, r)| r.width == 0));
    assert_eq!(layout.iter().map(|(_, r)| r.width).sum::<u64>(), UNIT);
}

#[test]
fn split_puts_new_pane_after_target() {
    let mut tree = SplitTree::new(1);
    tree.split(1, SplitDirection::Horizontal, 2);
    tree.split(1, SplitDirection::Vertical, 3);
    assert_eq!(tree.pane_ids(), vec![1, 3, 2]);
    let layout = tree.layout();
    assert_eq!(layout[0].1, PaneRect { x: 0, y: 0, width: UNIT / 2, height: UNIT / 2 });
    assert_eq!(layout[1].1, PaneRect { x: 0, y: UNIT / 2, width: UNIT / 2, height: UNIT / 2 });
    assert_eq!(layout[2].1, PaneRect { x: UNIT / 2, y: 0, width: UNIT / 2, height: UNIT });
}
