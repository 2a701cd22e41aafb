use rstrf::pane_tree::{PaneTree, SplitStep};

fn leaf(n: &'static str) -> Box<PaneTree<&'static str, char>> {
    Box::new(PaneTree::Leaf(n))
}

#[test]
fn single_leaf_needs_no_split() {
    let t: PaneTree<&str, char> = PaneTree::Leaf("only");
    assert_eq!(*t.leftmost_leaf(), "only");
    assert_eq!(t.leaf_count(), 1);
    assert!(t.rebuild_plan().is_empty());
}

#[test]
fn nested_layout_splits_leftmost_leaves() {
    // ((A | B) - (C | D)) with split labels h, v1, v2
    let t = PaneTree::Split {
        split: 'h',
        a: Box::new(PaneTree::Split { split: '1', a: leaf("A"), b: leaf("B") }),
        b: Box::new(PaneTree::Split { split: '2', a: leaf("C"), b: leaf("D") }),
    };
    assert_eq!(*t.leftmost_leaf(), "A");
    assert_eq!(t.leaf_count(), 4);
    assert_eq!(
        t.rebuild_plan(),
        vec![
            SplitStep { split: 'h', target: 0, new_leaf: 2 },
            SplitStep { split: '1', target: 0, new_leaf: 1 },
            SplitStep { split: '2', target: 2, new_leaf: 3 },
        ]
    );
}
