use ciri::workspace_nav::{cycle_workspace, locate_pane};

#[test]
fn cycle_workspace_wraps_around() {
    assert_eq!(cycle_workspace(0, 3), Some(1));
    assert_eq!(cycle_workspace(1, 3), Some(2));
    assert_eq!(cycle_workspace(2, 3), Some(0));
    assert_eq!(cycle_workspace(0, 1), Some(0));
    assert_eq!(cycle_workspace(0, 0), None);
    assert_eq!(cycle_workspace(usize::MAX, 2), Some(0));
}

#[test]
fn locate_pane_finds_first_column_and_tile() {
    let layout = vec![
        vec![vec![1, 2], vec![3]],
        vec![vec![], vec![4, 5, 4]],
        vec![vec![5]],
    ];
    assert_eq!(locate_pane(&layout, 1), Some((0, 0, 0)));
    assert_eq!(locate_pane(&layout, 3), Some((0, 1, 0)));
    assert_eq!(locate_pane(&layout, 4), Some((1, 1, 0)));
    // The first workspace in order wins over a later one.
    assert_eq!(locate_pane(&layout, 5), Some((1, 1, 1)));
    assert_eq!(locate_pane(&layout, 9), None);
    assert_eq!(locate_pane(&Vec::new(), 1), None);
}
