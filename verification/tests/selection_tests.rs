use schematic::selection::{ClickKind, Selection};

fn selected_exactly(sel: &Selection, expected: &[usize]) -> bool {
    for &i in expected {
        if !sel.is_selected(i) {
            return false;
        }
    }
    for probe in 0usize..32 {
        if sel.is_selected(probe) && !expected.contains(&probe) {
            return false;
        }
    }
    true
}

#[test]
fn plain_click_selects_only_the_clicked_field() {
    let mut sel = Selection::new();
    sel.click(3, ClickKind::Plain);
    assert!(selected_exactly(&sel, &[3]));
    assert_eq!(sel.anchor, Some(3));
    sel.click(7, ClickKind::Plain);
    assert!(selected_exactly(&sel, &[7]));
    assert_eq!(sel.anchor, Some(7));
}

#[test]
fn plain_click_on_sole_selection_toggles_off() {
    let mut sel = Selection::new();
    sel.click(3, ClickKind::Plain);
    sel.click(3, ClickKind::Plain);
    assert!(selected_exactly(&sel, &[]));
    assert_eq!(sel.anchor, None);
}

#[test]
fn ctrl_click_toggles_membership_and_sets_anchor() {
    let mut sel = Selection::new();
    sel.click(2, ClickKind::Ctrl);
    sel.click(5, ClickKind::Ctrl);
    assert!(selected_exactly(&sel, &[2, 5]));
    assert_eq!(sel.anchor, Some(5));
    sel.click(2, ClickKind::Ctrl);
    assert!(selected_exactly(&sel, &[5]));
    assert_eq!(sel.anchor, Some(2));
}

#[test]
fn ctrl_click_twice_restores_membership_but_moves_anchor() {
    let mut sel = Selection::new();
    sel.click(1, ClickKind::Ctrl);
    sel.click(4, ClickKind::Ctrl);
    // Twice on a selected index.
    sel.click(1, ClickKind::Ctrl);
    sel.click(1, ClickKind::Ctrl);
    assert!(selected_exactly(&sel, &[1, 4]));
    assert_eq!(sel.anchor, Some(1));
    // Twice on an unselected index.
    sel.click(9, ClickKind::Ctrl);
    sel.click(9, ClickKind::Ctrl);
    assert!(selected_exactly(&sel, &[1, 4]));
    assert_eq!(sel.anchor, Some(9));
}

#[test]
fn shift_click_selects_range_from_anchor() {
    let mut sel = Selection::new();
    sel.click(2, ClickKind::Plain);
    sel.click(6, ClickKind::Shift);
    assert!(selected_exactly(&sel, &[2, 3, 4, 5, 6]));
    assert_eq!(sel.anchor, Some(6));
    // Range union, downward from the new anchor.
    sel.click(8, ClickKind::Ctrl);
    sel.click(7, ClickKind::Shift);
    assert!(selected_exactly(&sel, &[2, 3, 4, 5, 6, 7, 8]));
    assert_eq!(sel.anchor, Some(7));
}

#[test]
fn shift_click_without_anchor_resets_like_a_plain_click() {
    let mut plain = Selection::new();
    plain.click(4, ClickKind::Plain);
    let mut shift = Selection::new();
    shift.click(4, ClickKind::Shift);
    assert!(selected_exactly(&plain, &[4]));
    assert!(selected_exactly(&shift, &[4]));
    assert_eq!(plain.anchor, Some(4));
    assert_eq!(shift.anchor, Some(4));
}

#[test]
fn deletion_repair_shifts_selected_indices_and_anchor() {
    let mut sel = Selection::new();
    sel.click(2, ClickKind::Ctrl);
    sel.click(3, ClickKind::Ctrl);
    sel.click(5, ClickKind::Ctrl);
    assert!(selected_exactly(&sel, &[2, 3, 5]));
    assert_eq!(sel.anchor, Some(5));
    sel.repair_after_remove(3);
    assert!(selected_exactly(&sel, &[2, 4]));
    assert_eq!(sel.anchor, Some(4));
}

#[test]
fn deletion_repair_clears_anchor_on_the_removed_index() {
    let mut sel = Selection::new();
    sel.click(1, ClickKind::Ctrl);
    sel.click(3, ClickKind::Ctrl);
    assert_eq!(sel.anchor, Some(3));
    sel.repair_after_remove(3);
    assert!(selected_exactly(&sel, &[1]));
    assert_eq!(sel.anchor, None);
}

#[test]
fn clear_empties_selection_and_anchor() {
    let mut sel = Selection::new();
    sel.click(1, ClickKind::Ctrl);
    sel.click(2, ClickKind::Shift);
    sel.clear();
    assert!(selected_exactly(&sel, &[]));
    assert_eq!(sel.anchor, None);
}
