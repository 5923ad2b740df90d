use workflow::tui_layout::{chat_layout, clamp_selection, settle_scroll};

#[test]
fn layout_without_tree() {
    let l = chat_layout(80, 24, 1, 0, 0);
    assert_eq!(l.input_lines, 1);
    assert_eq!(l.chat_width, 76);
    assert_eq!(l.tree_height, 0);
    assert!(!l.show_tree);
    assert_eq!(l.visible_height, 20);
}

#[test]
fn layout_with_tree_is_bounded() {
    let l = chat_layout(80, 24, 1, 2, 0);
    assert_eq!(l.tree_height, 6);
    assert!(l.show_tree);
    assert_eq!(l.visible_height, 13);
    let l = chat_layout(80, 24, 1, 10, 0);
    assert_eq!(l.tree_height, 8);
    assert_eq!(l.visible_height, 11);
    let l = chat_layout(80, 100, 1, 50, 0);
    assert_eq!(l.tree_height, 12);
}

#[test]
fn layout_on_a_tiny_screen() {
    let l = chat_layout(5, 4, 10, 0, 3);
    assert_eq!(l.input_lines, 3);
    assert_eq!(l.chat_width, 10);
    assert_eq!(l.visible_height, 1);
    let l = chat_layout(80, 30, 0, 0, 2);
    assert_eq!(l.input_lines, 1);
    assert_eq!(l.visible_height, 24);
}

#[test]
fn scroll_follows_or_stays() {
    assert_eq!(settle_scroll(true, 5, 10), (10, true));
    assert_eq!(settle_scroll(false, 12, 10), (10, true));
    assert_eq!(settle_scroll(false, 3, 10), (3, false));
}

#[test]
fn selection_stays_on_a_line() {
    assert_eq!(clamp_selection(5, 3), 2);
    assert_eq!(clamp_selection(1, 3), 1);
    assert_eq!(clamp_selection(4, 0), 0);
}
