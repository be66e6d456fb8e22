use scroll_header::outline::{compute_sticky_headers, EditorSnapshot, OutlineItem};
use scroll_header::label::line_number_label;
use scroll_header::toolbar::{EditorHandle, PaneItem, ScrollHeader, ToolbarItemLocation};

fn item(text: &str, start_row: u32, end_row: u32) -> OutlineItem {
    OutlineItem {
        text: text.to_string(),
        start_row,
        end_row,
        highlight_ranges: vec![(0, text.len())],
    }
}

fn nested_outline() -> Vec<OutlineItem> {
    vec![
        item("mod shapes", 0, 40),
        item("struct Circle", 2, 5),
        item("impl Circle", 7, 30),
        item("fn area", 9, 14),
        item("fn perimeter", 16, 20),
        item("fn unrelated", 42, 50),
    ]
}

fn snapshot(outline: Option<Vec<OutlineItem>>, singleton: bool, scroll_top_row: u32) -> EditorSnapshot {
    EditorSnapshot { outline, singleton, scroll_top_row }
}

fn texts(items: &[OutlineItem]) -> Vec<String> {
    items.iter().map(|i| i.text.clone()).collect()
}

#[test]
fn no_enclosing_item_gives_empty_sequence() {
    let headers = compute_sticky_headers(&snapshot(Some(nested_outline()), true, 41));
    assert_eq!(headers.map(|h| h.len()), Some(0));
}

#[test]
fn scroll_inside_function_gives_three_items_outer_to_inner() {
    let headers = compute_sticky_headers(&snapshot(Some(nested_outline()), true, 11)).unwrap();
    assert_eq!(texts(&headers), vec!["mod shapes", "impl Circle", "fn area"]);
    assert_eq!(
        headers.iter().map(|h| h.start_row).collect::<Vec<_>>(),
        vec![0, 7, 9]
    );
    assert_eq!(headers[2].highlight_ranges, vec![(0, 7)]);
}

#[test]
fn item_boundaries_are_inclusive() {
    let first = compute_sticky_headers(&snapshot(Some(nested_outline()), true, 9)).unwrap();
    assert_eq!(texts(&first), vec!["mod shapes", "impl Circle", "fn area"]);
    let last = compute_sticky_headers(&snapshot(Some(nested_outline()), true, 14)).unwrap();
    assert_eq!(texts(&last), vec!["mod shapes", "impl Circle", "fn area"]);
    let after = compute_sticky_headers(&snapshot(Some(nested_outline()), true, 15)).unwrap();
    assert_eq!(texts(&after), vec!["mod shapes", "impl Circle"]);
}

#[test]
fn no_outline_gives_none() {
    assert!(compute_sticky_headers(&snapshot(None, true, 3)).is_none());
}

#[test]
fn several_buffers_give_none() {
    assert!(compute_sticky_headers(&snapshot(Some(nested_outline()), false, 11)).is_none());
}

#[test]
fn empty_outline_gives_empty_sequence() {
    let headers = compute_sticky_headers(&snapshot(Some(Vec::new()), true, 0));
    assert_eq!(headers.map(|h| h.len()), Some(0));
}

#[test]
fn switching_to_non_singleton_hides_and_clears() {
    let mut header = ScrollHeader::new();
    let editor = EditorHandle { entity_id: 4 };
    header.set_active_pane_item(Some(&PaneItem::Editor { handle: editor, singleton: true }));
    let multi = PaneItem::Editor { handle: EditorHandle { entity_id: 5 }, singleton: false };
    assert_eq!(header.set_active_pane_item(Some(&multi)), ToolbarItemLocation::Hidden);
    assert_eq!(header.editor(), None);
}

#[test]
fn switching_to_other_view_or_none_hides() {
    let mut header = ScrollHeader::new();
    let editor = EditorHandle { entity_id: 4 };
    header.set_active_pane_item(Some(&PaneItem::Editor { handle: editor, singleton: true }));
    assert_eq!(header.set_active_pane_item(Some(&PaneItem::Other)), ToolbarItemLocation::Hidden);
    assert_eq!(header.editor(), None);
    header.set_active_pane_item(Some(&PaneItem::Editor { handle: editor, singleton: true }));
    assert_eq!(header.set_active_pane_item(None), ToolbarItemLocation::Hidden);
    assert_eq!(header.editor(), None);
}

#[test]
fn switching_back_to_singleton_shows_and_tracks() {
    let mut header = ScrollHeader::new();
    assert_eq!(header.editor(), None);
    let multi = PaneItem::Editor { handle: EditorHandle { entity_id: 5 }, singleton: false };
    header.set_active_pane_item(Some(&multi));
    let editor = EditorHandle { entity_id: 9 };
    let single = PaneItem::Editor { handle: editor, singleton: true };
    assert_eq!(header.set_active_pane_item(Some(&single)), ToolbarItemLocation::Secondary);
    assert_eq!(header.editor(), Some(editor));
}

#[test]
fn label_of_row_nine_is_ten() {
    assert_eq!(line_number_label(9), "10");
    assert_eq!(line_number_label(0), "1");
    assert_eq!(line_number_label(u32::MAX), "4294967296");
}

#[test]
fn render_lays_out_gutter_labels_and_texts() {
    let mut header = ScrollHeader::new();
    let single = PaneItem::Editor { handle: EditorHandle { entity_id: 1 }, singleton: true };
    header.set_active_pane_item(Some(&single));
    let rows = header.render(&snapshot(Some(nested_outline()), true, 18));
    let labels: Vec<&str> = rows.iter().map(|r| r.line_label.as_str()).collect();
    let texts: Vec<&str> = rows.iter().map(|r| r.text.as_str()).collect();
    assert_eq!(labels, vec!["1", "8", "17"]);
    assert_eq!(texts, vec!["mod shapes", "impl Circle", "fn perimeter"]);
    assert_eq!(rows[2].highlight_ranges, vec![(0, 12)]);
}

#[test]
fn render_empty_outline_draws_nothing() {
    let mut header = ScrollHeader::new();
    let single = PaneItem::Editor { handle: EditorHandle { entity_id: 1 }, singleton: true };
    header.set_active_pane_item(Some(&single));
    assert!(header.render(&snapshot(Some(Vec::new()), true, 3)).is_empty());
}

#[test]
fn render_without_editor_draws_nothing() {
    let header = ScrollHeader::new();
    assert!(header.render(&snapshot(Some(nested_outline()), true, 11)).is_empty());
}

#[test]
fn render_without_outline_draws_nothing() {
    let mut header = ScrollHeader::new();
    let single = PaneItem::Editor { handle: EditorHandle { entity_id: 1 }, singleton: true };
    header.set_active_pane_item(Some(&single));
    assert!(header.render(&snapshot(None, true, 11)).is_empty());
}

#[test]
fn duplicate_keeps_every_field() {
    let original = item("fn area", 9, 14);
    let copy = original.duplicate();
    assert_eq!(copy.text, "fn area");
    assert_eq!((copy.start_row, copy.end_row), (9, 14));
    assert_eq!(copy.highlight_ranges, vec![(0, 7)]);
}
