use vstd::prelude::*;
use crate::label::{decimal, line_number_label};
use crate::outline::{
    compute_sticky_headers, item_views, sticky_headers_of, sticky_headers_spec, EditorSnapshot, OutlineItemView,
};

verus! {

/// An opaque handle to an editor that the host owns, known by its entity id.
#[derive(Clone, Copy, Debug, PartialEq, Eq, Structural)]
pub struct EditorHandle {
    pub entity_id: u64,
}

/// The item that became active in a pane, as far as the toolbar cares: an
/// editor, with whether it shows exactly one buffer, or some other view.
#[derive(Clone, Copy, Debug, PartialEq, Eq, Structural)]
pub enum PaneItem {
    Editor { handle: EditorHandle, singleton: bool },
    Other,
}

/// Where the toolbar shows this item.
#[derive(Clone, Copy, Debug, PartialEq, Eq, Structural)]
pub enum ToolbarItemLocation {
    Hidden,
    Secondary,
}

/// The editor to track for an active pane item: one that shows exactly one
/// buffer, and nothing else.
pub open spec fn singleton_editor(active_pane_item: Option<PaneItem>) -> Option<EditorHandle> {
    match active_pane_item {
        Some(PaneItem::Editor { handle, singleton }) if singleton => Some(handle),
        _ => None,
    }
}

/// The toolbar item that pins outline headers above the scroll position of
/// the active editor.
#[derive(Debug)]
pub struct ScrollHeader {
    editor: Option<EditorHandle>,
}

impl View for ScrollHeader {
    type V = Option<EditorHandle>;

    /// The editor being tracked, if any.
    closed spec fn view(&self) -> Option<EditorHandle> {
        self.editor
    }
}

/// One pinned row: the line-number label of the gutter column and the text
/// of the item with its highlights.
#[derive(Debug)]
pub struct StickyRow {
    pub line_label: String,
    pub text: String,
    pub highlight_ranges: Vec<(usize, usize)>,
}

/// What a pinned row holds, as mathematical values.
pub struct StickyRowView {
    pub line_label: Seq<char>,
    pub text: Seq<char>,
    pub highlight_ranges: Seq<(usize, usize)>,
}

impl View for StickyRow {
    type V = StickyRowView;

    open spec fn view(&self) -> StickyRowView {
        StickyRowView {
            line_label: self.line_label@,
            text: self.text@,
            highlight_ranges: self.highlight_ranges@,
        }
    }
}

/// The row drawn for a pinned item: its first row counted from one, beside
/// its label and highlights.
pub open spec fn row_of(item: OutlineItemView) -> StickyRowView {
    StickyRowView {
        line_label: decimal(item.start_row as nat + 1),
        text: item.text,
        highlight_ranges: item.highlight_ranges,
    }
}

/// The views of a sequence of rows.
pub open spec fn row_views(rows: Seq<StickyRow>) -> Seq<StickyRowView> {
    rows.map_values(|row: StickyRow| row@)
}

/// The rows drawn for a sequence of pinned items, one each, in order.
pub open spec fn rows_of(items: Seq<OutlineItemView>) -> Seq<StickyRowView> {
    items.map_values(|item: OutlineItemView| row_of(item))
}

/// The rows drawn for an editor state: none when no editor is tracked or the
/// selector yields nothing, else one for each pinned item, in order.
pub open spec fn rendered_rows(
    editor: Option<EditorHandle>,
    outline: Option<Seq<OutlineItemView>>,
    singleton: bool,
    row: int,
) -> Seq<StickyRowView> {
    if editor is None {
        Seq::empty()
    } else {
        match sticky_headers_spec(outline, singleton, row) {
            Some(items) => rows_of(items),
            None => Seq::empty(),
        }
    }
}

/// A tracked editor over one buffer whose outline has no items draws an
/// empty region, whatever the scroll position.
pub proof fn lemma_empty_outline_draws_nothing(editor: EditorHandle, row: int)
    ensures
        rendered_rows(Some(editor), Some(Seq::empty()), true, row).len() == 0,
{
    assert(sticky_headers_of(Seq::<OutlineItemView>::empty(), row) == Seq::<OutlineItemView>::empty());
}

impl ScrollHeader {
    /// A toolbar item that tracks no editor yet.
    pub fn new() -> (r: Self)
        ensures
            r@ is None,
    {
        ScrollHeader { editor: None }
    }

    /// The editor being tracked, if any.
    pub fn editor(&self) -> (r: Option<EditorHandle>)
        ensures
            r == self@,
    {
        self.editor
    }

    /// Follows a change of the active pane item: an editor over one buffer
    /// is tracked and the item shows in the secondary row; anything else
    /// clears the editor and hides the item.
    pub fn set_active_pane_item(&mut self, active_pane_item: Option<&PaneItem>) -> (r:
        ToolbarItemLocation)
        ensures
            final(self)@ == singleton_editor(
                match active_pane_item {
                    Some(item) => Some(*item),
                    None => None,
                },
            ),
            r == (if final(self)@ is Some {
                ToolbarItemLocation::Secondary
            } else {
                ToolbarItemLocation::Hidden
            }),
    {
        match active_pane_item {
            Some(PaneItem::Editor { handle, singleton }) if *singleton => {
                self.editor = Some(*handle);
                ToolbarItemLocation::Secondary
            },
            _ => {
                self.editor = None;
                ToolbarItemLocation::Hidden
            },
        }
    }

    /// The rows to draw for the tracked editor's current state, outermost
    /// item first; an empty list draws nothing.
    pub fn render(&self, snapshot: &EditorSnapshot) -> (r: Vec<StickyRow>)
        ensures
            row_views(r@) == rendered_rows(
                self@,
                snapshot.outline_views(),
                snapshot.singleton,
                snapshot.scroll_top_row as int,
            ),
    {
        let mut rows: Vec<StickyRow> = Vec::new();
        if self.editor.is_none() {
            proof {
                assert(row_views(rows@) =~= Seq::<StickyRowView>::empty());
            }
            return rows;
        }
        let items = match compute_sticky_headers(snapshot) {
            Some(items) => items,
            None => {
                proof {
                    assert(row_views(rows@) =~= Seq::<StickyRowView>::empty());
                }
                return rows;
            },
        };
        let ghost pinned = item_views(items@);
        let n = items.len();
        let mut i: usize = 0;
        while i < n
            invariant
                n == items@.len(),
                i <= n,
                pinned == item_views(items@),
                row_views(rows@) =~= rows_of(pinned.take(i as int)),
            decreases n - i,
        {
            let ghost before = rows@;
            proof {
                assert(row_views(before).len() == before.len());
            }
            let copy = items[i].duplicate();
            let row = StickyRow {
                line_label: line_number_label(copy.start_row),
                text: copy.text,
                highlight_ranges: copy.highlight_ranges,
            };
            rows.push(row);
            i = i + 1;
            proof {
                assert(pinned[i - 1] == items@[i - 1]@);
                assert(row@ == row_of(pinned[i - 1]));
                assert(pinned.take(i as int) =~= pinned.take(i - 1).push(pinned[i - 1]));
                assert(rows_of(pinned.take(i as int)).len() == i);
                assert forall|k: int| 0 <= k < i implies #[trigger] row_views(rows@)[k] == rows_of(
                    pinned.take(i as int),
                )[k] by {
                    if k < i - 1 {
                        assert(row_views(before)[k] == rows_of(pinned.take(i - 1))[k]);
                    }
                }
                assert(row_views(rows@) =~= rows_of(pinned.take(i as int)));
            }
        }
        proof {
            assert(pinned.take(n as int) =~= pinned);
        }
        rows
    }
}

} // verus!
