use vstd::prelude::*;

verus! {

/// One structural item of a buffer's outline, as the outline provider hands
/// it out: a label, the zero-based rows where its range starts and ends, and
/// the byte ranges of the label to emphasise.
#[derive(Debug)]
pub struct OutlineItem {
    pub text: String,
    pub start_row: u32,
    pub end_row: u32,
    pub highlight_ranges: Vec<(usize, usize)>,
}

/// What an outline item holds, as mathematical values.
pub struct OutlineItemView {
    pub text: Seq<char>,
    pub start_row: u32,
    pub end_row: u32,
    pub highlight_ranges: Seq<(usize, usize)>,
}

impl View for OutlineItem {
    type V = OutlineItemView;

    open spec fn view(&self) -> OutlineItemView {
        OutlineItemView {
            text: self.text@,
            start_row: self.start_row,
            end_row: self.end_row,
            highlight_ranges: self.highlight_ranges@,
        }
    }
}

/// The views of a sequence of outline items.
pub open spec fn item_views(items: Seq<OutlineItem>) -> Seq<OutlineItemView> {
    items.map_values(|item: OutlineItem| item@)
}

impl OutlineItem {
    /// A copy of this item with the same label, rows and highlights.
    pub fn duplicate(&self) -> (r: OutlineItem)
        ensures
            r@ == self@,
    {
        let mut highlight_ranges: Vec<(usize, usize)> = Vec::new();
        let n = self.highlight_ranges.len();
        for i in 0..n
            invariant
                n == self.highlight_ranges@.len(),
                highlight_ranges@ == self.highlight_ranges@.take(i as int),
        {
            highlight_ranges.push(self.highlight_ranges[i]);
            proof {
                assert(highlight_ranges@ =~= self.highlight_ranges@.take(i + 1));
            }
        }
        proof {
            assert(highlight_ranges@ =~= self.highlight_ranges@);
        }
        OutlineItem {
            text: self.text.clone(),
            start_row: self.start_row,
            end_row: self.end_row,
            highlight_ranges,
        }
    }
}

/// What the toolbar reads of the tracked editor when it draws: the buffer's
/// outline, if there is one, whether the editor shows exactly one buffer, and
/// the topmost visible row.
#[derive(Debug)]
pub struct EditorSnapshot {
    pub outline: Option<Vec<OutlineItem>>,
    pub singleton: bool,
    pub scroll_top_row: u32,
}

/// An item encloses a row when the row lies between the item's first and
/// last rows, both included.
pub open spec fn encloses(item: OutlineItemView, row: int) -> bool {
    item.start_row <= row <= item.end_row
}

/// The items of an outline that enclose a row, in the outline's order.
pub open spec fn sticky_headers_of(items: Seq<OutlineItemView>, row: int) -> Seq<OutlineItemView>
    decreases items.len(),
{
    if items.len() == 0 {
        Seq::empty()
    } else {
        let earlier = sticky_headers_of(items.drop_last(), row);
        if encloses(items.last(), row) {
            earlier.push(items.last())
        } else {
            earlier
        }
    }
}

/// What the selector yields for a snapshot: nothing without an outline or
/// for an editor over several buffers, else the items that enclose the
/// topmost visible row.
pub open spec fn sticky_headers_spec(
    outline: Option<Seq<OutlineItemView>>,
    singleton: bool,
    row: int,
) -> Option<Seq<OutlineItemView>> {
    match outline {
        Some(items) if singleton => Some(sticky_headers_of(items, row)),
        _ => None,
    }
}

impl EditorSnapshot {
    /// The snapshot's outline as views.
    pub open spec fn outline_views(&self) -> Option<Seq<OutlineItemView>> {
        match self.outline {
            Some(items) => Some(item_views(items@)),
            None => None,
        }
    }
}

/// The outline items to pin above the scroll position, outermost first.
pub fn compute_sticky_headers(snapshot: &EditorSnapshot) -> (r: Option<Vec<OutlineItem>>)
    ensures
        r matches Some(_) <==> (snapshot.outline is Some && snapshot.singleton),
        match r {
            Some(items) => sticky_headers_spec(
                snapshot.outline_views(),
                snapshot.singleton,
                snapshot.scroll_top_row as int,
            ) == Some(item_views(items@)),
            None => true,
        },
        forall|k: int|
            #![trigger r->Some_0@[k]]
            r is Some && 0 <= k < r->Some_0@.len() ==> encloses(
                r->Some_0@[k]@,
                snapshot.scroll_top_row as int,
            ),
{
    if !snapshot.singleton {
        return None;
    }
    let items = match &snapshot.outline {
        Some(items) => items,
        None => return None,
    };
    let row = snapshot.scroll_top_row;
    let mut headers: Vec<OutlineItem> = Vec::new();
    let n = items.len();
    for i in 0..n
        invariant
            n == items@.len(),
            item_views(headers@) == sticky_headers_of(item_views(items@).take(i as int), row as int),
            forall|k: int| 0 <= k < headers@.len() ==> encloses(#[trigger] headers@[k]@, row as int),
    {
        let ghost seen = item_views(items@).take(i as int);
        let ghost next = item_views(items@).take(i + 1);
        proof {
            assert(next.drop_last() =~= seen);
            assert(next.last() == items@[i as int]@);
        }
        let item = &items[i];
        if item.start_row <= row && row <= item.end_row {
            headers.push(item.duplicate());
            proof {
                assert(item_views(headers@) =~= sticky_headers_of(seen, row as int).push(item@));
            }
        }
    }
    proof {
        assert(item_views(items@).take(n as int) =~= item_views(items@));
    }
    Some(headers)
}

/// An outline in document order whose items nest like a tree: an item that
/// comes later either lies inside an earlier one or starts after it ends.
pub open spec fn properly_nested(items: Seq<OutlineItemView>) -> bool {
    forall|i: int, j: int|
        #![trigger items[i], items[j]]
        0 <= i < j < items.len() ==> {
            &&& items[i].start_row <= items[j].start_row
            &&& (items[j].end_row <= items[i].end_row || items[i].end_row < items[j].start_row)
        }
}

/// `inner` lies inside `outer`.
pub open spec fn lies_within(inner: OutlineItemView, outer: OutlineItemView) -> bool {
    outer.start_row <= inner.start_row && inner.end_row <= outer.end_row
}

/// The pinned items are exactly the outline's items that enclose the row.
pub proof fn lemma_sticky_headers_members(items: Seq<OutlineItemView>, row: int)
    ensures
        forall|x: OutlineItemView|
            #[trigger] sticky_headers_of(items, row).contains(x) <==> (items.contains(x) && encloses(
                x,
                row,
            )),
    decreases items.len(),
{
    if items.len() > 0 {
        let earlier = items.drop_last();
        lemma_sticky_headers_members(earlier, row);
        assert forall|x: OutlineItemView|
            #[trigger] sticky_headers_of(items, row).contains(x) <==> (items.contains(x) && encloses(
                x,
                row,
            )) by {
            let r = sticky_headers_of(items, row);
            let e = sticky_headers_of(earlier, row);
            if r.contains(x) {
                if encloses(items.last(), row) && x == items.last() {
                    assert(items[items.len() - 1] == x);
                } else {
                    let k = choose|k: int| 0 <= k < r.len() && r[k] == x;
                    if encloses(items.last(), row) {
                        assert(k < e.len());
                        assert(e[k] == x);
                    }
                    assert(e.contains(x));
                    let m = choose|m: int| 0 <= m < earlier.len() && earlier[m] == x;
                    assert(items[m] == x);
                }
            }
            if items.contains(x) && encloses(x, row) {
                let m = choose|m: int| 0 <= m < items.len() && items[m] == x;
                if m == items.len() - 1 {
                    assert(r[r.len() - 1] == x);
                } else {
                    assert(earlier[m] == x);
                    assert(e.contains(x));
                    let k = choose|k: int| 0 <= k < e.len() && e[k] == x;
                    assert(r[k] == x);
                }
            }
        }
    }
}

/// Where no item of the outline encloses the row, nothing is pinned.
pub proof fn lemma_nothing_encloses_nothing_pinned(items: Seq<OutlineItemView>, row: int)
    requires
        forall|i: int| 0 <= i < items.len() ==> !encloses(#[trigger] items[i], row),
    ensures
        sticky_headers_of(items, row).len() == 0,
{
    lemma_sticky_headers_members(items, row);
    let r = sticky_headers_of(items, row);
    if r.len() > 0 {
        assert(r.contains(r[0]));
        let m = choose|m: int| 0 <= m < items.len() && items[m] == r[0];
        assert(!encloses(items[m], row));
    }
}

/// For an outline that nests like a tree, the pinned items form a chain from
/// the outermost to the innermost: each lies inside the ones before it, so
/// their first rows never decrease, and none starts below the row.
pub proof fn lemma_sticky_headers_outer_to_inner(items: Seq<OutlineItemView>, row: int)
    requires
        properly_nested(items),
    ensures
        forall|a: int, b: int|
            #![trigger sticky_headers_of(items, row)[a], sticky_headers_of(items, row)[b]]
            0 <= a < b < sticky_headers_of(items, row).len() ==> lies_within(
                sticky_headers_of(items, row)[b],
                sticky_headers_of(items, row)[a],
            ),
        forall|a: int|
            0 <= a < sticky_headers_of(items, row).len() ==> encloses(
                #[trigger] sticky_headers_of(items, row)[a],
                row,
            ),
    decreases items.len(),
{
    lemma_sticky_headers_members(items, row);
    let r = sticky_headers_of(items, row);
    assert forall|a: int| 0 <= a < r.len() implies encloses(#[trigger] r[a], row) by {
        assert(r.contains(r[a]));
    }
    if items.len() > 0 {
        let earlier = items.drop_last();
        assert(properly_nested(earlier)) by {
            assert forall|i: int, j: int| 0 <= i < j < earlier.len() implies {
                &&& #[trigger] earlier[i].start_row <= #[trigger] earlier[j].start_row
                &&& (earlier[j].end_row <= earlier[i].end_row || earlier[i].end_row
                    < earlier[j].start_row)
            } by {
                assert(earlier[i] == items[i] && earlier[j] == items[j]);
            }
        }
        lemma_sticky_headers_outer_to_inner(earlier, row);
        lemma_sticky_headers_members(earlier, row);
        let e = sticky_headers_of(earlier, row);
        let last = items.last();
        assert forall|a: int, b: int| 0 <= a < b < r.len() implies lies_within(
            #[trigger] r[b],
            #[trigger] r[a],
        ) by {
            assert(r[a] == e[a]);
            if b < e.len() {
                assert(r[b] == e[b]);
            } else {
                assert(r[b] == last);
                assert(e.contains(e[a]));
                let m = choose|m: int| 0 <= m < earlier.len() && earlier[m] == e[a];
                assert(items[m] == e[a]);
                assert(items[items.len() - 1] == last);
            }
        }
    }
}

} // verus!
