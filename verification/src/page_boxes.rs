//! Number kinds of page boxes as exported for compatibility, and the list of
//! pages a document exposes when only some page numbers were requested.
//!
//! A page box's coordinates are reported as integers exactly when they were
//! written as integers in the file. Normalizing a box reorders its corners
//! (and swaps its axes on quarter-turn pages), and the exported box is flipped
//! vertically against the MediaBox height; the kinds follow the coordinates.

use vstd::prelude::*;

verus! {

/// Which of a box's four coordinates are integers.
#[derive(Debug, Clone, Copy, PartialEq, Eq, Structural)]
pub struct BoxNumberKinds {
    /// Left coordinate.
    pub x0: bool,
    /// Top coordinate.
    pub top: bool,
    /// Right coordinate.
    pub x1: bool,
    /// Bottom coordinate.
    pub bottom: bool,
}

/// How a box's stored corners are ordered along each axis.
#[derive(Debug, Clone, Copy, PartialEq, Eq, Structural)]
pub struct AxisOrder {
    /// `x0 <= x1`.
    pub x_ascending: bool,
    /// `top <= bottom`.
    pub y_ascending: bool,
}

impl BoxNumberKinds {
    /// Kinds from flags in `[x0, top, x1, bottom]` order.
    pub fn from_flags(flags: [bool; 4]) -> (res: BoxNumberKinds)
        ensures
            res.x0 == flags@[0],
            res.top == flags@[1],
            res.x1 == flags@[2],
            res.bottom == flags@[3],
    {
        BoxNumberKinds { x0: flags[0], top: flags[1], x1: flags[2], bottom: flags[3] }
    }

    /// Flags in `[x0, top, x1, bottom]` order.
    pub fn to_flags(self) -> (res: [bool; 4])
        ensures
            res@ == seq![self.x0, self.top, self.x1, self.bottom],
    {
        let res = [self.x0, self.top, self.x1, self.bottom];
        assert(res@ =~= seq![self.x0, self.top, self.x1, self.bottom]);
        res
    }
}

/// Kinds of a box whose corners were put in ascending order on both axes, and
/// whose axes were exchanged on quarter-turn pages (90 or 270 degrees).
pub open spec fn normalized_kinds(kinds: BoxNumberKinds, order: AxisOrder, rotation: i32) -> BoxNumberKinds {
    let (low_x, high_x) = if order.x_ascending {
        (kinds.x0, kinds.x1)
    } else {
        (kinds.x1, kinds.x0)
    };
    let (low_y, high_y) = if order.y_ascending {
        (kinds.top, kinds.bottom)
    } else {
        (kinds.bottom, kinds.top)
    };
    if rotation == 90 || rotation == 270 {
        BoxNumberKinds { x0: low_y, top: low_x, x1: high_y, bottom: high_x }
    } else {
        BoxNumberKinds { x0: low_x, top: low_y, x1: high_x, bottom: high_y }
    }
}

/// Kinds after flipping a box vertically against a height: each new vertical
/// coordinate is the height minus an old one, an integer when both are.
pub open spec fn inverted_kinds(kinds: BoxNumberKinds, height_is_integer: bool) -> BoxNumberKinds {
    BoxNumberKinds {
        x0: kinds.x0,
        top: height_is_integer && kinds.bottom,
        x1: kinds.x1,
        bottom: height_is_integer && kinds.top,
    }
}

/// Whether a box's width (`x1 - x0`) is an integer.
pub open spec fn width_is_integer(kinds: BoxNumberKinds) -> bool {
    kinds.x1 && kinds.x0
}

/// Whether a box's height (`bottom - top`) is an integer.
pub open spec fn height_is_integer(kinds: BoxNumberKinds) -> bool {
    kinds.bottom && kinds.top
}

/// Put a box's corners in ascending order on both axes, exchanging the axes
/// on quarter-turn pages, and report which coordinates are integers.
pub fn normalize_box_kinds(kinds: BoxNumberKinds, order: AxisOrder, rotation: i32) -> (res:
    BoxNumberKinds)
    ensures
        res == normalized_kinds(kinds, order, rotation),
{
    let (low_x, high_x) = if order.x_ascending {
        (kinds.x0, kinds.x1)
    } else {
        (kinds.x1, kinds.x0)
    };
    let (low_y, high_y) = if order.y_ascending {
        (kinds.top, kinds.bottom)
    } else {
        (kinds.bottom, kinds.top)
    };
    if rotation == 90 || rotation == 270 {
        BoxNumberKinds { x0: low_y, top: low_x, x1: high_y, bottom: high_x }
    } else {
        BoxNumberKinds { x0: low_x, top: low_y, x1: high_x, bottom: high_y }
    }
}

/// Flip a box vertically against a height, reporting which coordinates stay integers.
pub fn invert_box_kinds(kinds: BoxNumberKinds, height_is_integer: bool) -> (res: BoxNumberKinds)
    ensures
        res == inverted_kinds(kinds, height_is_integer),
{
    BoxNumberKinds {
        x0: kinds.x0,
        top: height_is_integer && kinds.bottom,
        x1: kinds.x1,
        bottom: height_is_integer && kinds.top,
    }
}

/// The exported kinds of a page box measured against the page's MediaBox:
/// both are normalized, and the box is flipped against the MediaBox height.
pub open spec fn exported_box_kinds(
    media: BoxNumberKinds,
    media_order: AxisOrder,
    page_box: BoxNumberKinds,
    page_box_order: AxisOrder,
    rotation: i32,
) -> BoxNumberKinds {
    let media_normalized = normalized_kinds(media, media_order, rotation);
    inverted_kinds(
        normalized_kinds(page_box, page_box_order, rotation),
        height_is_integer(media_normalized),
    )
}

/// The exported MediaBox and CropBox kinds of a page. The CropBox falls back
/// to the MediaBox when the page has none; `crop_order` is the corner order of
/// whichever box is used.
pub fn page_box_kinds(
    media: BoxNumberKinds,
    media_order: AxisOrder,
    crop: Option<BoxNumberKinds>,
    crop_order: AxisOrder,
    rotation: i32,
) -> (res: (BoxNumberKinds, BoxNumberKinds))
    ensures
        res.0 == exported_box_kinds(media, media_order, media, media_order, rotation),
        res.1 == exported_box_kinds(
            media,
            media_order,
            match crop {
                Some(k) => k,
                None => media,
            },
            crop_order,
            rotation,
        ),
{
    let media_normalized = normalize_box_kinds(media, media_order, rotation);
    let media_height_is_integer = media_normalized.bottom && media_normalized.top;
    let crop_kinds = match crop {
        Some(k) => k,
        None => media,
    };
    let crop_normalized = normalize_box_kinds(crop_kinds, crop_order, rotation);
    (
        invert_box_kinds(media_normalized, media_height_is_integer),
        invert_box_kinds(crop_normalized, media_height_is_integer),
    )
}

/// The exported kinds of an optional page box (TrimBox, BleedBox, ArtBox);
/// `None` when the page has no such box.
pub fn optional_box_kinds(
    media: BoxNumberKinds,
    media_order: AxisOrder,
    page_box: Option<(BoxNumberKinds, AxisOrder)>,
    rotation: i32,
) -> (res: Option<BoxNumberKinds>)
    ensures
        res == (match page_box {
            Some((kinds, order)) => Some(
                exported_box_kinds(media, media_order, kinds, order, rotation),
            ),
            None => None,
        }),
{
    let media_normalized = normalize_box_kinds(media, media_order, rotation);
    let media_height_is_integer = media_normalized.bottom && media_normalized.top;
    match page_box {
        Some((kinds, order)) => Some(
            invert_box_kinds(normalize_box_kinds(kinds, order, rotation), media_height_is_integer),
        ),
        None => None,
    }
}

/// Whether the page's width and height are integers, read from its exported MediaBox.
pub fn page_dimension_kinds(media: BoxNumberKinds, media_order: AxisOrder, rotation: i32) -> (res: (
    bool,
    bool,
))
    ensures
        res.0 == width_is_integer(exported_box_kinds(media, media_order, media, media_order, rotation)),
        res.1 == height_is_integer(exported_box_kinds(media, media_order, media, media_order, rotation)),
{
    let (media_kinds, _) = page_box_kinds(media, media_order, None, media_order, rotation);
    (media_kinds.x1 && media_kinds.x0, media_kinds.bottom && media_kinds.top)
}

/// Two values are the same pair as two others, in either order.
pub open spec fn same_pair(a: bool, b: bool, c: bool, d: bool) -> bool {
    (a == c && b == d) || (a == d && b == c)
}

/// Normalizing only reorders a box's coordinates: each axis keeps its pair of
/// kinds, and on quarter-turn pages the two axes trade places.
pub proof fn lemma_normalizing_reorders(kinds: BoxNumberKinds, order: AxisOrder, rotation: i32)
    ensures
        ({
            let n = normalized_kinds(kinds, order, rotation);
            if rotation == 90 || rotation == 270 {
                same_pair(n.top, n.bottom, kinds.x0, kinds.x1) && same_pair(
                    n.x0,
                    n.x1,
                    kinds.top,
                    kinds.bottom,
                )
            } else {
                same_pair(n.x0, n.x1, kinds.x0, kinds.x1) && same_pair(
                    n.top,
                    n.bottom,
                    kinds.top,
                    kinds.bottom,
                )
            }
        }),
{
}

/// A box already in ascending order on an upright or upside-down page is
/// left as it is.
pub proof fn lemma_normalizing_ordered_box(kinds: BoxNumberKinds, rotation: i32)
    requires
        rotation != 90 && rotation != 270,
    ensures
        normalized_kinds(kinds, AxisOrder { x_ascending: true, y_ascending: true }, rotation)
            == kinds,
{
}

/// Normalizing is idempotent: a normalized box is in ascending order, and
/// normalizing it again on an upright page changes nothing.
pub proof fn lemma_normalizing_twice(kinds: BoxNumberKinds, order: AxisOrder, rotation: i32)
    ensures
        normalized_kinds(
            normalized_kinds(kinds, order, rotation),
            AxisOrder { x_ascending: true, y_ascending: true },
            0,
        ) == normalized_kinds(kinds, order, rotation),
{
}

/// Flipping twice against a height that is an integer gives back the box's
/// kinds; the width kinds are never touched.
pub proof fn lemma_inverting_twice(kinds: BoxNumberKinds, height_is_int: bool)
    ensures
        height_is_int ==> inverted_kinds(inverted_kinds(kinds, height_is_int), height_is_int)
            == kinds,
        inverted_kinds(kinds, height_is_int).x0 == kinds.x0,
        inverted_kinds(kinds, height_is_int).x1 == kinds.x1,
        height_is_integer(inverted_kinds(kinds, height_is_int)) == (height_is_int
            && height_is_integer(kinds)),
{
}

/// One entry of a document's page list.
#[derive(Debug, Clone, Copy, PartialEq, Eq, Structural)]
pub struct PageListEntry {
    /// Zero-based page index.
    pub index: usize,
    /// When only some pages were requested: whether the page's initial
    /// document offset (the sum of the heights of the requested pages before
    /// it) is an integer.
    pub initial_doctop_is_integer: Option<bool>,
}

/// Whether page number `page_number` (1-based) was requested.
pub open spec fn requested(selected: Seq<i64>, page_number: int) -> bool {
    exists|j: int| 0 <= j < selected.len() && selected[j] as int == page_number
}

/// Whether every page listed in `entries` has an integer height.
pub open spec fn all_heights_integer(entries: Seq<PageListEntry>, heights: Seq<bool>) -> bool {
    forall|k: int| 0 <= k < entries.len() ==> heights[#[trigger] entries[k].index as int]
}

proof fn lemma_all_heights_push(entries: Seq<PageListEntry>, e: PageListEntry, heights: Seq<bool>)
    ensures
        all_heights_integer(entries.push(e), heights) == (all_heights_integer(entries, heights)
            && heights[e.index as int]),
{
    let pushed = entries.push(e);
    if all_heights_integer(pushed, heights) {
        assert(pushed[entries.len() as int] == e);
        assert forall|k: int| 0 <= k < entries.len() implies heights[#[trigger] entries[k].index as int] by {
            assert(pushed[k] == entries[k]);
        }
    }
    if all_heights_integer(entries, heights) && heights[e.index as int] {
        assert forall|k: int| 0 <= k < pushed.len() implies heights[#[trigger] pushed[k].index as int] by {
            if k < entries.len() {
                assert(pushed[k] == entries[k]);
            }
        }
    }
}

/// The page list over the first `count` pages: every page when no selection
/// was made; otherwise the requested pages in document order, each with
/// whether the heights of the requested pages before it are all integers.
pub open spec fn page_list(count: nat, selected: Option<Seq<i64>>, heights: Seq<bool>) -> Seq<
    PageListEntry,
>
    decreases count,
{
    if count == 0 {
        Seq::empty()
    } else {
        let before = page_list((count - 1) as nat, selected, heights);
        let index = (count - 1) as usize;
        match selected {
            None => before.push(PageListEntry { index, initial_doctop_is_integer: None }),
            Some(pages) => if requested(pages, count as int) {
                before.push(
                    PageListEntry {
                        index,
                        initial_doctop_is_integer: Some(all_heights_integer(before, heights)),
                    },
                )
            } else {
                before
            },
        }
    }
}

fn is_requested(selected: &Vec<i64>, index: usize) -> (res: bool)
    ensures
        res == requested(selected@, index + 1),
{
    let mut j: usize = 0;
    while j < selected.len()
        invariant
            j <= selected.len(),
            forall|k: int| 0 <= k < j ==> selected@[k] as int != index + 1,
        decreases selected.len() - j,
    {
        let number = selected[j];
        if number >= 1 && (number - 1) as u64 == index as u64 {
            return true;
        }
        j = j + 1;
    }
    false
}

proof fn lemma_page_list_indices(count: nat, selected: Option<Seq<i64>>, heights: Seq<bool>)
    ensures
        forall|k: int|
            0 <= k < page_list(count, selected, heights).len() ==> #[trigger] page_list(
                count,
                selected,
                heights,
            )[k].index < count,
        page_list(count, selected, heights).len() <= count,
    decreases count,
{
    if count > 0 {
        lemma_page_list_indices((count - 1) as nat, selected, heights);
    }
}

/// The pages a document exposes, in order. `selected` holds the requested
/// 1-based page numbers (any order, repeats allowed), or is `None` when every
/// page is exposed; `heights_integer[i]` tells whether page `i`'s exported
/// height is an integer.
pub fn list_pages(page_count: usize, selected: Option<&Vec<i64>>, heights_integer: &Vec<bool>) -> (res:
    Vec<PageListEntry>)
    requires
        heights_integer.len() == page_count,
    ensures
        res@ == page_list(
            page_count as nat,
            match selected {
                Some(v) => Some(v@),
                None => None,
            },
            heights_integer@,
        ),
{
    let ghost sel = match selected {
        Some(v) => Some(v@),
        None => None,
    };
    let mut entries: Vec<PageListEntry> = Vec::new();
    let mut all_integer = true;
    let mut i: usize = 0;
    while i < page_count
        invariant
            i <= page_count,
            heights_integer.len() == page_count,
            sel == (match selected {
                Some(v) => Some(v@),
                None => None,
            }),
            entries@ == page_list(i as nat, sel, heights_integer@),
            all_integer == all_heights_integer(entries@, heights_integer@),
        decreases page_count - i,
    {
        match selected {
            None => {
                let entry = PageListEntry { index: i, initial_doctop_is_integer: None };
                proof {
                    lemma_all_heights_push(entries@, entry, heights_integer@);
                }
                entries.push(entry);
                all_integer = all_integer && heights_integer[i];
            },
            Some(pages) => {
                if is_requested(pages, i) {
                    let entry = PageListEntry { index: i, initial_doctop_is_integer: Some(all_integer) };
                    proof {
                        lemma_all_heights_push(entries@, entry, heights_integer@);
                    }
                    entries.push(entry);
                    all_integer = all_integer && heights_integer[i];
                }
            },
        }
        i = i + 1;
    }
    entries
}

/// Whether a page's initial document offset is an integer: the value recorded
/// when the page list was built from a selection, otherwise whether every
/// earlier page has an integer height.
pub fn initial_doctop_is_integer(
    selected: Option<bool>,
    heights_integer: &Vec<bool>,
    page_index: usize,
) -> (res: bool)
    requires
        page_index <= heights_integer.len(),
    ensures
        res == match selected {
            Some(b) => b,
            None => forall|i: int| 0 <= i < page_index ==> heights_integer@[i],
        },
{
    match selected {
        Some(b) => b,
        None => {
            let mut i: usize = 0;
            while i < page_index
                invariant
                    i <= page_index,
                    page_index <= heights_integer.len(),
                    selected is None,
                    forall|j: int| 0 <= j < i ==> heights_integer@[j],
                decreases page_index - i,
            {
                if !heights_integer[i] {
                    assert(!heights_integer@[i as int]);
                    return false;
                }
                i = i + 1;
            }
            true
        },
    }
}

/// Whether page `i` appears in a page list.
pub open spec fn lists_page(entries: Seq<PageListEntry>, i: int) -> bool {
    exists|k: int| 0 <= k < entries.len() && entries[k].index == i
}

/// Every listed page is a real page, listed once, in increasing order; with a
/// selection, exactly the requested pages are listed.
pub proof fn lemma_page_list_selects(count: nat, selected: Option<Seq<i64>>, heights: Seq<bool>)
    requires
        count <= usize::MAX,
    ensures
        forall|a: int, b: int|
            0 <= a < b < page_list(count, selected, heights).len() ==> (#[trigger] page_list(
                count,
                selected,
                heights,
            )[a]).index < (#[trigger] page_list(count, selected, heights)[b]).index,
        forall|i: int|
            0 <= i < count ==> #[trigger] lists_page(page_list(count, selected, heights), i)
                == match selected {
                None => true,
                Some(pages) => requested(pages, i + 1),
            },
    decreases count,
{
    if count > 0 {
        let prev = (count - 1) as nat;
        lemma_page_list_selects(prev, selected, heights);
        lemma_page_list_indices(prev, selected, heights);
        let before = page_list(prev, selected, heights);
        let list = page_list(count, selected, heights);
        let pushed = match selected {
            None => true,
            Some(pages) => requested(pages, count as int),
        };
        if pushed {
            assert(list == before.push(list[before.len() as int]));
            assert(list[before.len() as int].index == prev);
        } else {
            assert(list == before);
        }
        assert forall|i: int| 0 <= i < count implies #[trigger] lists_page(list, i) == match selected {
            None => true,
            Some(pages) => requested(pages, i + 1),
        } by {
            if i < prev {
                assert(lists_page(before, i) == match selected {
                    None => true,
                    Some(pages) => requested(pages, i + 1),
                });
                if lists_page(before, i) {
                    let k = choose|k: int| 0 <= k < before.len() && before[k].index == i;
                    assert(list[k] == before[k]);
                }
                if lists_page(list, i) {
                    let k = choose|k: int| 0 <= k < list.len() && list[k].index == i;
                    if k < before.len() {
                        assert(list[k] == before[k]);
                    }
                }
            } else {
                if pushed {
                    assert(list[before.len() as int].index == i);
                } else if lists_page(list, i) {
                    let k = choose|k: int| 0 <= k < list.len() && list[k].index == i;
                    assert(before[k].index < prev);
                }
            }
        }
        assert forall|a: int, b: int| 0 <= a < b < list.len() implies (#[trigger] list[a]).index
            < (#[trigger] list[b]).index by {
            if b < before.len() {
                assert(list[a] == before[a]);
                assert(list[b] == before[b]);
            } else {
                assert(list[a] == before[a]);
                assert(before[a].index < prev);
            }
        }
    }
}

} // verus!
