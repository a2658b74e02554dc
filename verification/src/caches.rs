//! Which cached properties a compatibility document or page discards when
//! asked to flush its cache.

use vstd::prelude::*;

use crate::text::str_equals;

verus! {

/// One step of a cache flush.
#[derive(Debug, Clone, Copy, PartialEq, Eq, Structural)]
pub enum FlushStep {
    /// Discard the document's object cache.
    ClearObjects,
    /// Discard the document's page list.
    ClearPages,
    /// Delete the cached attribute named by the item at this position, if set.
    DropAttribute(usize),
    /// Discard the page's parsed layout and content.
    ClearLayout,
    /// Stop: the item at this position is not a string (a `TypeError`).
    RejectItem(usize),
}

/// The cached properties a document lists.
pub open spec fn document_cached_property_names() -> Seq<Seq<char>> {
    seq!["_rect_edges"@, "_curve_edges"@, "_edges"@, "_objects"@, "_pages"@]
}

/// The cached properties a page lists.
pub open spec fn page_cached_property_names() -> Seq<Seq<char>> {
    seq!["_rect_edges"@, "_curve_edges"@, "_edges"@, "_objects"@, "_layout"@]
}

/// The names of the cached properties a document lists.
pub fn document_cached_properties() -> (res: Vec<&'static str>)
    ensures
        res@.map_values(|n: &str| n@) == document_cached_property_names(),
{
    let res: Vec<&'static str> = vec!["_rect_edges", "_curve_edges", "_edges", "_objects", "_pages"];
    assert(res@.map_values(|n: &str| n@) =~= document_cached_property_names());
    res
}

/// The names of the cached properties a page lists.
pub fn page_cached_properties() -> (res: Vec<&'static str>)
    ensures
        res@.map_values(|n: &str| n@) == page_cached_property_names(),
{
    let res: Vec<&'static str> = vec!["_rect_edges", "_curve_edges", "_edges", "_objects", "_layout"];
    assert(res@.map_values(|n: &str| n@) =~= page_cached_property_names());
    res
}

/// A flush item: a property name, or `None` for an item that is not a string.
pub open spec fn item_view(item: Option<String>) -> Option<Seq<char>> {
    match item {
        Some(name) => Some(name@),
        None => None,
    }
}

/// The steps a document takes for the first `k` items: `_objects` and
/// `_pages` discard their caches, other names do nothing, and the first item
/// that is not a string stops the flush.
pub open spec fn document_item_steps(items: Seq<Option<Seq<char>>>, k: int) -> Seq<FlushStep>
    decreases k,
{
    if k <= 0 {
        Seq::empty()
    } else {
        let before = document_item_steps(items, k - 1);
        if before.len() > 0 && before.last() is RejectItem {
            before
        } else {
            match items[k - 1] {
                None => before.push(FlushStep::RejectItem((k - 1) as usize)),
                Some(name) => if name == "_objects"@ {
                    before.push(FlushStep::ClearObjects)
                } else if name == "_pages"@ {
                    before.push(FlushStep::ClearPages)
                } else {
                    before
                },
            }
        }
    }
}

/// The steps a document takes to flush: both caches when no properties are
/// named, otherwise one step per recognized item.
pub open spec fn document_flush(items: Option<Seq<Option<Seq<char>>>>) -> Seq<FlushStep> {
    match items {
        None => seq![FlushStep::ClearObjects, FlushStep::ClearPages],
        Some(items) => document_item_steps(items, items.len() as int),
    }
}

/// The steps a page takes for the first `k` items: each named attribute is
/// dropped, `_layout` also discards the parsed page, and the first item that
/// is not a string stops the flush.
pub open spec fn page_item_steps(items: Seq<Option<Seq<char>>>, k: int) -> Seq<FlushStep>
    decreases k,
{
    if k <= 0 {
        Seq::empty()
    } else {
        let before = page_item_steps(items, k - 1);
        if before.len() > 0 && before.last() is RejectItem {
            before
        } else {
            match items[k - 1] {
                None => before.push(FlushStep::RejectItem((k - 1) as usize)),
                Some(name) => if name == "_layout"@ {
                    before.push(FlushStep::DropAttribute((k - 1) as usize)).push(
                        FlushStep::ClearLayout,
                    )
                } else {
                    before.push(FlushStep::DropAttribute((k - 1) as usize))
                },
            }
        }
    }
}

fn rejected(steps: &Vec<FlushStep>) -> (res: bool)
    ensures
        res == (steps@.len() > 0 && steps@.last() is RejectItem),
{
    steps.len() > 0 && matches!(steps[steps.len() - 1], FlushStep::RejectItem(_))
}

/// The steps a document takes to flush the named cached properties (`None`:
/// all of them); `None` items are items that are not strings.
pub fn document_flush_steps(items: Option<&Vec<Option<String>>>) -> (res: Vec<FlushStep>)
    ensures
        res@ == document_flush(
            match items {
                Some(v) => Some(v@.map_values(|i: Option<String>| item_view(i))),
                None => None,
            },
        ),
{
    match items {
        None => vec![FlushStep::ClearObjects, FlushStep::ClearPages],
        Some(items) => {
            let ghost view = items@.map_values(|i: Option<String>| item_view(i));
            let mut steps: Vec<FlushStep> = Vec::new();
            let mut k: usize = 0;
            while k < items.len()
                invariant
                    k <= items.len(),
                    view == items@.map_values(|i: Option<String>| item_view(i)),
                    steps@ == document_item_steps(view, k as int),
                decreases items.len() - k,
            {
                if !rejected(&steps) {
                    match &items[k] {
                        None => steps.push(FlushStep::RejectItem(k)),
                        Some(name) => {
                            if str_equals(name.as_str(), "_objects") {
                                steps.push(FlushStep::ClearObjects);
                            } else if str_equals(name.as_str(), "_pages") {
                                steps.push(FlushStep::ClearPages);
                            }
                        },
                    }
                }
                k = k + 1;
            }
            steps
        },
    }
}

/// The steps a page takes to flush the named cached properties; `None` items
/// are items that are not strings.
pub fn page_flush_steps(items: &Vec<Option<String>>) -> (res: Vec<FlushStep>)
    ensures
        res@ == page_item_steps(
            items@.map_values(|i: Option<String>| item_view(i)),
            items@.len() as int,
        ),
{
    let ghost view = items@.map_values(|i: Option<String>| item_view(i));
    let mut steps: Vec<FlushStep> = Vec::new();
    let mut k: usize = 0;
    while k < items.len()
        invariant
            k <= items.len(),
            view == items@.map_values(|i: Option<String>| item_view(i)),
            steps@ == page_item_steps(view, k as int),
        decreases items.len() - k,
    {
        if !rejected(&steps) {
            match &items[k] {
                None => steps.push(FlushStep::RejectItem(k)),
                Some(name) => {
                    steps.push(FlushStep::DropAttribute(k));
                    if str_equals(name.as_str(), "_layout") {
                        steps.push(FlushStep::ClearLayout);
                    }
                },
            }
        }
        k = k + 1;
    }
    steps
}

/// Whether any of the first `k` items names `name`.
pub open spec fn names_within(items: Seq<Option<Seq<char>>>, k: int, name: Seq<char>) -> bool {
    exists|i: int| 0 <= i < k && items[i] == Some(name)
}

/// Whether all of the first `k` items are strings.
pub open spec fn all_strings(items: Seq<Option<Seq<char>>>, k: int) -> bool {
    forall|i: int| 0 <= i < k ==> (#[trigger] items[i]) is Some
}

/// Whether a flush drops the attribute named by item `i`.
pub open spec fn drops(steps: Seq<FlushStep>, i: int) -> bool {
    steps.contains(FlushStep::DropAttribute(i as usize))
}

proof fn lemma_page_steps_facts(items: Seq<Option<Seq<char>>>, k: int)
    requires
        0 <= k <= items.len(),
    ensures
        all_strings(items, k) ==> (page_item_steps(items, k).contains(FlushStep::ClearLayout)
            <==> names_within(items, k, "_layout"@)),
        all_strings(items, k) ==> forall|i: int|
            0 <= i < k ==> #[trigger] drops(page_item_steps(items, k), i),
        all_strings(items, k) ==> forall|j: int|
            0 <= j < page_item_steps(items, k).len() ==> !((#[trigger] page_item_steps(items, k)[j]) is RejectItem),
        forall|j: int|
            0 <= j < page_item_steps(items, k).len() && (#[trigger] page_item_steps(items, k)[j]) is RejectItem
                ==> j == page_item_steps(items, k).len() - 1,
    decreases k,
{
    if k > 0 {
        lemma_page_steps_facts(items, k - 1);
        let before = page_item_steps(items, k - 1);
        let steps = page_item_steps(items, k);
        let stopped = before.len() > 0 && before.last() is RejectItem;
        if stopped {
            assert(steps == before);
        } else {
            match items[k - 1] {
                None => {
                    assert(steps == before.push(FlushStep::RejectItem((k - 1) as usize)));
                    assert forall|j: int|
                        0 <= j < steps.len() && (#[trigger] steps[j]) is RejectItem implies j
                        == steps.len() - 1 by {
                        if j < before.len() {
                            assert(steps[j] == before[j]);
                        }
                    }
                },
                Some(name) => {
                    let dropped = before.push(FlushStep::DropAttribute((k - 1) as usize));
                    if name == "_layout"@ {
                        assert(steps == dropped.push(FlushStep::ClearLayout));
                    } else {
                        assert(steps == dropped);
                    }
                    assert forall|j: int|
                        0 <= j < steps.len() && (#[trigger] steps[j]) is RejectItem implies j
                        == steps.len() - 1 by {
                        if j < before.len() {
                            assert(steps[j] == before[j]);
                        } else if j == before.len() {
                            assert(steps[j] == FlushStep::DropAttribute((k - 1) as usize));
                        }
                    }
                    if all_strings(items, k) {
                        assert(all_strings(items, k - 1));
                        assert forall|j: int|
                            0 <= j < steps.len() implies !((#[trigger] steps[j]) is RejectItem) by {
                            if j < before.len() {
                                assert(steps[j] == before[j]);
                            } else if j == before.len() {
                                assert(steps[j] == FlushStep::DropAttribute((k - 1) as usize));
                            }
                        }
                        assert forall|i: int| 0 <= i < k implies #[trigger] drops(steps, i) by {
                            if i < k - 1 {
                                assert(drops(before, i));
                                let m = choose|m: int|
                                    0 <= m < before.len() && before[m] == FlushStep::DropAttribute(
                                        i as usize,
                                    );
                                assert(steps[m] == before[m]);
                            } else {
                                assert(steps[before.len() as int] == FlushStep::DropAttribute(
                                    (k - 1) as usize,
                                ));
                            }
                        }
                        if steps.contains(FlushStep::ClearLayout) {
                            let m = choose|m: int|
                                0 <= m < steps.len() && steps[m] == FlushStep::ClearLayout;
                            if m < before.len() {
                                assert(steps[m] == before[m]);
                                assert(before.contains(FlushStep::ClearLayout));
                                let i = choose|i: int|
                                    0 <= i < k - 1 && items[i] == Some("_layout"@);
                                assert(names_within(items, k, "_layout"@));
                            } else if m == before.len() {
                                assert(steps[m] == FlushStep::DropAttribute((k - 1) as usize));
                            } else {
                                assert(name == "_layout"@);
                                assert(items[k - 1] == Some("_layout"@));
                            }
                        }
                        if names_within(items, k, "_layout"@) {
                            let i = choose|i: int| 0 <= i < k && items[i] == Some("_layout"@);
                            if i < k - 1 {
                                assert(names_within(items, k - 1, "_layout"@));
                                let m = choose|m: int|
                                    0 <= m < before.len() && before[m] == FlushStep::ClearLayout;
                                assert(steps[m] == before[m]);
                            } else {
                                assert(steps[steps.len() - 1] == FlushStep::ClearLayout);
                            }
                        }
                    }
                },
            }
        }
        if all_strings(items, k) {
            assert(items[k - 1] is Some);
            if stopped {
                assert(before[before.len() - 1] is RejectItem);
            }
        }
    }
}

/// A page flush stops at the first item that is not a string: nothing follows
/// the rejection. When every item is a string, the page drops each named
/// attribute and discards its parsed layout exactly when `_layout` is named.
pub proof fn lemma_page_flush(items: Seq<Option<Seq<char>>>)
    ensures
        forall|j: int|
            0 <= j < page_item_steps(items, items.len() as int).len() && (
            #[trigger] page_item_steps(items, items.len() as int)[j]) is RejectItem ==> j
                == page_item_steps(items, items.len() as int).len() - 1,
        all_strings(items, items.len() as int) ==> (page_item_steps(
            items,
            items.len() as int,
        ).contains(FlushStep::ClearLayout) <==> names_within(
            items,
            items.len() as int,
            "_layout"@,
        )),
        all_strings(items, items.len() as int) ==> forall|i: int|
            0 <= i < items.len() ==> #[trigger] drops(page_item_steps(items, items.len() as int), i),
{
    lemma_page_steps_facts(items, items.len() as int);
}

} // verus!
