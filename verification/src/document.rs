//! The page catalog of an opened document: per-page rotation and box number
//! kinds cached when the document is opened, plus the document-wide resource
//! budgets charged while pages are extracted.

use vstd::prelude::*;

use crate::errors::{LimitName, ObjectId, PdfError, PdfErrorKind, ResourceLimit};
use crate::pages::{Pages, PagesIter, index_range};

verus! {

/// Resource limits that bound untrusted input. `None` means unlimited.
#[derive(Debug, Clone, Copy, PartialEq, Eq, Structural)]
pub struct ResourceLimits {
    /// Largest accepted input, in bytes.
    pub max_input_bytes: Option<usize>,
    /// Largest accepted page count.
    pub max_pages: Option<usize>,
    /// Largest number of objects extracted across all pages.
    pub max_total_objects: Option<usize>,
    /// Largest number of image bytes extracted across all pages.
    pub max_total_image_bytes: Option<usize>,
}

/// Cached, content-independent facts about one page, read when the document is opened.
#[derive(Debug, Clone, Copy)]
pub struct PageInfo {
    /// The page object's reference.
    pub object_id: ObjectId,
    /// The page's `/Rotate` value as read (possibly inherited, not yet normalized).
    pub rotation: i32,
    /// Which MediaBox coordinates were PDF integers, in `[x0, top, x1, bottom]` order.
    pub media_box_integer_flags: [bool; 4],
    /// Same for the inherited CropBox, when the page has one.
    pub crop_box_integer_flags: Option<[bool; 4]>,
    /// Same for an explicit TrimBox.
    pub trim_box_integer_flags: Option<[bool; 4]>,
    /// Same for an explicit BleedBox.
    pub bleed_box_integer_flags: Option<[bool; 4]>,
    /// Same for an explicit ArtBox.
    pub art_box_integer_flags: Option<[bool; 4]>,
}

/// The rotation angle normalized to `0..360` clockwise degrees.
pub open spec fn normalized_rotation(rotation: int) -> int {
    rotation % 360
}

/// Normalize a `/Rotate` angle into `0..360` (Euclidean remainder).
pub fn normalize_rotation(rotation: i32) -> (res: i32)
    ensures
        res == normalized_rotation(rotation as int),
        0 <= res < 360,
{
    let r = rotation % 360;
    if r < 0 {
        r + 360
    } else {
        r
    }
}

/// Normalizing a rotation lands in `0..360`, leaves a normalized rotation as
/// it is, and does not see whole turns: angles that differ by a multiple of
/// 360 degrees normalize alike.
pub proof fn lemma_rotation_normalization(rotation: int, turns: int)
    ensures
        0 <= normalized_rotation(rotation) < 360,
        normalized_rotation(normalized_rotation(rotation)) == normalized_rotation(rotation),
        normalized_rotation(rotation + 360 * turns) == normalized_rotation(rotation),
{
    assert(normalized_rotation(rotation + 360 * turns) == normalized_rotation(rotation)) by (nonlinear_arith);
}

/// Accept an input of `actual` bytes unless it exceeds `max_input_bytes`.
pub fn check_input_limit(actual: usize, max_input_bytes: Option<usize>) -> (res: Result<
    (),
    PdfError,
>)
    ensures
        match max_input_bytes {
            Some(max) if actual > max => res == Err::<(), PdfError>(
                PdfError::limit_exceeded_spec(LimitName::MaxInputBytes, max, actual),
            ),
            _ => res is Ok,
        },
{
    if let Some(max_bytes) = max_input_bytes {
        if actual > max_bytes {
            return Err(PdfError::limit_exceeded(LimitName::MaxInputBytes, max_bytes, actual));
        }
    }
    Ok(())
}

/// Accept a document of `page_count` pages unless it has more than
/// `max_pages`. This needs the page count alone and runs before any page's
/// facts (boxes, rotation) are read, so an oversized untrusted document is
/// refused without reading its pages.
pub fn check_page_limit(page_count: usize, limits: &ResourceLimits) -> (res: Result<(), PdfError>)
    ensures
        match limits.max_pages {
            Some(max) if page_count > max => res == Err::<(), PdfError>(
                PdfError::limit_exceeded_spec(LimitName::MaxPages, max, page_count),
            ),
            _ => res is Ok,
        },
{
    if let Some(max_pages) = limits.max_pages {
        if page_count > max_pages {
            return Err(PdfError::limit_exceeded(LimitName::MaxPages, max_pages, page_count));
        }
    }
    Ok(())
}

/// How many bytes a bounded reader takes so that an oversized input is
/// observed: one more than the limit (saturating), or everything when unlimited.
pub fn read_limit(max_input_bytes: Option<usize>) -> (res: Option<u64>)
    ensures
        match max_input_bytes {
            Some(max) => res == Some(
                (if max < usize::MAX {
                    (max + 1) as u64
                } else {
                    max as u64
                }),
            ),
            None => res is None,
        },
{
    match max_input_bytes {
        Some(max_bytes) => {
            let observed_limit = max_bytes.saturating_add(1);
            Some(observed_limit as u64)
        },
        None => None,
    }
}

/// The page catalog of an opened document.
pub struct Pdf {
    pages: Vec<PageInfo>,
    limits: ResourceLimits,
    total_objects: usize,
    total_image_bytes: usize,
}

impl Pdf {
    /// The cached per-page facts, in page order.
    pub closed spec fn page_infos(&self) -> Seq<PageInfo> {
        self.pages@
    }

    /// The configured resource limits.
    pub closed spec fn spec_limits(&self) -> ResourceLimits {
        self.limits
    }

    /// Objects charged so far against `max_total_objects`.
    pub closed spec fn objects_charged(&self) -> nat {
        self.total_objects as nat
    }

    /// Image bytes charged so far against `max_total_image_bytes`.
    pub closed spec fn image_bytes_charged(&self) -> nat {
        self.total_image_bytes as nat
    }

    /// Build the catalog from the facts read for each page, rejecting a
    /// document with more pages than `max_pages`. Callers that read the
    /// facts themselves apply [`check_page_limit`] to the page count first,
    /// before any page's boxes are read.
    pub fn from_pages(pages: Vec<PageInfo>, limits: ResourceLimits) -> (res: Result<Pdf, PdfError>)
        ensures
            match limits.max_pages {
                Some(max) if pages@.len() > max => res == Err::<Pdf, PdfError>(
                    PdfError::limit_exceeded_spec(LimitName::MaxPages, max, pages@.len() as usize),
                ),
                _ => res matches Ok(pdf) && pdf.page_infos() == pages@ && pdf.spec_limits()
                    == limits && pdf.objects_charged() == 0 && pdf.image_bytes_charged() == 0,
            },
    {
        let page_count = pages.len();
        match check_page_limit(page_count, &limits) {
            Err(error) => return Err(error),
            Ok(()) => {},
        }
        Ok(Pdf { pages, limits, total_objects: 0, total_image_bytes: 0 })
    }

    /// Return the number of pages in the document.
    pub fn page_count(&self) -> (res: usize)
        ensures
            res == self.page_infos().len(),
    {
        self.pages.len()
    }

    /// Return a page's rotation normalized to `0..360` clockwise degrees, or
    /// `None` when the zero-based index is out of range.
    pub fn page_rotation(&self, index: usize) -> (res: Option<i32>)
        ensures
            res == (if index < self.page_infos().len() {
                Some(normalized_rotation(self.page_infos()[index as int].rotation as int) as i32)
            } else {
                None::<i32>
            }),
    {
        if index < self.pages.len() {
            Some(normalize_rotation(self.pages[index].rotation))
        } else {
            None
        }
    }

    /// Return which source MediaBox coordinates were PDF integers.
    pub fn page_media_box_integer_flags(&self, index: usize) -> (res: Option<[bool; 4]>)
        ensures
            res == (if index < self.page_infos().len() {
                Some(self.page_infos()[index as int].media_box_integer_flags)
            } else {
                None::<[bool; 4]>
            }),
    {
        if index < self.pages.len() {
            Some(self.pages[index].media_box_integer_flags)
        } else {
            None
        }
    }

    /// Return which source CropBox coordinates were PDF integers; `None` when
    /// the page has no inherited CropBox or the index is out of range.
    pub fn page_crop_box_integer_flags(&self, index: usize) -> (res: Option<[bool; 4]>)
        ensures
            res == (if index < self.page_infos().len() {
                self.page_infos()[index as int].crop_box_integer_flags
            } else {
                None::<[bool; 4]>
            }),
    {
        if index < self.pages.len() {
            self.pages[index].crop_box_integer_flags
        } else {
            None
        }
    }

    /// Return which source TrimBox coordinates were PDF integers; `None` when
    /// the page has no explicit TrimBox or the index is out of range.
    pub fn page_trim_box_integer_flags(&self, index: usize) -> (res: Option<[bool; 4]>)
        ensures
            res == (if index < self.page_infos().len() {
                self.page_infos()[index as int].trim_box_integer_flags
            } else {
                None::<[bool; 4]>
            }),
    {
        if index < self.pages.len() {
            self.pages[index].trim_box_integer_flags
        } else {
            None
        }
    }

    /// Return which source BleedBox coordinates were PDF integers; `None` when
    /// the page has no explicit BleedBox or the index is out of range.
    pub fn page_bleed_box_integer_flags(&self, index: usize) -> (res: Option<[bool; 4]>)
        ensures
            res == (if index < self.page_infos().len() {
                self.page_infos()[index as int].bleed_box_integer_flags
            } else {
                None::<[bool; 4]>
            }),
    {
        if index < self.pages.len() {
            self.pages[index].bleed_box_integer_flags
        } else {
            None
        }
    }

    /// Return which source ArtBox coordinates were PDF integers; `None` when
    /// the page has no explicit ArtBox or the index is out of range.
    pub fn page_art_box_integer_flags(&self, index: usize) -> (res: Option<[bool; 4]>)
        ensures
            res == (if index < self.page_infos().len() {
                self.page_infos()[index as int].art_box_integer_flags
            } else {
                None::<[bool; 4]>
            }),
    {
        if index < self.pages.len() {
            self.pages[index].art_box_integer_flags
        } else {
            None
        }
    }

    /// A collection view over this document's pages.
    pub fn pages(&self) -> (res: Pages)
        ensures
            res.count() == self.page_infos().len(),
    {
        Pages::new(self.pages.len())
    }

    /// A front-to-back iterator over this document's page indices.
    pub fn pages_iter(&self) -> (res: PagesIter)
        ensures
            res.remaining() == index_range(0, self.page_infos().len() as int),
    {
        self.pages().iter()
    }

    /// Charge the objects extracted from one page against `max_total_objects`.
    ///
    /// Without that limit nothing is counted. With it the running total grows
    /// by `count` (also when the limit is then exceeded), and an error carrying
    /// the new total and the page's context is returned once it is over.
    pub fn charge_page_objects(&mut self, page_index: usize, count: usize) -> (res: Result<
        (),
        PdfError,
    >)
        requires
            page_index < old(self).page_infos().len(),
            old(self).spec_limits().max_total_objects is Some ==> old(self).objects_charged() + count
                <= usize::MAX,
        ensures
            final(self).page_infos() == old(self).page_infos(),
            final(self).spec_limits() == old(self).spec_limits(),
            final(self).image_bytes_charged() == old(self).image_bytes_charged(),
            final(self).objects_charged() == charged_total(
                old(self).objects_charged(),
                count as nat,
                old(self).spec_limits().max_total_objects,
            ),
            budget_exceeded(final(self).objects_charged(), old(self).spec_limits().max_total_objects)
                ==> res == Err::<(), PdfError>(
                budget_error(
                    LimitName::MaxTotalObjects,
                    old(self).spec_limits().max_total_objects->0,
                    final(self).objects_charged() as usize,
                    page_index,
                    old(self).page_infos()[page_index as int].object_id,
                    "extract page objects",
                ),
            ),
            !budget_exceeded(final(self).objects_charged(), old(self).spec_limits().max_total_objects)
                ==> res is Ok,
    {
        if let Some(max_total) = self.limits.max_total_objects {
            let new_total = self.total_objects + count;
            self.total_objects = new_total;
            if new_total > max_total {
                let id = self.pages[page_index].object_id;
                return Err(
                    PdfError::limit_exceeded(
                        LimitName::MaxTotalObjects,
                        max_total,
                        new_total,
                    ).at_page(page_index).at_object(id.number, id.generation).during(
                        "extract page objects",
                    ),
                );
            }
        }
        Ok(())
    }

    /// Charge the image bytes extracted from one page against
    /// `max_total_image_bytes`, in the same way as [`Pdf::charge_page_objects`].
    pub fn charge_page_image_bytes(&mut self, page_index: usize, bytes: usize) -> (res: Result<
        (),
        PdfError,
    >)
        requires
            page_index < old(self).page_infos().len(),
            old(self).spec_limits().max_total_image_bytes is Some ==> old(self).image_bytes_charged()
                + bytes <= usize::MAX,
        ensures
            final(self).page_infos() == old(self).page_infos(),
            final(self).spec_limits() == old(self).spec_limits(),
            final(self).objects_charged() == old(self).objects_charged(),
            final(self).image_bytes_charged() == charged_total(
                old(self).image_bytes_charged(),
                bytes as nat,
                old(self).spec_limits().max_total_image_bytes,
            ),
            budget_exceeded(
                final(self).image_bytes_charged(),
                old(self).spec_limits().max_total_image_bytes,
            ) ==> res == Err::<(), PdfError>(
                budget_error(
                    LimitName::MaxTotalImageBytes,
                    old(self).spec_limits().max_total_image_bytes->0,
                    final(self).image_bytes_charged() as usize,
                    page_index,
                    old(self).page_infos()[page_index as int].object_id,
                    "extract page images",
                ),
            ),
            !budget_exceeded(
                final(self).image_bytes_charged(),
                old(self).spec_limits().max_total_image_bytes,
            ) ==> res is Ok,
    {
        if let Some(max_bytes) = self.limits.max_total_image_bytes {
            let new_total = self.total_image_bytes + bytes;
            self.total_image_bytes = new_total;
            if new_total > max_bytes {
                let id = self.pages[page_index].object_id;
                return Err(
                    PdfError::limit_exceeded(
                        LimitName::MaxTotalImageBytes,
                        max_bytes,
                        new_total,
                    ).at_page(page_index).at_object(id.number, id.generation).during(
                        "extract page images",
                    ),
                );
            }
        }
        Ok(())
    }
}

impl Pdf {
    /// Account for one extracted page: its objects are charged first, and its
    /// image bytes only when the object budget still holds; the first exceeded
    /// budget is the error.
    pub fn charge_page(&mut self, page_index: usize, objects: usize, image_bytes: usize) -> (res:
        Result<(), PdfError>)
        requires
            page_index < old(self).page_infos().len(),
            old(self).spec_limits().max_total_objects is Some ==> old(self).objects_charged()
                + objects <= usize::MAX,
            old(self).spec_limits().max_total_image_bytes is Some ==> old(self).image_bytes_charged()
                + image_bytes <= usize::MAX,
        ensures
            final(self).page_infos() == old(self).page_infos(),
            final(self).spec_limits() == old(self).spec_limits(),
            final(self).objects_charged() == charged_total(
                old(self).objects_charged(),
                objects as nat,
                old(self).spec_limits().max_total_objects,
            ),
            budget_exceeded(final(self).objects_charged(), old(self).spec_limits().max_total_objects)
                ==> {
                &&& final(self).image_bytes_charged() == old(self).image_bytes_charged()
                &&& res == Err::<(), PdfError>(
                    budget_error(
                        LimitName::MaxTotalObjects,
                        old(self).spec_limits().max_total_objects->0,
                        final(self).objects_charged() as usize,
                        page_index,
                        old(self).page_infos()[page_index as int].object_id,
                        "extract page objects",
                    ),
                )
            },
            !budget_exceeded(final(self).objects_charged(), old(self).spec_limits().max_total_objects)
                ==> {
                &&& final(self).image_bytes_charged() == charged_total(
                    old(self).image_bytes_charged(),
                    image_bytes as nat,
                    old(self).spec_limits().max_total_image_bytes,
                )
                &&& budget_exceeded(
                    final(self).image_bytes_charged(),
                    old(self).spec_limits().max_total_image_bytes,
                ) ==> res == Err::<(), PdfError>(
                    budget_error(
                        LimitName::MaxTotalImageBytes,
                        old(self).spec_limits().max_total_image_bytes->0,
                        final(self).image_bytes_charged() as usize,
                        page_index,
                        old(self).page_infos()[page_index as int].object_id,
                        "extract page images",
                    ),
                )
                &&& !budget_exceeded(
                    final(self).image_bytes_charged(),
                    old(self).spec_limits().max_total_image_bytes,
                ) ==> res is Ok
            },
    {
        match self.charge_page_objects(page_index, objects) {
            Err(error) => Err(error),
            Ok(()) => self.charge_page_image_bytes(page_index, image_bytes),
        }
    }
}

/// The positions of the items (such as form fields) that sit on page `page`.
pub open spec fn on_page(pages: Seq<Option<usize>>, page: usize) -> Seq<int>
    decreases pages.len(),
{
    if pages.len() == 0 {
        Seq::empty()
    } else {
        let before = on_page(pages.drop_last(), page);
        if pages.last() == Some(page) {
            before.push(pages.len() - 1)
        } else {
            before
        }
    }
}

/// The positions, in order, of the items whose page is `page_index`; items
/// with no page are on none.
pub fn items_on_page(item_pages: &Vec<Option<usize>>, page_index: usize) -> (res: Vec<usize>)
    ensures
        res@.map_values(|i: usize| i as int) == on_page(item_pages@, page_index),
{
    let mut res: Vec<usize> = Vec::new();
    let mut i: usize = 0;
    while i < item_pages.len()
        invariant
            i <= item_pages.len(),
            res@.map_values(|x: usize| x as int) == on_page(item_pages@.take(i as int), page_index),
        decreases item_pages.len() - i,
    {
        assert(item_pages@.take(i + 1).drop_last() =~= item_pages@.take(i as int));
        if item_pages[i] == Some(page_index) {
            res.push(i);
            assert(res@.map_values(|x: usize| x as int) =~= on_page(
                item_pages@.take(i as int),
                page_index,
            ).push(i as int));
        }
        i = i + 1;
    }
    assert(item_pages@.take(item_pages.len() as int) =~= item_pages@);
    res
}

/// The running total of a document-wide budget after charging `count` more:
/// only a configured budget is counted.
pub open spec fn charged_total(before: nat, count: nat, limit: Option<usize>) -> nat {
    match limit {
        Some(_) => before + count,
        None => before,
    }
}

/// Whether a running total is over a configured budget.
pub open spec fn budget_exceeded(total: nat, limit: Option<usize>) -> bool {
    match limit {
        Some(max) => total > max,
        None => false,
    }
}

/// Budgets are shared by every page extraction that reaches accounting,
/// failed ones included: charging `first` and then `second` leaves the same
/// total as charging their sum, and once a budget is exceeded every later
/// extraction is refused as well.
pub proof fn lemma_budgets_accumulate(total: nat, first: nat, second: nat, limit: Option<usize>)
    ensures
        charged_total(charged_total(total, first, limit), second, limit) == charged_total(
            total,
            first + second,
            limit,
        ),
        budget_exceeded(total, limit) ==> budget_exceeded(charged_total(total, second, limit), limit),
        charged_total(total, first, limit) >= total,
        limit is None ==> !budget_exceeded(charged_total(total, first, limit), limit),
{
}

/// The running total after charging each of `counts` in turn.
pub open spec fn budget_after(total: nat, counts: Seq<nat>, limit: Option<usize>) -> nat
    decreases counts.len(),
{
    if counts.len() == 0 {
        total
    } else {
        charged_total(budget_after(total, counts.drop_last(), limit), counts.last(), limit)
    }
}

/// The sum of `counts`.
pub open spec fn count_sum(counts: Seq<nat>) -> nat
    decreases counts.len(),
{
    if counts.len() == 0 {
        0
    } else {
        count_sum(counts.drop_last()) + counts.last()
    }
}

/// Over any sequence of page extractions that reach accounting (any pages,
/// in any order, repeats allowed, rejected ones included): with a budget, the
/// running total after the `k`-th is the starting total plus the first `k`
/// counts, so the `k`-th is refused exactly when that sum exceeds the budget,
/// and after the first refusal every later one is refused too. Without a
/// budget nothing is counted and nothing is refused, so every request sees
/// the same state.
pub proof fn lemma_budget_over_requests(total: nat, counts: Seq<nat>, limit: Option<usize>)
    ensures
        budget_after(total, counts, limit) == match limit {
            Some(_) => total + count_sum(counts),
            None => total,
        },
        forall|k: int, j: int|
            0 <= k <= j <= counts.len() && budget_exceeded(
                #[trigger] budget_after(total, counts.take(k), limit),
                limit,
            ) ==> budget_exceeded(#[trigger] budget_after(total, counts.take(j), limit), limit),
        limit is None ==> forall|k: int|
            0 <= k <= counts.len() ==> !budget_exceeded(
                #[trigger] budget_after(total, counts.take(k), limit),
                limit,
            ),
    decreases counts.len(),
{
    if counts.len() > 0 {
        lemma_budget_over_requests(total, counts.drop_last(), limit);
    }
    assert forall|k: int, j: int|
        0 <= k <= j <= counts.len() && budget_exceeded(
            #[trigger] budget_after(total, counts.take(k), limit),
            limit,
        ) implies budget_exceeded(#[trigger] budget_after(total, counts.take(j), limit), limit) by {
        lemma_budget_monotone(total, counts.take(j), k);
        assert(counts.take(j).take(k) =~= counts.take(k));
    }
    assert forall|k: int| 0 <= k <= counts.len() && limit is None implies !budget_exceeded(
        #[trigger] budget_after(total, counts.take(k), limit),
        limit,
    ) by {}
}

proof fn lemma_budget_monotone(total: nat, counts: Seq<nat>, k: int)
    requires
        0 <= k <= counts.len(),
    ensures
        forall|limit: Option<usize>|
            budget_after(total, counts.take(k), limit) <= #[trigger] budget_after(total, counts, limit),
    decreases counts.len() - k,
{
    if k < counts.len() {
        lemma_budget_monotone(total, counts, k + 1);
        assert(counts.take(k + 1).drop_last() =~= counts.take(k));
    } else {
        assert(counts.take(k) =~= counts);
    }
}

/// The error reported when a document-wide budget is exceeded on a page.
pub open spec fn budget_error(
    name: LimitName,
    limit: usize,
    observed: usize,
    page_index: usize,
    object_id: ObjectId,
    operation: &'static str,
) -> PdfError {
    PdfError {
        kind: PdfErrorKind::ResourceLimit,
        resource_limit: Some(ResourceLimit { name, limit, observed }),
        page: Some(page_index),
        object: Some(object_id),
        operation: Some(operation),
    }
}

} // verus!
