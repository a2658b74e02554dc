//! The order in which object families first appear on a page, and the
//! collector that records content-stream events while a page is interpreted.

use vstd::prelude::*;

verus! {

/// A family of page objects.
#[derive(Debug, Clone, Copy, PartialEq, Eq, Structural)]
pub enum PageObjectKind {
    /// Text characters.
    Char,
    /// Straight line segments.
    Line,
    /// Rectangles.
    Rect,
    /// Curves.
    Curve,
    /// Images.
    Image,
}

/// The kind of shape a painted path was split into.
#[derive(Debug, Clone, Copy, PartialEq, Eq, Structural)]
pub enum ShapeKind {
    /// A line segment.
    Line,
    /// A rectangle.
    Rect,
    /// A curve.
    Curve,
}

/// The page-object family a shape belongs to.
pub open spec fn shape_object_kind_spec(kind: ShapeKind) -> PageObjectKind {
    match kind {
        ShapeKind::Line => PageObjectKind::Line,
        ShapeKind::Rect => PageObjectKind::Rect,
        ShapeKind::Curve => PageObjectKind::Curve,
    }
}

/// Map a shape to its page-object family.
pub fn shape_object_kind(kind: ShapeKind) -> (res: PageObjectKind)
    ensures
        res == shape_object_kind_spec(kind),
{
    match kind {
        ShapeKind::Line => PageObjectKind::Line,
        ShapeKind::Rect => PageObjectKind::Rect,
        ShapeKind::Curve => PageObjectKind::Curve,
    }
}

/// One content-stream event, in the order the interpreter reported it.
#[derive(Debug, Clone, Copy, PartialEq, Eq, Structural)]
pub enum CollectedObjectEvent {
    /// A character was shown.
    Char,
    /// The path with this index (into the collected paths) was painted.
    Path(usize),
    /// An image was drawn.
    Image,
}

/// The distinct elements of `s`, each at the position of its first appearance.
pub open spec fn first_appearances<T>(s: Seq<T>) -> Seq<T>
    decreases s.len(),
{
    if s.len() == 0 {
        Seq::empty()
    } else {
        let prefix = first_appearances(s.drop_last());
        if prefix.contains(s.last()) {
            prefix
        } else {
            prefix.push(s.last())
        }
    }
}

/// The object families one event contributes: a character event counts only
/// when the page kept characters, an image event only when it kept images.
pub open spec fn event_kinds(
    event: CollectedObjectEvent,
    path_kinds: Seq<Seq<PageObjectKind>>,
    has_chars: bool,
    has_images: bool,
) -> Seq<PageObjectKind> {
    match event {
        CollectedObjectEvent::Char => if has_chars {
            seq![PageObjectKind::Char]
        } else {
            Seq::empty()
        },
        CollectedObjectEvent::Path(i) => path_kinds[i as int],
        CollectedObjectEvent::Image => if has_images {
            seq![PageObjectKind::Image]
        } else {
            Seq::empty()
        },
    }
}

/// The families of all events, in event order.
pub open spec fn all_event_kinds(
    events: Seq<CollectedObjectEvent>,
    path_kinds: Seq<Seq<PageObjectKind>>,
    has_chars: bool,
    has_images: bool,
) -> Seq<PageObjectKind>
    decreases events.len(),
{
    if events.len() == 0 {
        Seq::empty()
    } else {
        all_event_kinds(events.drop_last(), path_kinds, has_chars, has_images) + event_kinds(
            events.last(),
            path_kinds,
            has_chars,
            has_images,
        )
    }
}

/// Every path event refers to a collected path.
pub open spec fn paths_in_range(
    events: Seq<CollectedObjectEvent>,
    path_kinds: Seq<Seq<PageObjectKind>>,
) -> bool {
    forall|i: int|
        0 <= i < events.len() ==> (#[trigger] events[i] matches CollectedObjectEvent::Path(p) ==> p
            < path_kinds.len())
}

fn contains_kind(v: &Vec<PageObjectKind>, kind: PageObjectKind) -> (res: bool)
    ensures
        res == v@.contains(kind),
{
    let mut i: usize = 0;
    while i < v.len()
        invariant
            i <= v.len(),
            forall|j: int| 0 <= j < i ==> v@[j] != kind,
        decreases v.len() - i,
    {
        if v[i] == kind {
            return true;
        }
        i = i + 1;
    }
    false
}

/// Append `kind` unless it is already listed.
fn push_first_appearance(order: &mut Vec<PageObjectKind>, kind: PageObjectKind, Ghost(
    seen,
): Ghost<Seq<PageObjectKind>>)
    requires
        old(order)@ == first_appearances(seen),
    ensures
        final(order)@ == first_appearances(seen.push(kind)),
{
    assert(seen.push(kind).drop_last() =~= seen);
    if !contains_kind(order, kind) {
        order.push(kind);
    }
}

/// The page's object families in the order they first appear in its content
/// stream, each listed once.
pub fn object_order(
    events: &Vec<CollectedObjectEvent>,
    path_kinds: &Vec<Vec<PageObjectKind>>,
    has_chars: bool,
    has_images: bool,
) -> (res: Vec<PageObjectKind>)
    requires
        paths_in_range(events@, path_kinds@.map_values(|k: Vec<PageObjectKind>| k@)),
    ensures
        res@ == first_appearances(
            all_event_kinds(
                events@,
                path_kinds@.map_values(|k: Vec<PageObjectKind>| k@),
                has_chars,
                has_images,
            ),
        ),
{
    let ghost pk = path_kinds@.map_values(|k: Vec<PageObjectKind>| k@);
    let mut order: Vec<PageObjectKind> = Vec::new();
    let mut i: usize = 0;
    assert(events@.take(0) =~= Seq::<CollectedObjectEvent>::empty());
    while i < events.len()
        invariant
            i <= events.len(),
            pk == path_kinds@.map_values(|k: Vec<PageObjectKind>| k@),
            paths_in_range(events@, pk),
            order@ == first_appearances(
                all_event_kinds(events@.take(i as int), pk, has_chars, has_images),
            ),
        decreases events.len() - i,
    {
        let ghost before = all_event_kinds(events@.take(i as int), pk, has_chars, has_images);
        assert(events@.take(i as int + 1).drop_last() =~= events@.take(i as int));
        let event = events[i];
        match event {
            CollectedObjectEvent::Char => {
                if has_chars {
                    push_first_appearance(&mut order, PageObjectKind::Char, Ghost(before));
                    assert(before.push(PageObjectKind::Char) =~= before + seq![PageObjectKind::Char]);
                } else {
                    assert(before + Seq::<PageObjectKind>::empty() =~= before);
                }
            },
            CollectedObjectEvent::Image => {
                if has_images {
                    push_first_appearance(&mut order, PageObjectKind::Image, Ghost(before));
                    assert(before.push(PageObjectKind::Image) =~= before
                        + seq![PageObjectKind::Image]);
                } else {
                    assert(before + Seq::<PageObjectKind>::empty() =~= before);
                }
            },
            CollectedObjectEvent::Path(p) => {
                assert(events@[i as int] matches CollectedObjectEvent::Path(q) ==> q
                    < pk.len());
                let kinds = &path_kinds[p];
                let mut j: usize = 0;
                assert(before + kinds@.take(0) =~= before);
                while j < kinds.len()
                    invariant
                        j <= kinds.len(),
                        order@ == first_appearances(before + kinds@.take(j as int)),
                    decreases kinds.len() - j,
                {
                    let ghost so_far = before + kinds@.take(j as int);
                    push_first_appearance(&mut order, kinds[j], Ghost(so_far));
                    assert(so_far.push(kinds@[j as int]) =~= before + kinds@.take(j + 1));
                    j = j + 1;
                }
                assert(kinds@.take(kinds.len() as int) =~= kinds@);
                assert(pk[p as int] == kinds@);
            },
        }
        i = i + 1;
    }
    assert(events@.take(events.len() as int) =~= events@);
    order
}

/// Listing first appearances keeps exactly the elements of the input and lists
/// none of them twice.
pub proof fn lemma_first_appearances<T>(s: Seq<T>)
    ensures
        first_appearances(s).no_duplicates(),
        forall|x: T| #[trigger] first_appearances(s).contains(x) <==> s.contains(x),
    decreases s.len(),
{
    if s.len() > 0 {
        lemma_first_appearances(s.drop_last());
        let prefix = first_appearances(s.drop_last());
        let d = s.drop_last();
        assert forall|x: T| #[trigger] first_appearances(s).contains(x) implies s.contains(x) by {
            if prefix.contains(x) {
                assert(d.contains(x));
                let k = choose|k: int| 0 <= k < d.len() && d[k] == x;
                assert(s[k] == x);
            } else {
                assert(!prefix.contains(s.last()));
                let r = prefix.push(s.last());
                let k = choose|k: int| 0 <= k < r.len() && r[k] == x;
                if k < prefix.len() {
                    assert(prefix[k] == x);
                }
                assert(s[s.len() - 1] == x);
            }
        }
        assert forall|x: T| s.contains(x) implies #[trigger] first_appearances(s).contains(x) by {
            let k = choose|k: int| 0 <= k < s.len() && s[k] == x;
            if k < s.len() - 1 {
                assert(d[k] == x);
                assert(d.contains(x));
                assert(prefix.contains(x));
                let m = choose|m: int| 0 <= m < prefix.len() && prefix[m] == x;
                if !prefix.contains(s.last()) {
                    assert(prefix.push(s.last())[m] == x);
                }
            } else {
                if !prefix.contains(s.last()) {
                    assert(prefix.push(s.last())[prefix.len() as int] == x);
                }
            }
        }
        if !prefix.contains(s.last()) {
            let r = prefix.push(s.last());
            assert forall|i: int, j: int| 0 <= i < r.len() && 0 <= j < r.len() && i != j implies r[i]
                != r[j] by {
                if i < prefix.len() && j < prefix.len() {
                } else if i < prefix.len() {
                    assert(prefix.contains(prefix[i]));
                } else if j < prefix.len() {
                    assert(prefix.contains(prefix[j]));
                }
            }
        }
    }
}

/// The families in a page's object order are exactly those its events
/// contribute, each listed once.
pub proof fn lemma_object_order_lists_each_family_once(
    events: Seq<CollectedObjectEvent>,
    path_kinds: Seq<Seq<PageObjectKind>>,
    has_chars: bool,
    has_images: bool,
)
    ensures
        first_appearances(all_event_kinds(events, path_kinds, has_chars, has_images)).no_duplicates(),
        forall|k: PageObjectKind|
            #[trigger] first_appearances(
                all_event_kinds(events, path_kinds, has_chars, has_images),
            ).contains(k) <==> all_event_kinds(events, path_kinds, has_chars, has_images).contains(
                k,
            ),
{
    lemma_first_appearances(all_event_kinds(events, path_kinds, has_chars, has_images));
}

/// The path positions the path events refer to, in event order.
pub open spec fn path_refs(events: Seq<CollectedObjectEvent>) -> Seq<int>
    decreases events.len(),
{
    if events.len() == 0 {
        Seq::empty()
    } else {
        let before = path_refs(events.drop_last());
        match events.last() {
            CollectedObjectEvent::Path(p) => before.push(p as int),
            _ => before,
        }
    }
}

/// The positions `0..n`, in order.
pub open spec fn positions(n: nat) -> Seq<int> {
    Seq::new(n, |i: int| i)
}

/// How a painted path is painted.
#[derive(Debug, Clone, Copy, PartialEq, Eq, Structural)]
pub enum PaintOp {
    /// Stroked only.
    Stroke,
    /// Filled only.
    Fill,
    /// Filled and stroked.
    FillAndStroke,
}

/// Whether a paint operator strokes and whether it fills the path.
pub open spec fn paint_flags_spec(op: PaintOp) -> (bool, bool) {
    match op {
        PaintOp::Stroke => (true, false),
        PaintOp::Fill => (false, true),
        PaintOp::FillAndStroke => (true, true),
    }
}

/// Whether a paint operator strokes and whether it fills the path, as
/// `(stroke, fill)`.
pub fn paint_flags(op: PaintOp) -> (res: (bool, bool))
    ensures
        res == paint_flags_spec(op),
{
    match op {
        PaintOp::Stroke => (true, false),
        PaintOp::Fill => (false, true),
        PaintOp::FillAndStroke => (true, true),
    }
}

/// A non-fatal problem reported while interpreting a page. The collector reads
/// only the page context; `detail` (code and description) is carried as is.
#[derive(Debug)]
pub struct ExtractWarning<D> {
    /// What went wrong.
    pub detail: D,
    /// Zero-based page index the warning refers to, when known.
    pub page: Option<usize>,
}

/// What a collector has recorded, as spec values.
#[verifier::ext_equal]
pub struct Collected<C, P, I, D> {
    /// Characters, in order.
    pub chars: Seq<C>,
    /// Painted paths, in order.
    pub paths: Seq<P>,
    /// Images, in order.
    pub images: Seq<I>,
    /// Object events, in order.
    pub events: Seq<CollectedObjectEvent>,
    /// Kept warnings, in order.
    pub warnings: Seq<ExtractWarning<D>>,
}

/// One report of the content-stream interpreter.
pub enum InterpreterReport<C, P, I, D> {
    /// A shown character.
    Char(C),
    /// A painted path.
    Path(P),
    /// A drawn image.
    Image(I),
    /// A warning.
    Warning(ExtractWarning<D>),
}

/// Nothing recorded yet.
pub open spec fn nothing_collected<C, P, I, D>() -> Collected<C, P, I, D> {
    Collected {
        chars: Seq::empty(),
        paths: Seq::empty(),
        images: Seq::empty(),
        events: Seq::empty(),
        warnings: Seq::empty(),
    }
}

/// What recording one report adds, for a collector of page `page` that keeps
/// warnings when `keep_warnings` is set.
pub open spec fn record<C, P, I, D>(
    c: Collected<C, P, I, D>,
    page: usize,
    keep_warnings: bool,
    report: InterpreterReport<C, P, I, D>,
) -> Collected<C, P, I, D> {
    match report {
        InterpreterReport::Char(ch) => Collected {
            chars: c.chars.push(ch),
            events: c.events.push(CollectedObjectEvent::Char),
            ..c
        },
        InterpreterReport::Path(path) => Collected {
            paths: c.paths.push(path),
            events: c.events.push(CollectedObjectEvent::Path(c.paths.len() as usize)),
            ..c
        },
        InterpreterReport::Image(image) => Collected {
            images: c.images.push(image),
            events: c.events.push(CollectedObjectEvent::Image),
            ..c
        },
        InterpreterReport::Warning(w) => if keep_warnings {
            Collected {
                warnings: c.warnings.push(
                    ExtractWarning {
                        detail: w.detail,
                        page: match w.page {
                            Some(p) => Some(p),
                            None => Some(page),
                        },
                    },
                ),
                ..c
            }
        } else {
            c
        },
    }
}

/// What a collector has recorded after the reports `reports`, in order.
pub open spec fn record_all<C, P, I, D>(
    c: Collected<C, P, I, D>,
    page: usize,
    keep_warnings: bool,
    reports: Seq<InterpreterReport<C, P, I, D>>,
) -> Collected<C, P, I, D>
    decreases reports.len(),
{
    if reports.len() == 0 {
        c
    } else {
        record(record_all(c, page, keep_warnings, reports.drop_last()), page, keep_warnings, reports.last())
    }
}

/// Collecting warnings or not changes nothing else a page records: over any
/// sequence of reports, the characters, paths, images and event order are the
/// same either way; without collection no warning is kept, and with it every
/// kept warning names a page (the current one unless it named its own).
pub proof fn lemma_warnings_change_nothing_else<C, P, I, D>(
    page: usize,
    reports: Seq<InterpreterReport<C, P, I, D>>,
)
    ensures
        ({
            let on = record_all(nothing_collected(), page, true, reports);
            let off = record_all(nothing_collected(), page, false, reports);
            &&& on.chars == off.chars
            &&& on.paths == off.paths
            &&& on.images == off.images
            &&& on.events == off.events
            &&& off.warnings.len() == 0
            &&& forall|k: int| 0 <= k < on.warnings.len() ==> (#[trigger] on.warnings[k]).page is Some
        }),
    decreases reports.len(),
{
    if reports.len() > 0 {
        lemma_warnings_change_nothing_else(page, reports.drop_last());
        let on = record_all(nothing_collected(), page, true, reports.drop_last());
        let on2 = record_all(nothing_collected(), page, true, reports);
        match reports.last() {
            InterpreterReport::Warning(w) => {
                assert forall|k: int| 0 <= k < on2.warnings.len() implies (
                #[trigger] on2.warnings[k]).page is Some by {
                    if k < on.warnings.len() {
                        assert(on2.warnings[k] == on.warnings[k]);
                    }
                }
            },
            _ => {},
        }
    }
}

/// Records the characters, painted paths, images and warnings that the content
/// stream interpreter reports for one page, together with their event order.
pub struct EventCollector<C, P, I, D> {
    chars: Vec<C>,
    paths: Vec<P>,
    images: Vec<I>,
    object_events: Vec<CollectedObjectEvent>,
    warnings: Vec<ExtractWarning<D>>,
    page_index: usize,
    collect_warnings: bool,
}

impl<C, P, I, D> EventCollector<C, P, I, D> {
    /// Characters recorded so far.
    pub closed spec fn spec_chars(&self) -> Seq<C> {
        self.chars@
    }

    /// Painted paths recorded so far.
    pub closed spec fn spec_paths(&self) -> Seq<P> {
        self.paths@
    }

    /// Images recorded so far.
    pub closed spec fn spec_images(&self) -> Seq<I> {
        self.images@
    }

    /// The object events in reporting order.
    pub closed spec fn spec_events(&self) -> Seq<CollectedObjectEvent> {
        self.object_events@
    }

    /// Warnings kept so far.
    pub closed spec fn spec_warnings(&self) -> Seq<ExtractWarning<D>> {
        self.warnings@
    }

    /// The page being interpreted.
    pub closed spec fn spec_page_index(&self) -> usize {
        self.page_index
    }

    /// Whether warnings are kept.
    pub closed spec fn spec_collect_warnings(&self) -> bool {
        self.collect_warnings
    }

    /// Everything recorded so far.
    pub open spec fn snapshot(&self) -> Collected<C, P, I, D> {
        Collected {
            chars: self.spec_chars(),
            paths: self.spec_paths(),
            images: self.spec_images(),
            events: self.spec_events(),
            warnings: self.spec_warnings(),
        }
    }

    /// The path events number the recorded paths in order: the `k`-th path
    /// event refers to the `k`-th painted path.
    pub open spec fn paths_numbered(&self) -> bool {
        path_refs(self.spec_events()) == positions(self.spec_paths().len())
    }

    /// An empty collector for the given page.
    pub fn new(page_index: usize, collect_warnings: bool) -> (res: Self)
        ensures
            res.spec_chars().len() == 0,
            res.spec_paths().len() == 0,
            res.spec_images().len() == 0,
            res.spec_events().len() == 0,
            res.spec_warnings().len() == 0,
            res.spec_page_index() == page_index,
            res.spec_collect_warnings() == collect_warnings,
            res.paths_numbered(),
            res.snapshot() == nothing_collected::<C, P, I, D>(),
    {
        let res = EventCollector {
            chars: Vec::new(),
            paths: Vec::new(),
            images: Vec::new(),
            object_events: Vec::new(),
            warnings: Vec::new(),
            page_index,
            collect_warnings,
        };
        assert(positions(0) =~= Seq::<int>::empty());
        res
    }

    /// Record a shown character.
    pub fn on_char(&mut self, event: C)
        ensures
            final(self).spec_chars() == old(self).spec_chars().push(event),
            final(self).spec_events() == old(self).spec_events().push(CollectedObjectEvent::Char),
            final(self).spec_paths() == old(self).spec_paths(),
            final(self).spec_images() == old(self).spec_images(),
            final(self).spec_warnings() == old(self).spec_warnings(),
            final(self).spec_page_index() == old(self).spec_page_index(),
            final(self).spec_collect_warnings() == old(self).spec_collect_warnings(),
            final(self).snapshot() == record(
                old(self).snapshot(),
                old(self).spec_page_index(),
                old(self).spec_collect_warnings(),
                InterpreterReport::Char(event),
            ),
            old(self).paths_numbered() ==> final(self).paths_numbered(),
    {
        proof {
            assert(self.object_events@.push(CollectedObjectEvent::Char).drop_last()
                =~= self.object_events@);
        }
        self.object_events.push(CollectedObjectEvent::Char);
        self.chars.push(event);
    }

    /// Record a painted path; its event refers to it by position.
    pub fn on_path_painted(&mut self, event: P)
        ensures
            final(self).spec_paths() == old(self).spec_paths().push(event),
            final(self).spec_events() == old(self).spec_events().push(
                CollectedObjectEvent::Path(old(self).spec_paths().len() as usize),
            ),
            final(self).spec_chars() == old(self).spec_chars(),
            final(self).spec_images() == old(self).spec_images(),
            final(self).spec_warnings() == old(self).spec_warnings(),
            final(self).spec_page_index() == old(self).spec_page_index(),
            final(self).spec_collect_warnings() == old(self).spec_collect_warnings(),
            final(self).snapshot() == record(
                old(self).snapshot(),
                old(self).spec_page_index(),
                old(self).spec_collect_warnings(),
                InterpreterReport::Path(event),
            ),
            old(self).paths_numbered() ==> final(self).paths_numbered(),
    {
        proof {
            let e = CollectedObjectEvent::Path(self.paths@.len() as usize);
            assert(self.object_events@.push(e).drop_last() =~= self.object_events@);
            assert(positions(self.paths@.len()).push(self.paths@.len() as int) =~= positions(
                self.paths@.len() + 1,
            ));
        }
        self.object_events.push(CollectedObjectEvent::Path(self.paths.len()));
        self.paths.push(event);
    }

    /// Record a drawn image.
    pub fn on_image(&mut self, event: I)
        ensures
            final(self).spec_images() == old(self).spec_images().push(event),
            final(self).spec_events() == old(self).spec_events().push(CollectedObjectEvent::Image),
            final(self).spec_chars() == old(self).spec_chars(),
            final(self).spec_paths() == old(self).spec_paths(),
            final(self).spec_warnings() == old(self).spec_warnings(),
            final(self).spec_page_index() == old(self).spec_page_index(),
            final(self).spec_collect_warnings() == old(self).spec_collect_warnings(),
            final(self).snapshot() == record(
                old(self).snapshot(),
                old(self).spec_page_index(),
                old(self).spec_collect_warnings(),
                InterpreterReport::Image(event),
            ),
            old(self).paths_numbered() ==> final(self).paths_numbered(),
    {
        proof {
            assert(self.object_events@.push(CollectedObjectEvent::Image).drop_last()
                =~= self.object_events@);
        }
        self.object_events.push(CollectedObjectEvent::Image);
        self.images.push(event);
    }

    /// Keep a warning when warnings are collected, giving it this page's
    /// context unless it already names a page.
    pub fn on_warning(&mut self, warning: ExtractWarning<D>)
        ensures
            final(self).spec_warnings() == (if old(self).spec_collect_warnings() {
                old(self).spec_warnings().push(
                    ExtractWarning {
                        detail: warning.detail,
                        page: match warning.page {
                            Some(p) => Some(p),
                            None => Some(old(self).spec_page_index()),
                        },
                    },
                )
            } else {
                old(self).spec_warnings()
            }),
            final(self).spec_chars() == old(self).spec_chars(),
            final(self).spec_paths() == old(self).spec_paths(),
            final(self).spec_images() == old(self).spec_images(),
            final(self).spec_events() == old(self).spec_events(),
            final(self).spec_page_index() == old(self).spec_page_index(),
            final(self).spec_collect_warnings() == old(self).spec_collect_warnings(),
            final(self).snapshot() == record(
                old(self).snapshot(),
                old(self).spec_page_index(),
                old(self).spec_collect_warnings(),
                InterpreterReport::Warning(warning),
            ),
            old(self).paths_numbered() ==> final(self).paths_numbered(),
    {
        if self.collect_warnings {
            let mut warning = warning;
            if warning.page.is_none() {
                warning.page = Some(self.page_index);
            }
            self.warnings.push(warning);
        }
    }

    /// The recorded characters.
    pub fn chars(&self) -> (res: &Vec<C>)
        ensures
            res@ == self.spec_chars(),
    {
        &self.chars
    }

    /// The recorded painted paths.
    pub fn paths(&self) -> (res: &Vec<P>)
        ensures
            res@ == self.spec_paths(),
    {
        &self.paths
    }

    /// The recorded images.
    pub fn images(&self) -> (res: &Vec<I>)
        ensures
            res@ == self.spec_images(),
    {
        &self.images
    }

    /// The object events in reporting order.
    pub fn object_events(&self) -> (res: &Vec<CollectedObjectEvent>)
        ensures
            res@ == self.spec_events(),
    {
        &self.object_events
    }

    /// The kept warnings.
    pub fn warnings(&self) -> (res: &Vec<ExtractWarning<D>>)
        ensures
            res@ == self.spec_warnings(),
    {
        &self.warnings
    }
}

/// A collector keeps its path events numbering its paths in order, so every
/// path event refers to a recorded path: the order of a page's object
/// families can always be computed from what it collected.
pub proof fn lemma_collected_paths_in_range<C, P, I, D>(
    collector: EventCollector<C, P, I, D>,
    path_kinds: Seq<Seq<PageObjectKind>>,
)
    requires
        collector.paths_numbered(),
        path_kinds.len() == collector.spec_paths().len(),
    ensures
        paths_in_range(collector.spec_events(), path_kinds),
{
    lemma_path_refs_bound(collector.spec_events());
    let n = collector.spec_paths().len();
    assert forall|i: int| 0 <= i < collector.spec_events().len() implies (
    #[trigger] collector.spec_events()[i] matches CollectedObjectEvent::Path(p) ==> p
        < path_kinds.len()) by {
        let events = collector.spec_events();
        if let CollectedObjectEvent::Path(p) = events[i] {
            assert(path_refs(events).contains(p as int));
            let k = choose|k: int| 0 <= k < path_refs(events).len() && path_refs(events)[k] == p as int;
            assert(positions(n)[k] == k);
        }
    }
}

proof fn lemma_path_refs_bound(events: Seq<CollectedObjectEvent>)
    ensures
        forall|i: int|
            0 <= i < events.len() ==> (#[trigger] events[i] matches CollectedObjectEvent::Path(p)
                ==> path_refs(events).contains(p as int)),
    decreases events.len(),
{
    if events.len() > 0 {
        let d = events.drop_last();
        lemma_path_refs_bound(d);
        let before = path_refs(d);
        assert forall|i: int|
            0 <= i < events.len() implies (#[trigger] events[i] matches CollectedObjectEvent::Path(
            p,
        ) ==> path_refs(events).contains(p as int)) by {
            if let CollectedObjectEvent::Path(p) = events[i] {
                if i < events.len() - 1 {
                    assert(d[i] == events[i]);
                    let k = choose|k: int| 0 <= k < before.len() && before[k] == p as int;
                    if let CollectedObjectEvent::Path(q) = events.last() {
                        assert(before.push(q as int)[k] == p as int);
                    }
                } else {
                    assert(before.push(p as int)[before.len() as int] == p as int);
                }
            }
        }
    }
}

} // verus!
