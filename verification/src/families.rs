//! The object families a page exports, and the order their keys appear in:
//! layout families first (when layout analysis ran), then the page's own
//! object order, then the remaining base families; a family with no objects
//! is left out.

use vstd::prelude::*;

use crate::layout::LayoutFamily;
use crate::objects::{first_appearances, lemma_first_appearances, PageObjectKind};

verus! {

/// A family of exported page objects.
#[derive(Debug, Clone, Copy, PartialEq, Eq, Structural)]
pub enum ObjectFamily {
    /// `textboxhorizontal`
    TextBoxHorizontal,
    /// `textboxvertical`
    TextBoxVertical,
    /// `textlinehorizontal`
    TextLineHorizontal,
    /// `textlinevertical`
    TextLineVertical,
    /// `char`
    Char,
    /// `line`
    Line,
    /// `rect`
    Rect,
    /// `curve`
    Curve,
    /// `image`
    Image,
}

/// The key a family is exported under.
pub open spec fn family_text(f: ObjectFamily) -> Seq<char> {
    match f {
        ObjectFamily::TextBoxHorizontal => "textboxhorizontal"@,
        ObjectFamily::TextBoxVertical => "textboxvertical"@,
        ObjectFamily::TextLineHorizontal => "textlinehorizontal"@,
        ObjectFamily::TextLineVertical => "textlinevertical"@,
        ObjectFamily::Char => "char"@,
        ObjectFamily::Line => "line"@,
        ObjectFamily::Rect => "rect"@,
        ObjectFamily::Curve => "curve"@,
        ObjectFamily::Image => "image"@,
    }
}

impl ObjectFamily {
    /// The key this family is exported under.
    pub fn as_str(self) -> (res: &'static str)
        ensures
            res@ == family_text(self),
    {
        match self {
            ObjectFamily::TextBoxHorizontal => "textboxhorizontal",
            ObjectFamily::TextBoxVertical => "textboxvertical",
            ObjectFamily::TextLineHorizontal => "textlinehorizontal",
            ObjectFamily::TextLineVertical => "textlinevertical",
            ObjectFamily::Char => "char",
            ObjectFamily::Line => "line",
            ObjectFamily::Rect => "rect",
            ObjectFamily::Curve => "curve",
            ObjectFamily::Image => "image",
        }
    }
}

/// The exported family of a layout family.
pub open spec fn from_layout_spec(f: LayoutFamily) -> ObjectFamily {
    match f {
        LayoutFamily::TextBoxHorizontal => ObjectFamily::TextBoxHorizontal,
        LayoutFamily::TextBoxVertical => ObjectFamily::TextBoxVertical,
        LayoutFamily::TextLineHorizontal => ObjectFamily::TextLineHorizontal,
        LayoutFamily::TextLineVertical => ObjectFamily::TextLineVertical,
        LayoutFamily::Char => ObjectFamily::Char,
    }
}

/// The exported family of a page object kind.
pub open spec fn from_kind_spec(k: PageObjectKind) -> ObjectFamily {
    match k {
        PageObjectKind::Char => ObjectFamily::Char,
        PageObjectKind::Line => ObjectFamily::Line,
        PageObjectKind::Rect => ObjectFamily::Rect,
        PageObjectKind::Curve => ObjectFamily::Curve,
        PageObjectKind::Image => ObjectFamily::Image,
    }
}

fn from_layout(f: LayoutFamily) -> (res: ObjectFamily)
    ensures
        res == from_layout_spec(f),
{
    match f {
        LayoutFamily::TextBoxHorizontal => ObjectFamily::TextBoxHorizontal,
        LayoutFamily::TextBoxVertical => ObjectFamily::TextBoxVertical,
        LayoutFamily::TextLineHorizontal => ObjectFamily::TextLineHorizontal,
        LayoutFamily::TextLineVertical => ObjectFamily::TextLineVertical,
        LayoutFamily::Char => ObjectFamily::Char,
    }
}

fn from_kind(k: PageObjectKind) -> (res: ObjectFamily)
    ensures
        res == from_kind_spec(k),
{
    match k {
        PageObjectKind::Char => ObjectFamily::Char,
        PageObjectKind::Line => ObjectFamily::Line,
        PageObjectKind::Rect => ObjectFamily::Rect,
        PageObjectKind::Curve => ObjectFamily::Curve,
        PageObjectKind::Image => ObjectFamily::Image,
    }
}

/// Which families have at least one object.
#[derive(Debug, Clone, Copy, PartialEq, Eq, Structural)]
pub struct FamilyPresence {
    /// Horizontal text boxes.
    pub textbox_horizontal: bool,
    /// Vertical text boxes.
    pub textbox_vertical: bool,
    /// Horizontal text lines.
    pub textline_horizontal: bool,
    /// Vertical text lines.
    pub textline_vertical: bool,
    /// Characters.
    pub char: bool,
    /// Lines.
    pub line: bool,
    /// Rectangles.
    pub rect: bool,
    /// Curves.
    pub curve: bool,
    /// Images.
    pub image: bool,
}

/// Whether `f` has objects.
pub open spec fn is_present(p: FamilyPresence, f: ObjectFamily) -> bool {
    match f {
        ObjectFamily::TextBoxHorizontal => p.textbox_horizontal,
        ObjectFamily::TextBoxVertical => p.textbox_vertical,
        ObjectFamily::TextLineHorizontal => p.textline_horizontal,
        ObjectFamily::TextLineVertical => p.textline_vertical,
        ObjectFamily::Char => p.char,
        ObjectFamily::Line => p.line,
        ObjectFamily::Rect => p.rect,
        ObjectFamily::Curve => p.curve,
        ObjectFamily::Image => p.image,
    }
}

fn present(p: &FamilyPresence, f: ObjectFamily) -> (res: bool)
    ensures
        res == is_present(*p, f),
{
    match f {
        ObjectFamily::TextBoxHorizontal => p.textbox_horizontal,
        ObjectFamily::TextBoxVertical => p.textbox_vertical,
        ObjectFamily::TextLineHorizontal => p.textline_horizontal,
        ObjectFamily::TextLineVertical => p.textline_vertical,
        ObjectFamily::Char => p.char,
        ObjectFamily::Line => p.line,
        ObjectFamily::Rect => p.rect,
        ObjectFamily::Curve => p.curve,
        ObjectFamily::Image => p.image,
    }
}

/// The base families, in their fallback order.
pub open spec fn base_families() -> Seq<ObjectFamily> {
    seq![
        ObjectFamily::Char,
        ObjectFamily::Line,
        ObjectFamily::Rect,
        ObjectFamily::Curve,
        ObjectFamily::Image,
    ]
}

/// The candidate order: layout families, then the page's object order, then
/// the base families.
pub open spec fn candidate_families(layout: Seq<LayoutFamily>, base: Seq<PageObjectKind>) -> Seq<
    ObjectFamily,
> {
    layout.map_values(|f: LayoutFamily| from_layout_spec(f)) + base.map_values(
        |k: PageObjectKind| from_kind_spec(k),
    ) + base_families()
}

/// The families of `s` that have objects, in order.
pub open spec fn present_only(s: Seq<ObjectFamily>, p: FamilyPresence) -> Seq<ObjectFamily>
    decreases s.len(),
{
    if s.len() == 0 {
        Seq::empty()
    } else {
        let before = present_only(s.drop_last(), p);
        if is_present(p, s.last()) {
            before.push(s.last())
        } else {
            before
        }
    }
}

/// The families a page exports, in key order.
pub open spec fn exported_families(
    layout: Seq<LayoutFamily>,
    base: Seq<PageObjectKind>,
    p: FamilyPresence,
) -> Seq<ObjectFamily> {
    first_appearances(present_only(candidate_families(layout, base), p))
}

fn contains_family(v: &Vec<ObjectFamily>, f: ObjectFamily) -> (res: bool)
    ensures
        res == v@.contains(f),
{
    let mut i: usize = 0;
    while i < v.len()
        invariant
            i <= v.len(),
            forall|j: int| 0 <= j < i ==> v@[j] != f,
        decreases v.len() - i,
    {
        if v[i] == f {
            return true;
        }
        i = i + 1;
    }
    false
}

/// Append `f` when it has objects and is not listed yet.
fn offer(
    order: &mut Vec<ObjectFamily>,
    f: ObjectFamily,
    p: &FamilyPresence,
    Ghost(seen): Ghost<Seq<ObjectFamily>>,
)
    requires
        old(order)@ == first_appearances(present_only(seen, *p)),
    ensures
        final(order)@ == first_appearances(present_only(seen.push(f), *p)),
{
    assert(seen.push(f).drop_last() =~= seen);
    if present(p, f) {
        let ghost kept = present_only(seen, *p);
        assert(kept.push(f).drop_last() =~= kept);
        if !contains_family(order, f) {
            order.push(f);
        }
    }
}

/// The families a page exports, in the order their keys appear: layout
/// families (`layout_order`), the page's object order (`base_order`), then
/// `char`, `line`, `rect`, `curve`, `image`; each once, at its first
/// appearance, and only when it has objects.
pub fn exported_family_order(
    layout_order: &Vec<LayoutFamily>,
    base_order: &Vec<PageObjectKind>,
    presence: &FamilyPresence,
) -> (res: Vec<ObjectFamily>)
    ensures
        res@ == exported_families(layout_order@, base_order@, *presence),
{
    let ghost layout = layout_order@.map_values(|f: LayoutFamily| from_layout_spec(f));
    let ghost base = base_order@.map_values(|k: PageObjectKind| from_kind_spec(k));
    let mut order: Vec<ObjectFamily> = Vec::new();
    let mut i: usize = 0;
    assert(layout.take(0) =~= Seq::<ObjectFamily>::empty());
    while i < layout_order.len()
        invariant
            i <= layout_order.len(),
            layout == layout_order@.map_values(|f: LayoutFamily| from_layout_spec(f)),
            order@ == first_appearances(present_only(layout.take(i as int), *presence)),
        decreases layout_order.len() - i,
    {
        let f = from_layout(layout_order[i]);
        offer(&mut order, f, presence, Ghost(layout.take(i as int)));
        assert(layout.take(i as int).push(f) =~= layout.take(i + 1));
        i = i + 1;
    }
    assert(layout.take(i as int) =~= layout);
    let mut j: usize = 0;
    assert(layout + base.take(0) =~= layout);
    while j < base_order.len()
        invariant
            j <= base_order.len(),
            base == base_order@.map_values(|k: PageObjectKind| from_kind_spec(k)),
            order@ == first_appearances(present_only(layout + base.take(j as int), *presence)),
        decreases base_order.len() - j,
    {
        let f = from_kind(base_order[j]);
        offer(&mut order, f, presence, Ghost(layout + base.take(j as int)));
        assert((layout + base.take(j as int)).push(f) =~= layout + base.take(j + 1));
        j = j + 1;
    }
    assert(base.take(j as int) =~= base);
    let ghost prefix = layout + base;
    let fallback: [ObjectFamily; 5] = [
        ObjectFamily::Char,
        ObjectFamily::Line,
        ObjectFamily::Rect,
        ObjectFamily::Curve,
        ObjectFamily::Image,
    ];
    assert(fallback@ =~= base_families());
    let mut k: usize = 0;
    assert(prefix + base_families().take(0) =~= prefix);
    while k < 5
        invariant
            k <= 5,
            fallback@ == base_families(),
            order@ == first_appearances(
                present_only(prefix + base_families().take(k as int), *presence),
            ),
        decreases 5 - k,
    {
        let f = fallback[k];
        offer(&mut order, f, presence, Ghost(prefix + base_families().take(k as int)));
        assert((prefix + base_families().take(k as int)).push(f) =~= prefix
            + base_families().take(k + 1));
        k = k + 1;
    }
    assert(base_families().take(5) =~= base_families());
    order
}

proof fn lemma_present_only_contains(s: Seq<ObjectFamily>, p: FamilyPresence)
    ensures
        forall|f: ObjectFamily| #[trigger] present_only(s, p).contains(f) <==> (s.contains(f) && is_present(p, f)),
    decreases s.len(),
{
    if s.len() > 0 {
        let d = s.drop_last();
        lemma_present_only_contains(d, p);
        let before = present_only(d, p);
        assert forall|f: ObjectFamily| #[trigger] present_only(s, p).contains(f) <==> (s.contains(f)
            && is_present(p, f)) by {
            if present_only(s, p).contains(f) {
                let r = present_only(s, p);
                let k = choose|k: int| 0 <= k < r.len() && r[k] == f;
                if k < before.len() {
                    assert(before[k] == f);
                    assert(before.contains(f));
                    let m = choose|m: int| 0 <= m < d.len() && d[m] == f;
                    assert(s[m] == f);
                } else {
                    assert(s[s.len() - 1] == f);
                }
            }
            if s.contains(f) && is_present(p, f) {
                let k = choose|k: int| 0 <= k < s.len() && s[k] == f;
                if k < s.len() - 1 {
                    assert(d[k] == f);
                    assert(before.contains(f));
                    let m = choose|m: int| 0 <= m < before.len() && before[m] == f;
                    if is_present(p, s.last()) {
                        assert(before.push(s.last())[m] == f);
                    }
                } else {
                    assert(before.push(s.last())[before.len() as int] == f);
                }
            }
        }
    }
}

/// A page exports each family at most once, only families that have
/// objects, and every base family (`char`, `line`, `rect`, `curve`, `image`)
/// that has objects; a layout family is exported exactly when layout analysis
/// produced it and it has objects.
pub proof fn lemma_exported_families(
    layout: Seq<LayoutFamily>,
    base: Seq<PageObjectKind>,
    p: FamilyPresence,
)
    ensures
        exported_families(layout, base, p).no_duplicates(),
        forall|f: ObjectFamily| #[trigger]
            exported_families(layout, base, p).contains(f) <==> (is_present(p, f) && (
            candidate_families(layout, base).contains(f))),
        forall|f: ObjectFamily|
            base_families().contains(f) ==> (#[trigger] exported_families(layout, base, p).contains(f)
                <==> is_present(p, f)),
{
    let c = candidate_families(layout, base);
    lemma_present_only_contains(c, p);
    lemma_first_appearances(present_only(c, p));
    assert forall|f: ObjectFamily| base_families().contains(f) implies c.contains(f) by {
        let k = choose|k: int| 0 <= k < base_families().len() && base_families()[k] == f;
        let prefix = layout.map_values(|g: LayoutFamily| from_layout_spec(g)) + base.map_values(
            |g: PageObjectKind| from_kind_spec(g),
        );
        assert(c[prefix.len() + k] == f);
    }
}

} // verus!
