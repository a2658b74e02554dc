//! Tagged-PDF structure trees and their restriction to a single page.

use vstd::prelude::*;

verus! {

/// One node of a document structure tree. The bounding box is carried as the
/// caller's own box type `B`; filtering never looks at it.
#[derive(Debug)]
pub struct StructElement<B> {
    /// Structure type, such as `P` or `H1`.
    pub element_type: String,
    /// Marked-content identifiers on the element's page.
    pub mcids: Vec<u32>,
    /// Alternate description (`/Alt`).
    pub alt_text: Option<String>,
    /// Replacement text (`/ActualText`).
    pub actual_text: Option<String>,
    /// Language tag (`/Lang`).
    pub lang: Option<String>,
    /// Bounding box, when known.
    pub bbox: Option<B>,
    /// Child elements, in document order.
    pub children: Vec<StructElement<B>>,
    /// Zero-based page the element's content is on, when known.
    pub page_index: Option<usize>,
}

/// Whether `elem` stays in the tree of page `page`: it belongs to that page
/// itself or some descendant does.
pub open spec fn keeps_element<B>(elem: StructElement<B>, page: usize) -> bool
    decreases elem,
{
    elem.page_index == Some(page) || keeps_any(elem.children@, page)
}

/// Whether any element of `elems` stays in the tree of page `page`.
pub open spec fn keeps_any<B>(elems: Seq<StructElement<B>>, page: usize) -> bool
    decreases elems,
{
    if elems.len() == 0 {
        false
    } else {
        keeps_element(elems.last(), page) || keeps_any(elems.drop_last(), page)
    }
}

/// `res` is `src` restricted to page `page`: the same element with its
/// marked-content identifiers only when it belongs to the page, and its children
/// restricted in turn.
pub open spec fn restricted_element<B>(res: StructElement<B>, src: StructElement<B>, page: usize) -> bool
    decreases src,
{
    &&& res.element_type@ == src.element_type@
    &&& res.mcids@ == (if src.page_index == Some(page) {
        src.mcids@
    } else {
        Seq::<u32>::empty()
    })
    &&& res.alt_text == src.alt_text
    &&& res.actual_text == src.actual_text
    &&& res.lang == src.lang
    &&& res.bbox == src.bbox
    &&& res.page_index == src.page_index
    &&& restricted_list(res.children@, src.children@, page)
}

/// `res` lists, in order, the restrictions of the elements of `src` that stay
/// in the tree of page `page`.
pub open spec fn restricted_list<B>(
    res: Seq<StructElement<B>>,
    src: Seq<StructElement<B>>,
    page: usize,
) -> bool
    decreases src,
{
    if src.len() == 0 {
        res.len() == 0
    } else if keeps_element(src.last(), page) {
        res.len() > 0 && restricted_element(res.last(), src.last(), page) && restricted_list(
            res.drop_last(),
            src.drop_last(),
            page,
        )
    } else {
        restricted_list(res, src.drop_last(), page)
    }
}

proof fn lemma_restricted_list_nonempty<B>(
    res: Seq<StructElement<B>>,
    src: Seq<StructElement<B>>,
    page: usize,
)
    requires
        restricted_list(res, src, page),
    ensures
        res.len() > 0 <==> keeps_any(src, page),
    decreases src.len(),
{
    if src.len() > 0 {
        if keeps_element(src.last(), page) {
        } else {
            lemma_restricted_list_nonempty(res, src.drop_last(), page);
        }
    }
}

fn clone_mcids(v: &Vec<u32>) -> (res: Vec<u32>)
    ensures
        res@ == v@,
{
    let mut out: Vec<u32> = Vec::new();
    let mut i: usize = 0;
    while i < v.len()
        invariant
            i <= v.len(),
            out@ == v@.take(i as int),
        decreases v.len() - i,
    {
        out.push(v[i]);
        i = i + 1;
        assert(out@ =~= v@.take(i as int));
    }
    assert(v@.take(v.len() as int) =~= v@);
    out
}

fn clone_text(s: &Option<String>) -> (res: Option<String>)
    ensures
        res == *s,
{
    match s {
        Some(t) => Some(t.clone()),
        None => None,
    }
}

/// Restrict a structure element and its subtree to one page: `None` when
/// neither it nor any descendant belongs to the page.
pub fn filter_struct_element<B: Copy>(elem: &StructElement<B>, page_index: usize) -> (res: Option<
    StructElement<B>,
>)
    ensures
        match res {
            Some(r) => keeps_element(*elem, page_index) && restricted_element(r, *elem, page_index),
            None => !keeps_element(*elem, page_index),
        },
    decreases elem,
{
    let filtered_children = filter_struct_elements_for_page(&elem.children, page_index);
    proof {
        lemma_restricted_list_nonempty(filtered_children@, elem.children@, page_index);
    }
    let belongs_to_page = match elem.page_index {
        Some(p) => p == page_index,
        None => false,
    };
    let has_page_children = filtered_children.len() > 0;
    if belongs_to_page || has_page_children {
        let mcids = if belongs_to_page {
            clone_mcids(&elem.mcids)
        } else {
            Vec::new()
        };
        let element_type = elem.element_type.clone();
        Some(
            StructElement {
                element_type,
                mcids,
                alt_text: clone_text(&elem.alt_text),
                actual_text: clone_text(&elem.actual_text),
                lang: clone_text(&elem.lang),
                bbox: elem.bbox,
                children: filtered_children,
                page_index: elem.page_index,
            },
        )
    } else {
        None
    }
}

/// Restrict a list of structure elements to one page, keeping the elements
/// that belong to it or have a descendant that does, in document order.
pub fn filter_struct_elements_for_page<B: Copy>(
    elements: &Vec<StructElement<B>>,
    page_index: usize,
) -> (res: Vec<StructElement<B>>)
    ensures
        restricted_list(res@, elements@, page_index),
    decreases elements,
{
    let mut out: Vec<StructElement<B>> = Vec::new();
    let mut i: usize = 0;
    while i < elements.len()
        invariant
            i <= elements.len(),
            restricted_list(out@, elements@.take(i as int), page_index),
        decreases elements.len() - i,
    {
        let r = filter_struct_element(&elements[i], page_index);
        let ghost prev = out@;
        assert(elements@.take(i + 1).drop_last() =~= elements@.take(i as int));
        assert(elements@.take(i + 1).last() == elements@[i as int]);
        match r {
            Some(e) => {
                out.push(e);
                assert(out@.drop_last() =~= prev);
            },
            None => {},
        }
        i = i + 1;
    }
    assert(elements@.take(elements.len() as int) =~= elements@);
    out
}

/// A page's structure tree: `None` when the document has no structure tree
/// or none of it belongs to the page, otherwise the tree restricted to the page.
pub fn page_structure_tree<B: Copy>(tree: &Vec<StructElement<B>>, page_index: usize) -> (res: Option<
    Vec<StructElement<B>>,
>)
    ensures
        match res {
            None => !keeps_any(tree@, page_index),
            Some(v) => v@.len() > 0 && restricted_list(v@, tree@, page_index),
        },
{
    if tree.len() == 0 {
        return None;
    }
    let page_elements = filter_struct_elements_for_page(tree, page_index);
    proof {
        lemma_restricted_list_nonempty(page_elements@, tree@, page_index);
    }
    if page_elements.len() == 0 {
        None
    } else {
        Some(page_elements)
    }
}

proof fn lemma_keeps_any_index<B>(elems: Seq<StructElement<B>>, page: usize)
    ensures
        keeps_any(elems, page) <==> exists|i: int|
            0 <= i < elems.len() && #[trigger] keeps_element(elems[i], page),
    decreases elems.len(),
{
    if elems.len() > 0 {
        lemma_keeps_any_index(elems.drop_last(), page);
        if keeps_element(elems.last(), page) {
            assert(keeps_element(elems[elems.len() - 1], page));
        }
        if keeps_any(elems.drop_last(), page) {
            let i = choose|i: int|
                0 <= i < elems.drop_last().len() && #[trigger] keeps_element(
                    elems.drop_last()[i],
                    page,
                );
            assert(keeps_element(elems[i], page));
        }
        if exists|i: int| 0 <= i < elems.len() && #[trigger] keeps_element(elems[i], page) {
            let i = choose|i: int| 0 <= i < elems.len() && #[trigger] keeps_element(elems[i], page);
            if i < elems.len() - 1 {
                assert(keeps_element(elems.drop_last()[i], page));
            }
        }
    }
}

proof fn lemma_restricted_element_is_fixpoint<B>(
    res: StructElement<B>,
    src: StructElement<B>,
    page: usize,
)
    requires
        keeps_element(src, page),
        restricted_element(res, src, page),
    ensures
        keeps_element(res, page),
        restricted_element(res, res, page),
    decreases src,
{
    lemma_restricted_list_is_fixpoint(res.children@, src.children@, page);
    lemma_restricted_list_nonempty(res.children@, src.children@, page);
    if src.page_index != Some(page) {
        lemma_keeps_any_index(res.children@, page);
        assert(keeps_element(res.children@[res.children@.len() - 1], page));
    }
}

proof fn lemma_restricted_list_is_fixpoint<B>(
    res: Seq<StructElement<B>>,
    src: Seq<StructElement<B>>,
    page: usize,
)
    requires
        restricted_list(res, src, page),
    ensures
        forall|i: int| 0 <= i < res.len() ==> keeps_element(#[trigger] res[i], page),
        restricted_list(res, res, page),
    decreases src,
{
    if src.len() > 0 {
        if keeps_element(src.last(), page) {
            lemma_restricted_element_is_fixpoint(res.last(), src.last(), page);
            lemma_restricted_list_is_fixpoint(res.drop_last(), src.drop_last(), page);
            assert forall|i: int| 0 <= i < res.len() implies keeps_element(#[trigger] res[i], page) by {
                if i < res.len() - 1 {
                    assert(res.drop_last()[i] == res[i]);
                }
            }
        } else {
            lemma_restricted_list_is_fixpoint(res, src.drop_last(), page);
        }
    }
}

/// Restricting an already restricted structure tree to the same page changes
/// nothing: every element of the restriction stays in the page's tree, and the
/// restriction of the restriction is the restriction itself.
pub proof fn lemma_page_restriction_is_idempotent<B>(
    res: Seq<StructElement<B>>,
    src: Seq<StructElement<B>>,
    page: usize,
)
    requires
        restricted_list(res, src, page),
    ensures
        forall|i: int| 0 <= i < res.len() ==> keeps_element(#[trigger] res[i], page),
        restricted_list(res, res, page),
{
    lemma_restricted_list_is_fixpoint(res, src, page);
}

/// The restriction of a structure tree to a page is empty exactly when no
/// element of the tree belongs to that page.
pub proof fn lemma_page_restriction_empty_iff_page_absent<B>(
    res: Seq<StructElement<B>>,
    src: Seq<StructElement<B>>,
    page: usize,
)
    requires
        restricted_list(res, src, page),
    ensures
        res.len() == 0 <==> !keeps_any(src, page),
{
    lemma_restricted_list_nonempty(res, src, page);
}

} // verus!
