//! Page selection and on-demand, double-ended iteration over page indices.
//!
//! The iterator decides which zero-based page is extracted next; the caller
//! extracts that page.

use vstd::prelude::*;

verus! {

/// A collection view over the pages of a document with a known page count.
#[derive(Debug, Clone, Copy)]
pub struct Pages {
    page_count: usize,
}

/// Iterator over the zero-based page indices `front..back` that remain to be yielded.
#[derive(Debug, Clone, Copy)]
pub struct PagesIter {
    front: usize,
    back: usize,
}

/// The indices `front..back`, in increasing order.
pub open spec fn index_range(front: int, back: int) -> Seq<usize> {
    Seq::new((back - front) as nat, |i: int| (front + i) as usize)
}

impl Pages {
    /// The number of pages this view covers.
    pub closed spec fn count(&self) -> nat {
        self.page_count as nat
    }

    /// A view over `page_count` pages.
    pub fn new(page_count: usize) -> (res: Pages)
        ensures
            res.count() == page_count,
    {
        Pages { page_count }
    }

    /// Return the number of pages without interpreting their content streams.
    pub fn len(&self) -> (res: usize)
        ensures
            res == self.count(),
    {
        self.page_count
    }

    /// Return `true` when the document contains no pages.
    pub fn is_empty(&self) -> (res: bool)
        ensures
            res == (self.count() == 0),
    {
        self.len() == 0
    }

    /// Select one page by zero-based index: `Some(index)` when the page exists,
    /// `None` when the index is out of range.
    pub fn get(&self, index: usize) -> (res: Option<usize>)
        ensures
            res == (if index < self.count() { Some(index) } else { None::<usize> }),
    {
        if index < self.page_count {
            Some(index)
        } else {
            None
        }
    }

    /// A lazy iterator over all page indices from front to back.
    pub fn iter(&self) -> (res: PagesIter)
        ensures
            res.remaining() == index_range(0, self.count() as int),
    {
        PagesIter { front: 0, back: self.page_count }
    }
}

impl PagesIter {
    /// The iterator's own invariant: the front never passes the back.
    #[verifier::type_invariant]
    pub closed spec fn wf(&self) -> bool {
        self.front <= self.back
    }

    /// The indices still to be yielded, in front-to-back order.
    pub closed spec fn remaining(&self) -> Seq<usize> {
        index_range(self.front as int, self.back as int)
    }

    /// Yield the next index from the front, or `None` once exhausted.
    pub fn next(&mut self) -> (res: Option<usize>)
        ensures
            old(self).remaining().len() == 0 ==> res is None && final(self).remaining() == old(
                self,
            ).remaining(),
            old(self).remaining().len() > 0 ==> res == Some(old(self).remaining()[0])
                && final(self).remaining() == old(self).remaining().drop_first(),
    {
        proof {
            use_type_invariant(&*self);
        }
        if self.front >= self.back {
            assert(self.remaining().len() == 0);
            return None;
        }
        let index = self.front;
        self.front = self.front + 1;
        assert(self.remaining() =~= old(self).remaining().drop_first());
        Some(index)
    }

    /// Yield the next index from the back, or `None` once exhausted.
    pub fn next_back(&mut self) -> (res: Option<usize>)
        ensures
            old(self).remaining().len() == 0 ==> res is None && final(self).remaining() == old(
                self,
            ).remaining(),
            old(self).remaining().len() > 0 ==> res == Some(old(self).remaining().last())
                && final(self).remaining() == old(self).remaining().drop_last(),
    {
        proof {
            use_type_invariant(&*self);
        }
        if self.front >= self.back {
            return None;
        }
        self.back = self.back - 1;
        assert(self.remaining() =~= old(self).remaining().drop_last());
        Some(self.back)
    }

    /// The exact number of indices left, as `(lower, Some(upper))`.
    pub fn size_hint(&self) -> (res: (usize, Option<usize>))
        ensures
            res.0 == self.remaining().len(),
            res.1 == Some(res.0),
    {
        proof {
            use_type_invariant(self);
        }
        let remaining = self.back - self.front;
        (remaining, Some(remaining))
    }

    /// The exact number of indices left.
    pub fn len(&self) -> (res: usize)
        ensures
            res == self.remaining().len(),
    {
        proof {
            use_type_invariant(self);
        }
        self.back - self.front
    }
}

/// Iterating a fresh view from the front yields every page index exactly once,
/// in increasing order, and ends with the count: the `k`-th index yielded is `k`.
pub proof fn lemma_iteration_yields_each_page_once(pages: Pages, k: int)
    requires
        0 <= k < pages.count(),
    ensures
        index_range(0, pages.count() as int)[k] == k,
        index_range(0, pages.count() as int).len() == pages.count(),
        index_range(0, pages.count() as int).no_duplicates(),
{
    let s = index_range(0, pages.count() as int);
    assert forall|i: int, j: int| 0 <= i < s.len() && 0 <= j < s.len() && i != j implies s[i]
        != s[j] by {}
}

/// Taking `front` indices from the front and `back` indices from the back of
/// a fresh iterator over `count` pages never repeats or skips a page: the
/// front yields `0..front`, the back yields `count - back..count`, and what
/// remains lies between them, together exactly `0..count`.
pub proof fn lemma_double_ended_iteration(count: int, front: int, back: int)
    requires
        0 <= front,
        0 <= back,
        front + back <= count <= usize::MAX,
    ensures
        index_range(0, front) + index_range(front, count - back) + index_range(count - back, count)
            == index_range(0, count),
        index_range(0, count).no_duplicates(),
{
    assert(index_range(0, front) + index_range(front, count - back) + index_range(
        count - back,
        count,
    ) =~= index_range(0, count));
    let s = index_range(0, count);
    assert forall|i: int, j: int| 0 <= i < s.len() && 0 <= j < s.len() && i != j implies s[i]
        != s[j] by {}
}

} // verus!
