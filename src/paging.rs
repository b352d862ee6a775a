use vstd::prelude::*;

verus! {

/// The page count in force after the response to `page`: the first page's
/// response fixes it, later responses cannot change it.
pub open spec fn known_pages(page: int, pages: int, reported: int) -> int {
    if page == 1 {
        reported
    } else {
        pages
    }
}

/// The page to request after the response to `page`, if the listing goes on.
pub open spec fn following_page(page: int, pages: int, reported: int) -> Option<int> {
    if page < known_pages(page, pages, reported) {
        Some(page + 1)
    } else {
        None
    }
}

/// The pages requested, in order, starting with `page`, when the responses
/// report the page counts of `reports` one after another.
pub open spec fn requested_pages(page: int, pages: int, reports: Seq<int>) -> Seq<int>
    decreases reports.len(),
{
    if reports.len() == 0 {
        seq![page]
    } else {
        match following_page(page, pages, reports[0]) {
            Some(next) => seq![page] + requested_pages(
                next,
                known_pages(page, pages, reports[0]),
                reports.drop_first(),
            ),
            None => seq![page],
        }
    }
}

/// The pages `1, 2, ..., n`.
pub open spec fn pages_up_to(n: int) -> Seq<int> {
    Seq::new(n as nat, |i: int| i + 1)
}

/// Items of the pages of a listing, in page order.
pub open spec fn concat<T>(pages: Seq<Seq<T>>) -> Seq<T>
    decreases pages.len(),
{
    if pages.len() == 0 {
        Seq::empty()
    } else {
        concat(pages.drop_last()) + pages.last()
    }
}

/// The sum of the page sizes.
pub open spec fn total_len<T>(pages: Seq<Seq<T>>) -> int
    decreases pages.len(),
{
    if pages.len() == 0 {
        0
    } else {
        total_len(pages.drop_last()) + pages.last().len()
    }
}

/// Where a listing stands: the page last requested and the page count that
/// its first response reported (0 until then).
#[derive(Debug, Clone, Copy)]
pub struct PageCursor {
    pub page: u64,
    pub pages: u64,
}

impl PageCursor {
    /// Well-formed: pages are 1-indexed, and a page past the first is only
    /// requested when the first response reported it.
    pub open spec fn wf(self) -> bool {
        &&& self.page >= 1
        &&& self.page > 1 ==> self.page <= self.pages
    }

    /// A listing whose first page is about to be requested.
    pub fn new() -> (r: PageCursor)
        ensures
            r.page == 1,
            r.pages == 0,
            r.wf(),
    {
        PageCursor { page: 1, pages: 0 }
    }

    /// Takes in the page count reported by the response to the current page
    /// and tells whether another page must be requested; if so, it becomes
    /// the current page.
    pub fn advance(&mut self, reported: u64) -> (more: bool)
        requires
            old(self).wf(),
        ensures
            final(self).wf(),
            final(self).pages == known_pages(old(self).page as int, old(self).pages as int, reported as int),
            more == following_page(old(self).page as int, old(self).pages as int, reported as int) is Some,
            more ==> final(self).page == old(self).page + 1,
            !more ==> final(self).page == old(self).page,
    {
        if self.page == 1 {
            self.pages = reported;
        }
        if self.page < self.pages {
            self.page = self.page + 1;
            true
        } else {
            false
        }
    }
}

proof fn lemma_later_pages(page: int, pages: int, reports: Seq<int>)
    requires
        2 <= page <= pages,
        reports.len() >= pages - page + 1,
    ensures
        requested_pages(page, pages, reports) == Seq::new((pages - page + 1) as nat, |i: int| page + i),
    decreases pages - page,
{
    let want = Seq::new((pages - page + 1) as nat, |i: int| page + i);
    if page < pages {
        lemma_later_pages(page + 1, pages, reports.drop_first());
        assert(requested_pages(page, pages, reports) =~= want);
    } else {
        assert(requested_pages(page, pages, reports) =~= want);
    }
}

/// Pagination order and completeness: when the first response of a listing
/// reports `p` pages, and whatever later responses report, the pages
/// requested are exactly `1, 2, ..., p` in increasing order (one request in
/// all when `p` is 0 or 1, so a single-page listing has no page loop).
pub proof fn lemma_pages_requested(p: int, reports: Seq<int>)
    requires
        reports.len() >= 1,
        reports[0] == p,
        reports.len() >= p,
    ensures
        p >= 1 ==> requested_pages(1, 0, reports) == pages_up_to(p),
        p <= 1 ==> requested_pages(1, 0, reports) == seq![1int],
        p >= 1 ==> requested_pages(1, 0, reports).len() == p,
        forall|i: int, j: int|
            0 <= i < j < requested_pages(1, 0, reports).len() ==> requested_pages(1, 0, reports)[i]
                < requested_pages(1, 0, reports)[j],
{
    let got = requested_pages(1, 0, reports);
    if p > 1 {
        lemma_later_pages(2, p, reports.drop_first());
        assert(got =~= pages_up_to(p));
    } else {
        assert(got =~= seq![1int]);
        if p == 1 {
            assert(got =~= pages_up_to(p));
        }
    }
}

/// Pagination completeness of the items: the items observed over the pages of
/// a listing number exactly the sum of the page sizes, so they number the
/// reported `results` whenever the pages hold that many.
pub proof fn lemma_items_observed<T>(pages: Seq<Seq<T>>, results: int)
    requires
        total_len(pages) == results,
    ensures
        concat(pages).len() == results,
    decreases pages.len(),
{
    if pages.len() > 0 {
        lemma_items_observed(pages.drop_last(), total_len(pages.drop_last()));
    }
}

} // verus!
