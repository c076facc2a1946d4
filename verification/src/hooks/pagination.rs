//! Page arithmetic: how many pages a row count needs, which page is current,
//! and which slice of the row order the current page shows.

use vstd::prelude::*;

verus! {

/// The number of pages needed to show `total_rows` rows with `page_size` rows
/// on each page: the quotient `total_rows / page_size`, rounded up.
pub open spec fn page_count(total_rows: nat, page_size: int) -> int
    recommends
        page_size > 0,
{
    if total_rows as int % page_size == 0 {
        total_rows as int / page_size
    } else {
        total_rows as int / page_size + 1
    }
}

/// `page_count`, held to what the `number_pages` field can count.
pub open spec fn number_pages_for(total_rows: nat, page_size: int) -> int
    recommends
        page_size > 0,
{
    if page_count(total_rows, page_size) <= i32::MAX {
        page_count(total_rows, page_size)
    } else {
        i32::MAX as int
    }
}

/// `page_count` is the ceiling of the quotient: the one `k` for which
/// `k - 1` pages are too few for `total_rows` rows and `k` pages are enough.
pub proof fn lemma_page_count_is_ceiling(total_rows: nat, page_size: int)
    requires
        page_size > 0,
    ensures
        page_count(total_rows, page_size) >= 0,
        (page_count(total_rows, page_size) - 1) * page_size < total_rows,
        total_rows <= page_count(total_rows, page_size) * page_size,
        total_rows == 0 <==> page_count(total_rows, page_size) == 0,
{
    let t = total_rows as int;
    let q = t / page_size;
    let r = t % page_size;
    assert(t == q * page_size + r && 0 <= r < page_size && q >= 0) by (nonlinear_arith)
        requires
            t >= 0,
            page_size > 0,
            q == t / page_size,
            r == t % page_size,
    ;
    assert((q + 1) * page_size == q * page_size + page_size) by (nonlinear_arith);
    assert((q - 1) * page_size == q * page_size - page_size) by (nonlinear_arith);
    if q == 0 {
        assert(q * page_size == 0) by (nonlinear_arith)
            requires
                q == 0,
        ;
    } else {
        assert(q * page_size >= page_size) by (nonlinear_arith)
            requires
                q >= 1,
                page_size > 0,
        ;
    }
}

/// No other number is that ceiling.
pub proof fn lemma_page_count_unique(total_rows: nat, page_size: int, k: int)
    requires
        page_size > 0,
        (k - 1) * page_size < total_rows <= k * page_size,
    ensures
        k == page_count(total_rows, page_size),
{
    lemma_page_count_is_ceiling(total_rows, page_size);
    let c = page_count(total_rows, page_size);
    if k < c {
        assert(k * page_size <= (c - 1) * page_size) by (nonlinear_arith)
            requires
                k <= c - 1,
                page_size > 0,
        ;
    } else if k > c {
        assert(c * page_size <= (k - 1) * page_size) by (nonlinear_arith)
            requires
                c <= k - 1,
                page_size > 0,
        ;
    }
}

/// Where a grid stands in its pages. Pages are counted from 1.
#[derive(Debug, Copy, Clone, PartialEq, Eq, Structural)]
pub struct Pagination {
    pub page: i32,
    pub number_pages: i32,
    pub page_size: i32,
    pub total_rows: usize,
}

impl Pagination {
    /// The last page that `page` may name: `number_pages`, or 1 for a grid
    /// without rows.
    pub open spec fn last_page(&self) -> int {
        if self.number_pages >= 1 {
            self.number_pages as int
        } else {
            1
        }
    }

    /// The page size is positive, the page count is the one that the row
    /// count and the page size give, and the current page is one of the pages.
    pub open spec fn wf(&self) -> bool {
        &&& self.page_size > 0
        &&& self.number_pages == number_pages_for(self.total_rows as nat, self.page_size as int)
        &&& 1 <= self.page <= self.last_page()
    }

    /// The pagination of `total_rows` rows, `page_size` to a page, standing on
    /// the first page.
    pub open spec fn derived(total_rows: usize, page_size: i32) -> Pagination {
        Pagination {
            page: 1,
            number_pages: number_pages_for(total_rows as nat, page_size as int) as i32,
            page_size,
            total_rows,
        }
    }

    /// The pagination of `total_rows` rows, `page_size` to a page, standing on
    /// the first page.
    pub fn new(total_rows: usize, page_size: i32) -> (p: Self)
        requires
            page_size > 0,
        ensures
            p == Self::derived(total_rows, page_size),
            p.page == 1,
            p.number_pages == number_pages_for(total_rows as nat, page_size as int),
            p.page_size == page_size,
            p.total_rows == total_rows,
            p.wf(),
    {
        let size: usize = page_size as usize;
        let whole: usize = total_rows / size;
        let rest: usize = total_rows % size;
        proof {
            lemma_page_count_is_ceiling(total_rows as nat, page_size as int);
            assert(total_rows as int == (total_rows as int / page_size as int) * page_size
                + total_rows as int % page_size as int) by (nonlinear_arith)
                requires
                    page_size > 0,
            ;
        }
        let number_pages: i32 = if rest == 0 {
            if whole > i32::MAX as usize {
                i32::MAX
            } else {
                whole as i32
            }
        } else {
            assert(whole * 2 <= total_rows) by (nonlinear_arith)
                requires
                    total_rows == whole * size + rest,
                    0 < rest < size,
                    whole >= 0,
            ;
            if whole >= i32::MAX as usize {
                i32::MAX
            } else {
                (whole + 1) as i32
            }
        };
        Pagination { page: 1, number_pages, page_size, total_rows }
    }

    /// This pagination, standing on `page`.
    pub open spec fn on_page(&self, page: int) -> Pagination {
        Pagination {
            page: page as i32,
            number_pages: self.number_pages,
            page_size: self.page_size,
            total_rows: self.total_rows,
        }
    }

    /// One page on, but not beyond the last page.
    pub open spec fn incremented(&self) -> Pagination {
        if self.page + 1 <= self.last_page() {
            self.on_page(self.page + 1)
        } else {
            self.on_page(self.last_page())
        }
    }

    /// One page back, but not before the first page.
    pub open spec fn decremented(&self) -> Pagination {
        if self.page - 1 >= 1 {
            self.on_page(self.page - 1)
        } else {
            self.on_page(1)
        }
    }

    /// On page `n`, or on the nearest page there is.
    pub open spec fn jumped_to(&self, n: int) -> Pagination {
        if n < 1 {
            self.on_page(1)
        } else if n > self.last_page() {
            self.on_page(self.last_page())
        } else {
            self.on_page(n)
        }
    }

    /// The last page that `page` may name.
    fn last(&self) -> (last: i32)
        ensures
            last == self.last_page(),
    {
        if self.number_pages >= 1 {
            self.number_pages
        } else {
            1
        }
    }

    /// The pagination one page on. On the last page it stays where it is.
    pub fn increment(&self) -> (next: Pagination)
        ensures
            next == self.incremented(),
            self.wf() ==> next.wf(),
            self.wf() && self.page == self.number_pages ==> next == *self,
    {
        let last = self.last();
        let page = if self.page >= last {
            last
        } else {
            self.page + 1
        };
        Pagination {
            page,
            number_pages: self.number_pages,
            page_size: self.page_size,
            total_rows: self.total_rows,
        }
    }

    /// The pagination one page back. On the first page it stays where it is.
    pub fn decrement(&self) -> (next: Pagination)
        ensures
            next == self.decremented(),
            self.wf() ==> next.wf(),
            self.page == 1 ==> next == *self,
    {
        let page = if self.page <= 1 {
            1
        } else {
            self.page - 1
        };
        Pagination {
            page,
            number_pages: self.number_pages,
            page_size: self.page_size,
            total_rows: self.total_rows,
        }
    }

    /// The pagination on page `n`. A page that does not exist is no error:
    /// the nearest page is taken.
    pub fn jump_to(&self, n: i32) -> (next: Pagination)
        ensures
            next == self.jumped_to(n as int),
            1 <= next.page <= self.last_page(),
            1 <= n <= self.last_page() ==> next.page == n,
            self.wf() ==> next.wf(),
    {
        let last = self.last();
        let page = if n < 1 {
            1
        } else if n > last {
            last
        } else {
            n
        };
        Pagination {
            page,
            number_pages: self.number_pages,
            page_size: self.page_size,
            total_rows: self.total_rows,
        }
    }
}

/// `n`, held between `low` and `high`.
pub open spec fn held_between(n: int, low: int, high: int) -> int {
    if n < low {
        low
    } else if n > high {
        high
    } else {
        n
    }
}

/// The place in an order of `len` rows at which the page of `p` begins:
/// `(page - 1) * page_size`, held to the order.
pub open spec fn window_start(p: Pagination, len: nat) -> int {
    held_between((p.page - 1) * p.page_size, 0, len as int)
}

/// The place at which the page of `p` ends: one page size after its
/// beginning, held to what is left of the order.
pub open spec fn window_end(p: Pagination, len: nat) -> int {
    held_between((p.page - 1) * p.page_size + p.page_size, window_start(p, len), len as int)
}

/// The slice of `order` that the page of `p` shows.
pub open spec fn page_window<T>(p: Pagination, order: Seq<T>) -> Seq<T> {
    order.subrange(window_start(p, order.len()), window_end(p, order.len()))
}

/// The window of a page lies within the order.
pub proof fn lemma_window_bounds(p: Pagination, len: nat)
    ensures
        0 <= window_start(p, len) <= window_end(p, len) <= len,
{
}

/// The pages divide the order among them: with the page count that the
/// length of the order and the page size give, every page before the last
/// shows `page_size` rows, beginning at `(page - 1) * page_size`, and the last
/// page shows the rows that are left, at least one and at most `page_size`.
pub proof fn lemma_window_len(p: Pagination, len: nat)
    requires
        p.page_size > 0,
        p.number_pages == page_count(len, p.page_size as int),
        1 <= p.page <= p.number_pages,
    ensures
        window_start(p, len) == (p.page - 1) * p.page_size,
        p.page < p.number_pages ==> window_end(p, len) - window_start(p, len) == p.page_size,
        p.page == p.number_pages ==> window_end(p, len) == len,
        p.page == p.number_pages ==> 1 <= len - window_start(p, len) <= p.page_size,
{
    lemma_page_count_is_ceiling(len, p.page_size as int);
    let size = p.page_size as int;
    let pages = p.number_pages as int;
    let page = p.page as int;
    assert((page - 1) * size >= 0) by (nonlinear_arith)
        requires
            page >= 1,
            size > 0,
    ;
    assert((page - 1) * size + size == page * size) by (nonlinear_arith);
    assert((pages - 1) * size + size == pages * size) by (nonlinear_arith);
    if page < pages {
        assert(page * size <= (pages - 1) * size) by (nonlinear_arith)
            requires
                page <= pages - 1,
                size > 0,
        ;
    }
}

/// The identities that the page of `p` shows, out of `data_indexes`, the
/// identities in presentation order. A page that begins beyond the order
/// shows nothing.
pub fn get_page_view(p: &Pagination, data_indexes: &Vec<String>) -> (view: Vec<String>)
    ensures
        view@ == page_window(*p, data_indexes@),
        view.deep_view() == page_window(*p, data_indexes.deep_view()),
        data_indexes.len() == 0 ==> view.len() == 0,
{
    let len: usize = data_indexes.len();
    let before: i64 = p.page as i64 - 1;
    let size: i64 = p.page_size as i64;
    assert(-0x4000_0000_8000_0000 <= before * size <= 0x4000_0000_8000_0000) by (nonlinear_arith)
        requires
            -0x8000_0001 <= before <= 0x7fff_fffe,
            -0x8000_0000 <= size <= 0x7fff_ffff,
    ;
    let start: i64 = before * size;
    let end: i64 = start + size;
    let low: usize = if start <= 0 {
        0
    } else if start as u64 >= len as u64 {
        len
    } else {
        start as usize
    };
    let high: usize = if end <= low as i64 {
        low
    } else if end as u64 >= len as u64 {
        len
    } else {
        end as usize
    };
    let mut view: Vec<String> = Vec::new();
    let mut i: usize = low;
    while i < high
        invariant
            low <= i <= high <= data_indexes.len(),
            view@ == data_indexes@.subrange(low as int, i as int),
        decreases high - i,
    {
        view.push(data_indexes[i].clone());
        assert(view@ =~= data_indexes@.subrange(low as int, i + 1));
        i += 1;
    }
    assert(view.deep_view() =~= data_indexes.deep_view().subrange(low as int, high as int));
    view
}

} // verus!
