//! Pages of a listing: which rows a page holds, and how many pages there
//! are.

use vstd::prelude::*;
use vstd::arithmetic::div_mod::{lemma_fundamental_div_mod, lemma_mod_bound};
use crate::error::Error;

verus! {

/// The number of rows on a page where the caller names none.
pub const PACKAGES_PER_PAGE: i64 = 10;

/// The page a caller gets where it names none.
pub const FIRST_PAGE: i64 = 1;

/// The number of pages that `total` rows fill at `per_page` rows a page:
/// `total / per_page`, rounded up. No rows fill no page.
pub open spec fn page_count(total: int, per_page: int) -> int {
    if total <= 0 || per_page <= 0 {
        0
    } else {
        (total + per_page - 1) / per_page
    }
}

/// The position of the first row of page `page`, counting pages from one.
pub open spec fn page_start(page: int, per_page: int) -> int {
    (page - 1) * per_page
}

/// The position of the first row of page `page` among `total` rows, or
/// `total` where the page lies behind the last row.
pub open spec fn page_first(total: int, page: int, per_page: int) -> int {
    if page_start(page, per_page) >= total {
        total
    } else {
        page_start(page, per_page)
    }
}

/// The position just behind the last row of page `page` among `total` rows.
pub open spec fn page_end(total: int, page: int, per_page: int) -> int {
    if page_start(page, per_page) + per_page >= total {
        total
    } else {
        page_start(page, per_page) + per_page
    }
}

/// The rows of page `page`: at most `per_page` rows from `page_start` on,
/// and none where the page lies behind the last row.
pub open spec fn page_of<T>(rows: Seq<T>, page: int, per_page: int) -> Seq<T> {
    rows.subrange(
        page_first(rows.len() as int, page, per_page),
        page_end(rows.len() as int, page, per_page),
    )
}

/// The page number a request asks for: the first page where it names none.
pub open spec fn requested_page(page: Option<i64>) -> int {
    match page {
        Some(p) => p as int,
        None => FIRST_PAGE as int,
    }
}

/// The page size a request asks for: the default where it names none.
pub open spec fn requested_size(per_page: Option<i64>) -> int {
    match per_page {
        Some(n) => n as int,
        None => PACKAGES_PER_PAGE as int,
    }
}

/// Whether a request names a page and a page size that exist: both at
/// least one.
pub open spec fn valid_request(page: Option<i64>, per_page: Option<i64>) -> bool {
    requested_page(page) >= 1 && requested_size(per_page) >= 1
}

/// The page number and the page size of a request, with the defaults
/// filled in. Fails with `InvalidPage` where either is below one.
pub fn resolve_request(page: Option<i64>, per_page: Option<i64>) -> (result: Result<
    (i64, i64),
    Error,
>)
    ensures
        match result {
            Ok((p, n)) => valid_request(page, per_page) && p == requested_page(page) && n
                == requested_size(per_page),
            Err(e) => !valid_request(page, per_page) && e == Error::InvalidPage,
        },
{
    let p = match page {
        Some(p) => p,
        None => FIRST_PAGE,
    };
    let n = match per_page {
        Some(n) => n,
        None => PACKAGES_PER_PAGE,
    };
    if p < 1 || n < 1 {
        Err(Error::InvalidPage)
    } else {
        Ok((p, n))
    }
}

/// The number of pages that `total` rows fill at `per_page` rows a page.
pub fn total_pages(total: i64, per_page: i64) -> (pages: i64)
    requires
        per_page >= 1,
    ensures
        pages == page_count(total as int, per_page as int),
        total > 0 ==> 1 <= pages <= total,
{
    if total <= 0 {
        return 0;
    }
    let full = total / per_page;
    let rest = total % per_page;
    proof {
        lemma_page_count(total as int, per_page as int);
    }
    if rest == 0 {
        full
    } else {
        full + 1
    }
}

/// Rounding up in terms of quotient and remainder.
pub proof fn lemma_page_count(total: int, per_page: int)
    requires
        total > 0,
        per_page >= 1,
    ensures
        page_count(total, per_page) == total / per_page + if total % per_page == 0 {
            0int
        } else {
            1int
        },
        1 <= page_count(total, per_page) <= total,
        (page_count(total, per_page) - 1) * per_page < total <= page_count(total, per_page)
            * per_page,
{
    let q = total / per_page;
    let r = total % per_page;
    lemma_fundamental_div_mod(total, per_page);
    lemma_mod_bound(total, per_page);
    assert(total == per_page * q + r);
    assert(0 <= r < per_page);
    let shifted = total + per_page - 1;
    lemma_fundamental_div_mod(shifted, per_page);
    lemma_mod_bound(shifted, per_page);
    let sq = shifted / per_page;
    let sr = shifted % per_page;
    assert(shifted == per_page * sq + sr);
    let expect = if r == 0 {
        q
    } else {
        q + 1
    };
    // both decompositions of `shifted` by `per_page` agree
    assert(sq == expect) by {
        let er = if r == 0 {
            per_page - 1
        } else {
            r - 1
        };
        assert(per_page * expect + er == shifted) by (nonlinear_arith)
            requires
                total == per_page * q + r,
                shifted == total + per_page - 1,
                expect == (if r == 0 { q } else { q + 1 }),
                er == (if r == 0 { per_page - 1 } else { r - 1 }),
        ;
        assert(0 <= er < per_page);
        assert(sq == expect) by (nonlinear_arith)
            requires
                per_page * sq + sr == per_page * expect + er,
                0 <= sr < per_page,
                0 <= er < per_page,
                per_page >= 1,
        ;
    }
    assert(q >= 0 && (q >= 1 || r > 0) && q <= total && (r > 0 ==> q + 1 <= total))
        by (nonlinear_arith)
        requires
            total == per_page * q + r,
            0 <= r < per_page,
            total > 0,
            per_page >= 1,
    ;
    assert((expect - 1) * per_page < total <= expect * per_page) by (nonlinear_arith)
        requires
            total == per_page * q + r,
            0 <= r < per_page,
            expect == (if r == 0 { q } else { q + 1 }),
            per_page >= 1,
    ;
}

/// The positions `(first, end)` of the rows of page `page` among `total`
/// rows: the page holds the rows from `first` up to, not including, `end`.
pub fn page_bounds(total: i64, page: i64, per_page: i64) -> (bounds: (i64, i64))
    requires
        total >= 0,
        page >= 1,
        per_page >= 1,
    ensures
        bounds.0 == page_first(total as int, page as int, per_page as int),
        bounds.1 == page_end(total as int, page as int, per_page as int),
        0 <= bounds.0 <= bounds.1 <= total,
{
    assert(page_start(page as int, per_page as int) >= 0) by (nonlinear_arith)
        requires
            page >= 1,
            per_page >= 1,
    ;
    let first = match (page - 1).checked_mul(per_page) {
        Some(start) => if start >= total {
            total
        } else {
            start
        },
        None => total,
    };
    let end = if per_page >= total - first {
        total
    } else {
        first + per_page
    };
    (first, end)
}

/// A page holds at most `per_page` rows; every page before the last holds
/// exactly that many, and a page behind the last holds none.
pub proof fn lemma_page_len<T>(rows: Seq<T>, page: int, per_page: int)
    requires
        page >= 1,
        per_page >= 1,
    ensures
        page_of(rows, page, per_page).len() <= per_page,
        page < page_count(rows.len() as int, per_page) ==> page_of(rows, page, per_page).len()
            == per_page,
        page > page_count(rows.len() as int, per_page) ==> page_of(rows, page, per_page).len()
            == 0,
        page == page_count(rows.len() as int, per_page) ==> page_of(rows, page, per_page).len()
            == rows.len() - (page - 1) * per_page,
{
    let total = rows.len() as int;
    let start = page_start(page, per_page);
    assert(start >= 0) by (nonlinear_arith)
        requires
            start == (page - 1) * per_page,
            page >= 1,
            per_page >= 1,
    ;
    if total > 0 {
        lemma_page_count(total, per_page);
        let pages = page_count(total, per_page);
        if page < pages {
            assert(start + per_page <= total) by (nonlinear_arith)
                requires
                    start == (page - 1) * per_page,
                    page <= pages - 1,
                    (pages - 1) * per_page < total,
                    per_page >= 1,
            ;
        }
        if page == pages {
            assert(start < total && start + per_page >= total) by (nonlinear_arith)
                requires
                    start == (page - 1) * per_page,
                    page == pages,
                    (pages - 1) * per_page < total,
                    total <= pages * per_page,
            ;
        }
        if page > pages {
            assert(start >= total) by (nonlinear_arith)
                requires
                    start == (page - 1) * per_page,
                    page - 1 >= pages,
                    total <= pages * per_page,
                    per_page >= 1,
            ;
        }
    }
}

} // verus!
