//! Slicing of a full ordered candidate set into fixed-size pages.

use vstd::prelude::*;
use vstd::slice::slice_subrange;

verus! {

/// Threads shown on one page of the thread listing.
pub const THREADS_PER_PAGE: usize = 50;

/// Moderation-log entries shown on one page of the log listing.
pub const ADMIN_LOGS_PER_PAGE: usize = 50;

/// Posts shown on one page of a thread.
pub const POSTS_PER_PAGE: usize = 30;

/// Records shown on one page of a user's activity feed.
pub const USER_RECORDS_PER_PAGE: usize = 30;

/// Comments shown on one page of a post.
pub const COMMENTS_PER_PAGE: usize = 10;

/// A page number beyond the last page of a non-empty set.
#[derive(Debug, Clone, Copy, PartialEq, Eq, Structural)]
pub struct OutOfRange;

/// Number of pages needed for `len` items: `len / page_size` rounded up.
pub open spec fn total_pages(len: nat, page_size: nat) -> nat {
    if len == 0 {
        0
    } else {
        ((len - 1) / (page_size as int) + 1) as nat
    }
}

/// Position of the first item of page `page_number` (1-based), clamped to
/// the length of the set.
pub open spec fn page_start(len: nat, page_number: nat, page_size: nat) -> int {
    if (page_number - 1) * page_size <= len {
        (page_number - 1) * page_size
    } else {
        len as int
    }
}

/// Position just past the last item of page `page_number`, clamped to the
/// length of the set.
pub open spec fn page_end(len: nat, page_number: nat, page_size: nat) -> int {
    if page_number * page_size <= len {
        (page_number * page_size) as int
    } else {
        len as int
    }
}

/// The items of page `page_number` (1-based) of `full`.
pub open spec fn page_slice<T>(full: Seq<T>, page_number: nat, page_size: nat) -> Seq<T> {
    full.subrange(
        page_start(full.len(), page_number, page_size),
        page_end(full.len(), page_number, page_size),
    )
}

/// What `paginate` returns for a given set, page number and page size.
pub open spec fn page_of<T>(full: Seq<T>, page_number: nat, page_size: nat) -> Result<
    (Seq<T>, nat),
    OutOfRange,
> {
    if full.len() > 0 && page_number > total_pages(full.len(), page_size) {
        Err(OutOfRange)
    } else {
        Ok((page_slice(full, page_number, page_size), total_pages(full.len(), page_size)))
    }
}

/// The first `pages` pages of `full`, one after the other.
pub open spec fn pages_joined<T>(full: Seq<T>, pages: nat, page_size: nat) -> Seq<T>
    decreases pages,
{
    if pages == 0 {
        Seq::empty()
    } else {
        pages_joined(full, (pages - 1) as nat, page_size) + page_slice(full, pages, page_size)
    }
}

/// The page count is the least number of pages that holds every item.
pub proof fn lemma_total_pages_bounds(len: nat, page_size: nat)
    requires
        page_size >= 1,
    ensures
        total_pages(len, page_size) * page_size >= len,
        len > 0 ==> (total_pages(len, page_size) - 1) * page_size < len,
        len > 0 ==> total_pages(len, page_size) >= 1,
        total_pages(len, page_size) <= len,
{
    if len > 0 {
        let n = (len - 1) as int;
        let d = page_size as int;
        let q = n / d;
        assert(n == d * q + n % d && 0 <= n % d < d && q >= 0 && q <= n) by (nonlinear_arith)
            requires
                d >= 1,
                n >= 0,
                q == n / d,
        ;
        assert((q + 1) * d == d * q + d) by (nonlinear_arith);
        assert(q * d == d * q) by (nonlinear_arith);
    } else {
        assert(0 * page_size == 0) by (nonlinear_arith);
    }
}

/// Every page within the page count starts inside the set, and consecutive
/// pages are adjacent.
pub proof fn lemma_page_bounds(len: nat, page_number: nat, page_size: nat)
    requires
        page_size >= 1,
        page_number >= 1,
    ensures
        0 <= page_start(len, page_number, page_size) <= page_end(len, page_number, page_size)
            <= len,
        page_number <= total_pages(len, page_size) ==> page_start(len, page_number, page_size)
            == (page_number - 1) * page_size,
        page_number <= total_pages(len, page_size) ==> page_start(len, page_number, page_size)
            < len,
        page_number > 1 ==> page_start(len, page_number, page_size) == page_end(
            len,
            (page_number - 1) as nat,
            page_size,
        ),
        page_number == 1 ==> page_start(len, page_number, page_size) == 0,
{
    lemma_total_pages_bounds(len, page_size);
    let p = page_number as int;
    let d = page_size as int;
    assert((p - 1) * d + d == p * d) by (nonlinear_arith);
    assert((p - 1) * d >= 0) by (nonlinear_arith)
        requires
            p >= 1,
            d >= 1,
    ;
    if page_number <= total_pages(len, page_size) {
        let t = total_pages(len, page_size) as int;
        assert((p - 1) * d <= (t - 1) * d) by (nonlinear_arith)
            requires
                p <= t,
                d >= 1,
        ;
    }
}

/// The first `pages` pages together are the items before the end of the
/// last of them.
pub proof fn lemma_pages_joined_prefix<T>(full: Seq<T>, pages: nat, page_size: nat)
    requires
        page_size >= 1,
    ensures
        pages_joined(full, pages, page_size) == full.take(
            page_end(full.len(), pages, page_size),
        ),
    decreases pages,
{
    let len = full.len();
    if pages == 0 {
        assert(0 * page_size == 0) by (nonlinear_arith);
        assert(full.take(0) =~= Seq::<T>::empty());
    } else {
        lemma_pages_joined_prefix(full, (pages - 1) as nat, page_size);
        lemma_page_bounds(len, pages, page_size);
        if pages == 1 {
            assert(0 * page_size == 0) by (nonlinear_arith);
        }
        let start = page_start(len, pages, page_size);
        let end = page_end(len, pages, page_size);
        assert(start == page_end(len, (pages - 1) as nat, page_size));
        assert(full.take(start) + full.subrange(start, end) =~= full.take(end));
    }
}

/// Joining all the pages of a set, in order, gives back the set: each item
/// stands on exactly one page, at its own place.
pub proof fn lemma_pages_reconstruct<T>(full: Seq<T>, page_size: nat)
    requires
        page_size >= 1,
    ensures
        pages_joined(full, total_pages(full.len(), page_size), page_size) == full,
{
    let pages = total_pages(full.len(), page_size);
    lemma_pages_joined_prefix(full, pages, page_size);
    lemma_total_pages_bounds(full.len(), page_size);
    assert(full.take(full.len() as int) =~= full);
}

/// Equal inputs give equal pages: what `paginate` returns is a function of
/// the set, the page number and the page size alone.
pub proof fn lemma_paginate_deterministic<T>(
    full: Seq<T>,
    page_number: nat,
    page_size: nat,
    first: Result<(Seq<T>, nat), OutOfRange>,
    second: Result<(Seq<T>, nat), OutOfRange>,
)
    requires
        first == page_of(full, page_number, page_size),
        second == page_of(full, page_number, page_size),
    ensures
        first == second,
{
}

/// The page after the last one is out of range on a non-empty set, and the
/// first page of an empty set is an empty page of a set with no pages.
pub proof fn lemma_page_past_the_end<T>(full: Seq<T>, page_size: nat)
    requires
        page_size >= 1,
    ensures
        full.len() > 0 ==> page_of(full, total_pages(full.len(), page_size) + 1, page_size)
            == Err::<(Seq<T>, nat), OutOfRange>(OutOfRange),
        full.len() == 0 ==> page_of(full, 1, page_size) == Ok::<(Seq<T>, nat), OutOfRange>(
            (Seq::<T>::empty(), 0nat),
        ),
{
    if full.len() == 0 {
        lemma_page_bounds(0, 1, page_size);
        assert(page_slice(full, 1, page_size) =~= Seq::<T>::empty());
    }
}

/// A set that fits on one page is that page.
pub proof fn lemma_single_page_is_whole<T>(full: Seq<T>, page_size: nat)
    requires
        page_size >= 1,
        total_pages(full.len(), page_size) == 1,
    ensures
        page_slice(full, 1, page_size) == full,
{
    lemma_total_pages_bounds(full.len(), page_size);
    lemma_page_bounds(full.len(), 1, page_size);
    assert(1 * page_size == page_size) by (nonlinear_arith);
    assert(page_slice(full, 1, page_size) =~= full);
}

/// The positions between which page `page_number` of a set of `len` items
/// lies.
pub fn page_bounds(len: usize, page_number: u32, page_size: usize) -> (bounds: (usize, usize))
    requires
        page_number >= 1,
        page_size >= 1,
    ensures
        bounds.0 == page_start(len as nat, page_number as nat, page_size as nat),
        bounds.1 == page_end(len as nat, page_number as nat, page_size as nat),
        bounds.0 <= bounds.1 <= len,
{
    let before: usize = (page_number - 1) as usize;
    let whole: usize = len / page_size;
    proof {
        let p = page_number as int;
        let d = page_size as int;
        let n = len as int;
        let q = whole as int;
        assert(n == d * q + n % d && 0 <= n % d < d) by (nonlinear_arith)
            requires
                d >= 1,
                n >= 0,
                q == n / d,
        ;
        assert((p - 1) * d + d == p * d) by (nonlinear_arith);
        if p - 1 <= q {
            assert((p - 1) * d <= d * q) by (nonlinear_arith)
                requires
                    p - 1 <= q,
                    d >= 1,
            ;
        } else {
            assert((p - 1) * d >= d * q + d) by (nonlinear_arith)
                requires
                    p - 1 >= q + 1,
                    d >= 1,
            ;
        }
    }
    let start: usize = if before > whole {
        len
    } else {
        before * page_size
    };
    let end: usize = if len - start <= page_size {
        len
    } else {
        start + page_size
    };
    (start, end)
}

/// The items of page `page_number` (1-based) of `full`: at most `page_size`
/// items from position `(page_number - 1) * page_size` on, and none where
/// the set ends before that position.
pub fn window<'a, T>(full: &'a [T], page_number: u32, page_size: usize) -> (items: &'a [T])
    requires
        page_number >= 1,
        page_size >= 1,
    ensures
        items@ == page_slice(full@, page_number as nat, page_size as nat),
{
    let (start, end) = page_bounds(full.len(), page_number, page_size);
    slice_subrange(full, start, end)
}

/// Slices `full` into pages of `page_size` items and returns page
/// `page_number` (1-based) together with the number of pages.
///
/// An empty set has zero pages and every request on it yields an empty page.
/// On a non-empty set a page number past the last page is `OutOfRange`.
pub fn paginate<'a, T>(full: &'a [T], page_number: u32, page_size: usize) -> (r: Result<
    (&'a [T], usize),
    OutOfRange,
>)
    requires
        page_number >= 1,
        page_size >= 1,
    ensures
        match r {
            Ok((items, pages)) => page_of(full@, page_number as nat, page_size as nat) == Ok::<
                (Seq<T>, nat),
                OutOfRange,
            >((items@, pages as nat)),
            Err(e) => page_of(full@, page_number as nat, page_size as nat) == Err::<
                (Seq<T>, nat),
                OutOfRange,
            >(e),
        },
{
    let len = full.len();
    let pages: usize = if len == 0 {
        0
    } else {
        (len - 1) / page_size + 1
    };
    if len > 0 && page_number as usize > pages {
        return Err(OutOfRange);
    }
    Ok((window(full, page_number, page_size), pages))
}

} // verus!
