//! How much of a listing one answer carries.

use vstd::prelude::*;

verus! {

/// The most entries one page may carry, whatever a caller asks for.
pub const MAX_PAGE_SIZE: u32 = 1000;

/// The page size used when a caller asks for a page and says nothing about its size.
pub const DEFAULT_PAGE_SIZE: u32 = 100;

/// How much of a listing one answer carries: `None` for both is the whole listing;
/// a page is 1-based, and a size is clamped into `1..=MAX_PAGE_SIZE`.
#[derive(Debug, Clone, Copy, Default, PartialEq, Eq)]
pub struct ListWindow {
    pub page: Option<u32>,
    pub size: Option<u32>,
}

impl ListWindow {
    /// Whether the window names no page and no size: the whole listing.
    pub open spec fn is_whole(self) -> bool {
        self.page is None && self.size is None
    }

    /// The page size this window stands for, clamped.
    pub open spec fn spec_size(self) -> int {
        let asked: int = match self.size {
            Some(size) => size as int,
            None => DEFAULT_PAGE_SIZE as int,
        };
        if asked < 1 {
            1
        } else if asked > MAX_PAGE_SIZE as int {
            MAX_PAGE_SIZE as int
        } else {
            asked
        }
    }

    /// The 1-based page this window stands for.
    pub open spec fn spec_page(self) -> int {
        match self.page {
            Some(page) => if page < 1 { 1 } else { page as int },
            None => 1,
        }
    }

    /// Where the page starts in the listing, before clamping to its length.
    pub open spec fn spec_start(self) -> int {
        (self.spec_page() - 1) * self.spec_size()
    }

    /// The entries of `items` this window selects.
    pub open spec fn spec_apply<T>(self, items: Seq<T>) -> Seq<T> {
        if self.is_whole() {
            items
        } else {
            let start = if self.spec_start() < items.len() { self.spec_start() } else { items.len() as int };
            let end = if start + self.spec_size() < items.len() { start + self.spec_size() } else { items.len() as int };
            items.subrange(start, end)
        }
    }

    /// A window from wire inputs, where zero means "not asked".
    pub fn of(page: u32, size: u32) -> (window: Self)
        ensures
            window.page == (if page > 0 { Some(page) } else { None::<u32> }),
            window.size == (if size > 0 { Some(size) } else { None::<u32> }),
    {
        ListWindow {
            page: if page > 0 { Some(page) } else { None },
            size: if size > 0 { Some(size) } else { None },
        }
    }

    /// Applies the window to an already deterministically ordered listing.
    pub fn apply<T>(self, items: Vec<T>) -> (selected: Vec<T>)
        ensures
            selected@ == self.spec_apply(items@),
    {
        if self.page.is_none() && self.size.is_none() {
            return items;
        }
        let asked: u32 = match self.size {
            Some(size) => size,
            None => DEFAULT_PAGE_SIZE,
        };
        let size: u32 = if asked < 1 {
            1
        } else if asked > MAX_PAGE_SIZE {
            MAX_PAGE_SIZE
        } else {
            asked
        };
        let page: u32 = match self.page {
            Some(page) => if page < 1 { 1 } else { page },
            None => 1,
        };
        let len = items.len();
        // `(page - 1) * size` fits in u64 even on a 32-bit usize.
        assert((page as u64 - 1) * (size as u64) <= 0xffff_ffffu64 * 1000u64) by (nonlinear_arith)
            requires
                1 <= page,
                size <= 1000;
        let wide_start: u64 = (page as u64 - 1) * (size as u64);
        let start: usize = if wide_start < len as u64 { wide_start as usize } else { len };
        let end: usize = if (size as usize) < len - start { start + size as usize } else { len };
        let mut items = items;
        let mut rest = items.split_off(start);
        rest.truncate(end - start);
        rest
    }
}

} // verus!

verus! {

/// With no page and no size, a window is the whole listing.
pub proof fn law_no_window_is_the_whole_listing<T>(items: Seq<T>)
    ensures
        (ListWindow { page: None, size: None }).spec_apply(items) == items,
{
}

/// Where page `page` of size `size` starts, within a listing of `len` entries.
pub open spec fn page_start(page: int, size: int, len: int) -> int {
    if (page - 1) * size < len { (page - 1) * size } else { len }
}

/// Pages of one size tile the listing: page `p + 1` starts exactly where page
/// `p` ends, so consecutive pages neither overlap nor leave a gap, and each
/// holds the entries from its own start to the next page's.
pub proof fn law_pages_tile_the_listing<T>(items: Seq<T>, page: u32, size: u32)
    requires
        1 <= page < u32::MAX,
        1 <= size <= MAX_PAGE_SIZE,
    ensures
        ({
            let w = ListWindow { page: Some(page), size: Some(size) };
            let next = ListWindow { page: Some((page + 1) as u32), size: Some(size) };
            &&& w.spec_apply(items) == items.subrange(page_start(page as int, size as int, items.len() as int),
                page_start(page + 1, size as int, items.len() as int))
            &&& next.spec_apply(items) == items.subrange(page_start(page + 1, size as int, items.len() as int),
                page_start(page + 2, size as int, items.len() as int))
        }),
{
    let s = size as int;
    let p = page as int;
    assert(p * s == (p - 1) * s + s) by (nonlinear_arith);
    assert((p + 1) * s == p * s + s) by (nonlinear_arith);
    assert((p - 1) * s >= 0) by (nonlinear_arith) requires p >= 1, s >= 1;
}

} // verus!
