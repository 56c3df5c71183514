//! What the template helpers compute: the window of page numbers around the
//! current page, and the page that a page number of a group stands for.

use std::collections::HashMap;
use vstd::prelude::*;

verus! {

broadcast use vstd::std_specs::hash::group_hash_axioms;

/// The page numbers that a pagination bar shows.
#[derive(Debug, Clone)]
pub struct PageWindow {
    /// The first page, unless it is the current one.
    pub first_page: Option<usize>,
    /// The pages just before the current one, without the first.
    pub pages_before: Vec<usize>,
    /// The pages just after the current one, without the last.
    pub pages_after: Vec<usize>,
    pub current_page: usize,
    /// The last page, unless it is the current one.
    pub last_page: Option<usize>,
}

/// The helper that lays out a pagination bar.
#[derive(Clone)]
pub struct PaginationHelper;

/// The first of the pages that are shown before the page `current`, with
/// `num` pages to a side: the first page itself is never among them.
pub open spec fn window_start(current: int, num: int) -> int {
    if current - num > 2 {
        current - num
    } else {
        2
    }
}

/// The pages shown before the page `current`: the `num` pages before it, as
/// far as there are pages between the first and it.
pub open spec fn pages_before(current: int, num: int) -> Seq<usize> {
    Seq::new(
        if current > window_start(current, num) {
            (current - window_start(current, num)) as nat
        } else {
            0
        },
        |i: int| (window_start(current, num) + i) as usize,
    )
}

/// The pages shown after the page `current`: the `num` pages after it, as
/// far as there are pages between it and the last.
pub open spec fn pages_after(current: int, total: int, num: int) -> Seq<usize> {
    Seq::new(
        if total - 1 - current <= 0 {
            0
        } else if total - 1 - current < num {
            (total - 1 - current) as nat
        } else {
            num as nat
        },
        |i: int| (current + 1 + i) as usize,
    )
}

impl PaginationHelper {
    /// The window of page numbers around `current_page`, with up to `num`
    /// pages to either side, or `None` where there is one page and nothing
    /// to show.
    pub fn window(current_page: usize, total_pages: usize, num: usize) -> (r: Option<PageWindow>)
        requires
            current_page < usize::MAX,
        ensures
            match r {
                None => total_pages == 1,
                Some(w) => total_pages != 1 && w.current_page == current_page && w.first_page == (
                if current_page != 1 {
                    Some(1usize)
                } else {
                    None
                }) && w.last_page == (if current_page != total_pages {
                    Some(total_pages)
                } else {
                    None
                }) && w.pages_before@ == pages_before(current_page as int, num as int)
                    && w.pages_after@ == pages_after(
                    current_page as int,
                    total_pages as int,
                    num as int,
                ),
            },
    {
        if total_pages == 1 {
            return None;
        }
        let start: usize = if current_page > 2 && current_page - 2 > num {
            current_page - num
        } else {
            2
        };
        let mut before: Vec<usize> = Vec::new();
        let mut page: usize = start;
        while page < current_page
            invariant
                start == window_start(current_page as int, num as int),
                start <= page,
                page <= current_page || before@.len() == 0,
                before@.len() == (if page > start {
                    page - start
                } else {
                    0
                }),
                forall|i: int| 0 <= i < before@.len() ==> before@[i] == start + i,
            decreases current_page - page,
        {
            before.push(page);
            page += 1;
        }
        assert(before@ =~= pages_before(current_page as int, num as int));
        let mut after: Vec<usize> = Vec::new();
        let mut next: usize = current_page + 1;
        while next < total_pages && after.len() < num
            invariant
                current_page < usize::MAX,
                next == current_page + 1 + after@.len(),
                after@.len() <= num,
                after@.len() == 0 || next <= total_pages,
                forall|i: int| 0 <= i < after@.len() ==> after@[i] == current_page + 1 + i,
            decreases total_pages - next,
        {
            after.push(next);
            next += 1;
        }
        assert(after@ =~= pages_after(current_page as int, total_pages as int, num as int));
        Some(
            PageWindow {
                first_page: if current_page != 1 {
                    Some(1)
                } else {
                    None
                },
                pages_before: before,
                pages_after: after,
                current_page,
                last_page: if current_page != total_pages {
                    Some(total_pages)
                } else {
                    None
                },
            },
        )
    }
}

/// The helper that finds the page behind a page number.
pub struct PageUrlHelper {
    pub page_to_groups: HashMap<u64, u64>,
    pub groups_to_pages: HashMap<u64, Vec<(usize, u64)>>,
    pub mapping: HashMap<u64, String>,
}

/// The page of the first of `pages` that has the number `number`.
pub open spec fn page_with_number(pages: Seq<(usize, u64)>, number: usize) -> Option<u64>
    decreases pages.len(),
{
    if pages.len() == 0 {
        None
    } else if pages[0].0 == number {
        Some(pages[0].1)
    } else {
        page_with_number(pages.skip(1), number)
    }
}

impl PageUrlHelper {
    /// The page with the number `target_page_num` in the group of the page
    /// `current_page_id`, if the page is in a group and the group has such a
    /// page.
    pub open spec fn spec_target_page(&self, current_page_id: u64, target_page_num: usize)
        -> Option<u64> {
        if !self.page_to_groups@.contains_key(current_page_id) {
            None
        } else if !self.groups_to_pages@.contains_key(self.page_to_groups@[current_page_id]) {
            None
        } else {
            page_with_number(
                self.groups_to_pages@[self.page_to_groups@[current_page_id]]@,
                target_page_num,
            )
        }
    }

    /// The page with the number `target_page_num` in the group of the page
    /// `current_page_id`.
    pub fn target_page(&self, current_page_id: u64, target_page_num: usize) -> (r: Option<u64>)
        ensures
            r == self.spec_target_page(current_page_id, target_page_num),
    {
        let group_id = match self.page_to_groups.get(&current_page_id) {
            Some(group_id) => group_id,
            None => {
                return None;
            },
        };
        let pages = match self.groups_to_pages.get(group_id) {
            Some(pages) => pages,
            None => {
                return None;
            },
        };
        let ghost want = self.spec_target_page(current_page_id, target_page_num);
        let mut i: usize = 0;
        assert(pages@.skip(0) =~= pages@);
        assert(want == page_with_number(pages@, target_page_num));
        while i < pages.len()
            invariant
                i <= pages@.len(),
                want == self.spec_target_page(current_page_id, target_page_num),
                want == page_with_number(pages@.skip(i as int), target_page_num),
            decreases pages@.len() - i,
        {
            proof {
                assert(pages@.skip(i as int)[0] == pages@[i as int]);
                assert(pages@.skip(i as int).skip(1) =~= pages@.skip(i + 1));
            }
            if pages[i].0 == target_page_num {
                return Some(pages[i].1);
            }
            i += 1;
        }
        None
    }
}

} // verus!
