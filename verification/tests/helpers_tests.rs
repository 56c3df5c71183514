use pdxdoc::helpers::{PageUrlHelper, PaginationHelper};
use std::collections::HashMap;

#[test]
fn one_page_needs_no_window() {
    assert!(PaginationHelper::window(1, 1, 2).is_none());
}

#[test]
fn window_around_a_middle_page() {
    let w = PaginationHelper::window(5, 10, 2).unwrap();
    assert_eq!(w.first_page, Some(1));
    assert_eq!(w.pages_before, vec![3, 4]);
    assert_eq!(w.current_page, 5);
    assert_eq!(w.pages_after, vec![6, 7]);
    assert_eq!(w.last_page, Some(10));
}

#[test]
fn window_at_the_edges() {
    let w = PaginationHelper::window(1, 3, 2).unwrap();
    assert_eq!(w.first_page, None);
    assert_eq!(w.pages_before, Vec::<usize>::new());
    assert_eq!(w.pages_after, vec![2]);
    assert_eq!(w.last_page, Some(3));
    let w = PaginationHelper::window(3, 3, 2).unwrap();
    assert_eq!(w.first_page, Some(1));
    assert_eq!(w.pages_before, vec![2]);
    assert_eq!(w.pages_after, Vec::<usize>::new());
    assert_eq!(w.last_page, None);
    let w = PaginationHelper::window(2, 2, 5).unwrap();
    assert_eq!(w.pages_before, Vec::<usize>::new());
    assert_eq!(w.pages_after, Vec::<usize>::new());
    let w = PaginationHelper::window(4, 9, 0).unwrap();
    assert_eq!(w.pages_before, Vec::<usize>::new());
    assert_eq!(w.pages_after, Vec::<usize>::new());
}

#[test]
fn window_agrees_with_the_ranges_it_stands_for() {
    for total in 2..9usize {
        for current in 1..=total {
            for num in 0..5usize {
                let w = PaginationHelper::window(current, total, num).unwrap();
                let mut before: Vec<usize> = (1..current).skip(1).rev().take(num).collect();
                before.reverse();
                let after: Vec<usize> = ((current + 1)..total).take(num).collect();
                assert_eq!(w.pages_before, before);
                assert_eq!(w.pages_after, after);
            }
        }
    }
}

#[test]
fn page_numbers_lead_to_the_pages_of_the_group() {
    let mut helper = PageUrlHelper {
        page_to_groups: HashMap::new(),
        groups_to_pages: HashMap::new(),
        mapping: HashMap::new(),
    };
    helper.page_to_groups.insert(11, 1);
    helper.page_to_groups.insert(12, 1);
    helper.page_to_groups.insert(30, 3);
    helper.groups_to_pages.insert(1, vec![(1, 11), (2, 12), (2, 13)]);
    assert_eq!(helper.target_page(11, 2), Some(12));
    assert_eq!(helper.target_page(12, 1), Some(11));
    assert_eq!(helper.target_page(11, 3), None);
    assert_eq!(helper.target_page(30, 1), None);
    assert_eq!(helper.target_page(99, 1), None);
}
