use pdxdoc::config::{default_limit, default_pagination, PaginationMode};
use pdxdoc::text::{decimal_string, replace_char, starts_with, str_less};
use pdxdoc::util::{hash, humanize_camel_case, paginate};
use std::hash::{Hash, Hasher};

#[test]
fn hash_is_deterministic_and_separates_names() {
    assert_eq!(hash("scope_country"), hash("scope_country"));
    assert_ne!(hash("scope_country"), hash("mask_country"));
    assert_ne!(hash("a"), hash("b"));
}

#[test]
fn hash_agrees_with_the_standard_hash_of_a_string() {
    let mut state = std::collections::hash_map::DefaultHasher::new();
    "SCOPES".hash(&mut state);
    assert_eq!(hash("SCOPES"), state.finish());
}

#[test]
fn humanize_capitalizes_words_and_replaces_underscores() {
    assert_eq!(humanize_camel_case("supported_scopes"), "Supported Scopes");
    assert_eq!(humanize_camel_case("mask"), "Mask");
    assert_eq!(humanize_camel_case(""), "");
    assert_eq!(humanize_camel_case("Supported Scopes"), "Supported Scopes");
    assert_eq!(humanize_camel_case("a__b"), "A _b");
}

#[test]
fn humanize_uses_the_full_uppercase_mapping() {
    assert_eq!(humanize_camel_case("ßx"), "SSx");
}

#[test]
fn decimal_strings() {
    assert_eq!(decimal_string(0), "0");
    assert_eq!(decimal_string(7), "7");
    assert_eq!(decimal_string(10), "10");
    assert_eq!(decimal_string(1234567890), "1234567890");
}

#[test]
fn strings_are_ordered_by_bytes() {
    assert!(str_less("a", "b"));
    assert!(str_less("a", "ab"));
    assert!(!str_less("ab", "a"));
    assert!(!str_less("a", "a"));
    assert!(str_less("Z", "a"));
    assert!(str_less("", "a"));
    assert!(str_less("z", "é"));
}

#[test]
fn prefixes_and_replacement() {
    assert!(starts_with("index.html", "index."));
    assert!(!starts_with("index", "index."));
    assert!(!starts_with("an_index.html", "index."));
    assert_eq!(replace_char("a\\b\\c", '\\', '/'), "a/b/c");
}

#[test]
fn defaults() {
    assert_eq!(default_limit(), 50);
    assert_eq!(default_pagination(), PaginationMode::Absolute { limit: 50 });
}

fn pages_of(mode: PaginationMode, minimum: usize, n: usize) -> Vec<(usize, usize, Vec<u32>)> {
    let items: Vec<u32> = (0..n as u32).collect();
    paginate(&mode, minimum, &items, |total, number, chunk: &[u32]| {
        (total, number, chunk.to_vec())
    })
}

#[test]
fn paginate_absolute_makes_the_ceiling_of_pages() {
    let pages = pages_of(PaginationMode::Absolute { limit: 4 }, 1, 10);
    assert_eq!(pages.len(), 3);
    assert_eq!(pages[0], (3, 1, vec![0, 1, 2, 3]));
    assert_eq!(pages[1], (3, 2, vec![4, 5, 6, 7]));
    assert_eq!(pages[2], (3, 3, vec![8, 9]));
}

#[test]
fn paginate_counts_and_numbers_for_many_sizes() {
    for limit in 1..6usize {
        for n in 0..20usize {
            let pages = pages_of(PaginationMode::Absolute { limit }, 0, n);
            assert_eq!(pages.len(), (n + limit - 1) / limit);
            let mut total = 0;
            for (i, page) in pages.iter().enumerate() {
                assert_eq!(page.0, pages.len());
                assert_eq!(page.1, i + 1);
                assert!(page.2.len() <= limit);
                total += page.2.len();
            }
            assert_eq!(total, n);
        }
    }
}

#[test]
fn paginate_exact_multiple_has_no_empty_page() {
    let pages = pages_of(PaginationMode::Absolute { limit: 5 }, 1, 10);
    assert_eq!(pages.len(), 2);
    assert_eq!(pages[1].2, vec![5, 6, 7, 8, 9]);
}

#[test]
fn paginate_off_is_one_page() {
    let pages = pages_of(PaginationMode::Off, 1, 7);
    assert_eq!(pages, vec![(1, 1, vec![0, 1, 2, 3, 4, 5, 6])]);
}

#[test]
fn paginate_below_the_floor_is_one_page() {
    let pages = pages_of(PaginationMode::Absolute { limit: 2 }, 4, 3);
    assert_eq!(pages, vec![(1, 1, vec![0, 1, 2])]);
    let pages = pages_of(PaginationMode::Absolute { limit: 2 }, 4, 4);
    assert_eq!(pages.len(), 2);
}

#[test]
fn paginate_nothing_with_a_floor_is_one_empty_page() {
    let pages = pages_of(PaginationMode::Absolute { limit: 50 }, 1, 0);
    assert_eq!(pages, vec![(1, 1, vec![])]);
    let pages = pages_of(PaginationMode::Absolute { limit: 50 }, 0, 0);
    assert_eq!(pages.len(), 0);
}
