//! Identity hashing, name humanizing and pagination.

use std::collections::hash_map::DefaultHasher;
use std::hash::Hasher;
use vstd::prelude::*;
use vstd::std_specs::hash::DefaultHasherAdditionalSpecFns;
use vstd::utf8::encode_utf8;
use crate::config::PaginationMode;
use crate::text::push_char;

verus! {

/// The identity hash of a string: what the default hasher yields after it
/// was fed the string's UTF-8 bytes and then the terminator byte `0xff`.
pub open spec fn spec_hash(s: Seq<char>) -> u64 {
    DefaultHasher::spec_finish(seq![encode_utf8(s), seq![0xffu8]])
}

/// Hashes a string to the 64-bit id under which the site knows it. The hash
/// is deterministic: it depends on the characters alone.
pub fn hash(item: &str) -> (h: u64)
    ensures
        h == spec_hash(item@),
{
    let mut state = DefaultHasher::new();
    state.write(item.as_bytes());
    let end: [u8; 1] = [0xffu8];
    state.write(end.as_slice());
    proof {
        assert(end@ =~= seq![0xffu8]);
        assert(state@ =~= seq![encode_utf8(item@), seq![0xffu8]]);
    }
    state.finish()
}

/// The uppercase form of one character, as Unicode defines it. It may be
/// several characters long.
pub uninterp spec fn char_uppercase(c: char) -> Seq<char>;

/// The uppercase mapping of a character, by `char::to_uppercase`: the result
/// is that function's, which depends on the character alone.
#[verifier::external_body]
fn uppercase(c: char) -> (s: String)
    ensures
        s@ == char_uppercase(c),
{
    c.to_uppercase().to_string()
}

/// What humanizing makes of `text` when the next character is to be
/// capitalized (`upper`) or not: a capitalized character is replaced by its
/// uppercase form, an underscore elsewhere becomes a space and asks for a
/// capital after it, every other character stays.
pub open spec fn humanized_from(text: Seq<char>, upper: bool) -> Seq<char>
    decreases text.len(),
{
    if text.len() == 0 {
        Seq::empty()
    } else if upper {
        char_uppercase(text[0]) + humanized_from(text.skip(1), false)
    } else if text[0] == '_' {
        seq![' '] + humanized_from(text.skip(1), true)
    } else {
        seq![text[0]] + humanized_from(text.skip(1), false)
    }
}

/// The display form of an identifier such as `supported_scopes`.
pub open spec fn humanized(text: Seq<char>) -> Seq<char> {
    humanized_from(text, true)
}

/// Turns an identifier written with underscores into words: the first
/// character and each one after an underscore is capitalized, and the
/// underscores become spaces.
pub fn humanize_camel_case(text: &str) -> (s: String)
    ensures
        s@ == humanized(text@),
{
    let n = text.unicode_len();
    let mut s = String::new();
    let mut make_upper = true;
    let mut i: usize = 0;
    assert(text@.skip(0) =~= text@);
    assert(s@ + humanized(text@) =~= humanized(text@));
    while i < n
        invariant
            n == text@.len(),
            i <= n,
            s@ + humanized_from(text@.skip(i as int), make_upper) == humanized(text@),
        decreases n - i,
    {
        let c = text.get_char(i);
        let ghost before = s@;
        let ghost rest = text@.skip(i as int);
        proof {
            assert(rest[0] == c);
            assert(rest.skip(1) =~= text@.skip(i + 1));
        }
        if make_upper {
            let up = uppercase(c);
            s.append(up.as_str());
            make_upper = false;
            assert(s@ + humanized_from(text@.skip(i + 1), false) =~= before + humanized_from(
                rest,
                true,
            ));
        } else if c == '_' {
            push_char(&mut s, ' ');
            make_upper = true;
            assert(s@ + humanized_from(text@.skip(i + 1), true) =~= before + humanized_from(
                rest,
                false,
            ));
        } else {
            push_char(&mut s, c);
            assert(s@ + humanized_from(text@.skip(i + 1), false) =~= before + humanized_from(
                rest,
                false,
            ));
        }
        i += 1;
    }
    assert(text@.skip(n as int).len() == 0);
    assert(s@ + Seq::<char>::empty() =~= s@);
    s
}

/// How many pages `n` items fill: one page where the mode does not split or
/// where there are fewer items than `minimum`, else as many pages of `limit`
/// items as it takes to hold them all.
pub open spec fn page_count(mode: PaginationMode, minimum: nat, n: nat) -> nat {
    match mode {
        PaginationMode::Off => 1,
        PaginationMode::Absolute { limit } => if n < minimum {
            1
        } else {
            ((n + limit - 1) / (limit as int)) as nat
        },
    }
}

/// Where the page with the 0-based index `i` starts among `n` items.
pub open spec fn page_start(mode: PaginationMode, minimum: nat, n: nat, i: nat) -> nat {
    match mode {
        PaginationMode::Off => 0,
        PaginationMode::Absolute { limit } => if n < minimum {
            0
        } else {
            (i * limit) as nat
        },
    }
}

/// Where the page with the 0-based index `i` ends among `n` items.
pub open spec fn page_end(mode: PaginationMode, minimum: nat, n: nat, i: nat) -> nat {
    match mode {
        PaginationMode::Off => n,
        PaginationMode::Absolute { limit } => if n < minimum {
            n
        } else if (i + 1) * limit < n {
            ((i + 1) * limit) as nat
        } else {
            n
        },
    }
}

/// The items of the page with the 0-based index `i`.
pub open spec fn page_items<T>(
    mode: PaginationMode,
    minimum: nat,
    items: Seq<T>,
    i: nat,
) -> Seq<T> {
    items.subrange(
        page_start(mode, minimum, items.len(), i) as int,
        page_end(mode, minimum, items.len(), i) as int,
    )
}

/// `page` is what `make_page` made of the page with the 0-based index `i`:
/// it was given the number of pages, the page's number `i + 1` and the
/// page's items.
pub open spec fn page_made<T, P, F: Fn(usize, usize, &[T]) -> P>(
    make_page: F,
    mode: PaginationMode,
    minimum: nat,
    items: Seq<T>,
    i: int,
    page: P,
) -> bool {
    exists|chunk: &[T]|
        chunk@ == page_items(mode, minimum, items, i as nat) && #[trigger] make_page.ensures(
            (page_count(mode, minimum, items.len()) as usize, (i + 1) as usize, chunk),
            page,
        )
}

/// Splits `items` into pages and has `make_page` build each of them.
///
/// `make_page` is called once for every page, in the order of the pages, with
/// the number of pages, the page's number (from 1) and the page's items. With
/// `PaginationMode::Off`, or with fewer items than `minimum`, there is one
/// page that holds everything; otherwise every page but the last holds
/// `limit` items.
pub fn paginate<T, P, F>(
    mode: &PaginationMode,
    minimum: usize,
    items: &[T],
    make_page: F,
) -> (pages: Vec<P>) where F: Fn(usize, usize, &[T]) -> P
    requires
        mode.wf(),
        forall|total: usize, number: usize, chunk: &[T]|
            1 <= number <= total && total == page_count(*mode, minimum as nat, items@.len())
                && chunk@ == page_items(*mode, minimum as nat, items@, (number - 1) as nat)
                ==> #[trigger] make_page.requires((total, number, chunk)),
    ensures
        pages@.len() == page_count(*mode, minimum as nat, items@.len()),
        forall|i: int|
            0 <= i < pages@.len() ==> page_made(
                make_page,
                *mode,
                minimum as nat,
                items@,
                i,
                #[trigger] pages@[i],
            ),
{
    let n = items.len();
    let mut pages: Vec<P> = Vec::new();
    let limit: usize = match *mode {
        PaginationMode::Off => 0,
        PaginationMode::Absolute { limit } => limit,
    };
    if limit > 0 && n >= minimum {
            let total: usize = if n == 0 {
                0
            } else {
                (n - 1) / limit + 1
            };
            proof {
                lemma_page_count(n as nat, limit as nat);
            }
            let mut i: usize = 0;
            while i < total
                invariant
                    mode.wf(),
                    *mode == (PaginationMode::Absolute { limit }),
                    n == items@.len(),
                    n >= minimum,
                    i <= total,
                    total == page_count(*mode, minimum as nat, n as nat),
                    n > 0 ==> total == (n - 1) / (limit as int) + 1,
                    n == 0 ==> total == 0,
                    pages@.len() == i,
                    forall|total: usize, number: usize, chunk: &[T]|
                        1 <= number <= total && total == page_count(
                            *mode,
                            minimum as nat,
                            items@.len(),
                        ) && chunk@ == page_items(
                            *mode,
                            minimum as nat,
                            items@,
                            (number - 1) as nat,
                        ) ==> #[trigger] make_page.requires((total, number, chunk)),
                    forall|j: int|
                        0 <= j < i ==> page_made(
                            make_page,
                            *mode,
                            minimum as nat,
                            items@,
                            j,
                            #[trigger] pages@[j],
                        ),
                decreases total - i,
            {
                proof {
                    lemma_page_bounds(n as nat, limit as nat, i as nat);
                }
                let start: usize = i * limit;
                let end: usize = if n - start > limit {
                    start + limit
                } else {
                    n
                };
                proof {
                    assert((i + 1) * limit == i * limit + limit) by (nonlinear_arith);
                }
                let chunk = vstd::slice::slice_subrange(items, start, end);
                assert(chunk@ == page_items(*mode, minimum as nat, items@, i as nat));
                let page = make_page(total, i + 1, chunk);
                assert(page_made(make_page, *mode, minimum as nat, items@, i as int, page));
                pages.push(page);
                i += 1;
            }
    } else {
            let chunk = vstd::slice::slice_subrange(items, 0, n);
            assert(chunk@ =~= items@);
            assert(chunk@ == page_items(*mode, minimum as nat, items@, 0));
            let page = make_page(1, 1, chunk);
            assert(page_count(*mode, minimum as nat, items@.len()) == 1);
            assert(make_page.ensures(
                (
                    page_count(*mode, minimum as nat, items@.len()) as usize,
                    (0int + 1) as usize,
                    chunk,
                ),
                page,
            ));
            assert(page_made(make_page, *mode, minimum as nat, items@, 0, page));
            pages.push(page);
    }
    pages
}

/// The items of the first `k` pages, one page after the other.
pub open spec fn pages_joined<T>(mode: PaginationMode, minimum: nat, items: Seq<T>, k: nat) -> Seq<
    T,
>
    decreases k,
{
    if k == 0 {
        Seq::empty()
    } else {
        pages_joined(mode, minimum, items, (k - 1) as nat) + page_items(
            mode,
            minimum,
            items,
            (k - 1) as nat,
        )
    }
}

/// Pagination by a limit, of a list that has reached the minimum: there are
/// as many pages as the items need at `limit` items a page and no more, no
/// page holds more than `limit` items or none at all, and the pages, one
/// after the other, hold exactly the items in their order.
pub proof fn lemma_pagination_covers<T>(limit: usize, minimum: nat, items: Seq<T>)
    requires
        limit > 0,
        items.len() >= minimum,
    ensures
        ({
            let mode = PaginationMode::Absolute { limit };
            let total = page_count(mode, minimum, items.len());
            &&& total * limit >= items.len()
            &&& total > 0 ==> (total - 1) * limit < items.len()
            &&& items.len() == 0 ==> total == 0
            &&& forall|i: nat|
                i < total ==> 0 < (#[trigger] page_items(mode, minimum, items, i)).len() <= limit
            &&& pages_joined(mode, minimum, items, total) == items
        }),
{
    let mode = PaginationMode::Absolute { limit };
    let n = items.len();
    let total = page_count(mode, minimum, n);
    lemma_page_count(n, limit as nat);
    if n > 0 {
        assert(total * limit >= n && (total - 1) * limit < n) by (nonlinear_arith)
            requires
                limit > 0,
                n > 0,
                total == (n - 1) / (limit as int) + 1,
        ;
    } else {
        assert(total * limit == 0) by (nonlinear_arith)
            requires
                total == 0,
        ;
    }
    assert forall|i: nat| i < total implies 0 < (#[trigger] page_items(
        mode,
        minimum,
        items,
        i,
    )).len() <= limit by {
        lemma_page_bounds(n, limit as nat, i);
        assert((i + 1) * limit == i * limit + limit) by (nonlinear_arith);
    }
    lemma_pages_joined(limit, minimum, items, total);
    assert(items.take(n as int) =~= items);
}

/// The first `k` pages hold the items before the start of the next page.
proof fn lemma_pages_joined<T>(limit: usize, minimum: nat, items: Seq<T>, k: nat)
    requires
        limit > 0,
        items.len() >= minimum,
        k <= page_count(PaginationMode::Absolute { limit }, minimum, items.len()),
    ensures
        pages_joined(PaginationMode::Absolute { limit }, minimum, items, k) == items.take(
            if k * limit < items.len() {
                k * limit
            } else {
                items.len() as int
            },
        ),
    decreases k,
{
    let mode = PaginationMode::Absolute { limit };
    let n = items.len();
    if k == 0 {
        assert(0 * limit == 0) by (nonlinear_arith);
        assert(items.take(0) =~= Seq::<T>::empty());
    } else {
        lemma_pages_joined(limit, minimum, items, (k - 1) as nat);
        lemma_page_count(n, limit as nat);
        lemma_page_bounds(n, limit as nat, (k - 1) as nat);
        assert(k * limit == (k - 1) * limit + limit) by (nonlinear_arith);
        let start = (k - 1) * limit;
        let end = if k * limit < n {
            k * limit
        } else {
            n as int
        };
        assert(page_items(mode, minimum, items, (k - 1) as nat) == items.subrange(start, end));
        assert(items.take(start) + items.subrange(start, end) =~= items.take(end));
    }
}

/// Ceiling division, as the page count uses it.
proof fn lemma_page_count(n: nat, limit: nat)
    requires
        limit > 0,
    ensures
        n == 0 ==> (n + limit - 1) / (limit as int) == 0,
        n > 0 ==> (n + limit - 1) / (limit as int) == (n - 1) / (limit as int) + 1,
{
    if n == 0 {
        assert((limit - 1) / (limit as int) == 0) by (nonlinear_arith)
            requires
                limit > 0,
        ;
    } else {
        assert((n - 1 + limit) / (limit as int) == (n - 1) / (limit as int) + 1)
            by (nonlinear_arith)
            requires
                limit > 0,
                n > 0,
        ;
    }
}

/// A page that exists starts inside the list.
proof fn lemma_page_bounds(n: nat, limit: nat, i: nat)
    requires
        limit > 0,
        n > 0 ==> i < (n - 1) / (limit as int) + 1,
        n == 0 ==> i < 0,
    ensures
        i * limit < n,
{
    assert(i * limit <= n - 1) by (nonlinear_arith)
        requires
            limit > 0,
            n > 0,
            i <= (n - 1) / (limit as int),
    ;
}

} // verus!
