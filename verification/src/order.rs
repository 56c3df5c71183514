//! Stable sorting by a strict order, stated over the positions of the items.

use vstd::prelude::*;
use crate::text::{str_less, text_less};

verus! {

/// The first position of `r` whose item does not come before `x`.
pub open spec fn first_not_before(
    r: Seq<usize>,
    x: usize,
    lt: spec_fn(usize, usize) -> bool,
) -> int
    decreases r.len(),
{
    if r.len() == 0 {
        0
    } else if !lt(r[0], x) {
        0
    } else {
        1 + first_not_before(r.skip(1), x, lt)
    }
}

/// The positions `from..n` in the order of their items: each position is put
/// before the later positions that were sorted already, after those whose
/// items come before its own. Items that are equivalent keep their order.
pub open spec fn sorted_from(from: int, n: int, lt: spec_fn(usize, usize) -> bool) -> Seq<usize>
    decreases n - from,
{
    if from >= n || from < 0 {
        Seq::empty()
    } else {
        let rest = sorted_from(from + 1, n, lt);
        rest.insert(first_not_before(rest, from as usize, lt), from as usize)
    }
}

/// The positions `0..n`, sorted by `lt` on their items, stably.
pub open spec fn sorted_positions(n: int, lt: spec_fn(usize, usize) -> bool) -> Seq<usize> {
    sorted_from(0, n, lt)
}

/// The first position of `r` whose item does not come before `x` lies in
/// `r` or at its end, everything before it comes before `x`, and the item at
/// it does not.
pub proof fn lemma_first_not_before(r: Seq<usize>, x: usize, lt: spec_fn(usize, usize) -> bool)
    ensures
        0 <= first_not_before(r, x, lt) <= r.len(),
        forall|i: int| 0 <= i < first_not_before(r, x, lt) ==> lt(#[trigger] r[i], x),
        first_not_before(r, x, lt) < r.len() ==> !lt(r[first_not_before(r, x, lt)], x),
    decreases r.len(),
{
    if r.len() > 0 && lt(r[0], x) {
        lemma_first_not_before(r.skip(1), x, lt);
        let p = first_not_before(r.skip(1), x, lt);
        assert forall|i: int| 0 <= i < p + 1 implies lt(#[trigger] r[i], x) by {
            if i > 0 {
                assert(r.skip(1)[i - 1] == r[i]);
            }
        }
        if p + 1 < r.len() {
            assert(r.skip(1)[p] == r[p + 1]);
        }
    }
}

/// Sorting keeps every position and adds none: the result lists the positions
/// `from..n`, each once.
pub proof fn lemma_sorted_is_permutation(from: int, n: int, lt: spec_fn(usize, usize) -> bool)
    requires
        0 <= from <= n <= usize::MAX,
    ensures
        sorted_from(from, n, lt).len() == n - from,
        sorted_from(from, n, lt).no_duplicates(),
        forall|k: int|
            from <= k < n ==> sorted_from(from, n, lt).contains(#[trigger] (k as usize)),
        forall|i: int|
            0 <= i < n - from ==> from <= (#[trigger] sorted_from(from, n, lt)[i]) < n,
    decreases n - from,
{
    if from < n {
        lemma_sorted_is_permutation(from + 1, n, lt);
        let rest = sorted_from(from + 1, n, lt);
        lemma_first_not_before(rest, from as usize, lt);
        let p = first_not_before(rest, from as usize, lt);
        let r = rest.insert(p, from as usize);
        assert(r == sorted_from(from, n, lt));
        assert forall|i: int, j: int| 0 <= i < r.len() && 0 <= j < r.len() && i != j implies r[i]
            != r[j] by {
            let a = if i < p {
                i
            } else {
                i - 1
            };
            let b = if j < p {
                j
            } else {
                j - 1
            };
            if i != p && j != p {
                assert(r[i] == rest[a]);
                assert(r[j] == rest[b]);
            } else if i == p {
                assert(r[j] == rest[b]);
                assert(from + 1 <= rest[b]);
            } else {
                assert(r[i] == rest[a]);
                assert(from + 1 <= rest[a]);
            }
        }
        assert forall|k: int| from <= k < n implies r.contains(#[trigger] (k as usize)) by {
            if k == from {
                assert(r[p] == from as usize);
            } else {
                assert(rest.contains(k as usize));
                let i = choose|i: int| 0 <= i < rest.len() && rest[i] == k as usize;
                if i < p {
                    assert(r[i] == rest[i]);
                } else {
                    assert(r[i + 1] == rest[i]);
                }
            }
        }
        assert forall|i: int| 0 <= i < n - from implies from <= (#[trigger] r[i]) < n by {
            if i < p {
                assert(r[i] == rest[i]);
            } else if i > p {
                assert(r[i] == rest[i - 1]);
            }
        }
    }
}

/// Where `lt` is a strict weak order on the positions below `n` (of two
/// items at most one comes before the other, and where one comes before
/// another, any third comes after the one or before the other), the sorted
/// positions are in order: no item comes before one that stands earlier.
pub proof fn lemma_sorted_is_ordered(from: int, n: int, lt: spec_fn(usize, usize) -> bool)
    requires
        0 <= from <= n <= usize::MAX,
        forall|a: usize, b: usize| a < n && b < n && #[trigger] lt(a, b) ==> !lt(b, a),
        forall|a: usize, b: usize, c: usize|
            a < n && b < n && c < n && lt(a, b) ==> #[trigger] lt(a, c) || #[trigger] lt(c, b),
    ensures
        forall|i: int, j: int|
            0 <= i < j < n - from ==> !lt(
                #[trigger] sorted_from(from, n, lt)[j],
                #[trigger] sorted_from(from, n, lt)[i],
            ),
    decreases n - from,
{
    if from < n {
        lemma_sorted_is_permutation(from + 1, n, lt);
        lemma_sorted_is_ordered(from + 1, n, lt);
        let rest = sorted_from(from + 1, n, lt);
        let x = from as usize;
        lemma_first_not_before(rest, x, lt);
        let p = first_not_before(rest, x, lt);
        let r = rest.insert(p, x);
        assert(r == sorted_from(from, n, lt));
        assert forall|i: int, j: int| 0 <= i < j < n - from implies !lt(
            #[trigger] r[j],
            #[trigger] r[i],
        ) by {
            if j < p {
                assert(r[i] == rest[i] && r[j] == rest[j]);
            } else if i > p {
                assert(r[i] == rest[i - 1] && r[j] == rest[j - 1]);
            } else if i < p && j > p {
                assert(r[i] == rest[i] && r[j] == rest[j - 1]);
            } else if j == p {
                // r[i] comes before x, so x does not come before r[i].
                assert(r[i] == rest[i]);
                assert(lt(rest[i], x));
            } else {
                // i == p: rest[p] does not come before x, and rest is in order.
                assert(r[j] == rest[j - 1]);
                assert(!lt(rest[p], x));
                if j - 1 > p {
                    assert(!lt(rest[j - 1], rest[p]));
                }
                if lt(rest[j - 1], x) {
                    assert(lt(rest[j - 1], rest[p]) || lt(rest[p], x));
                }
            }
        }
    }
}

/// The order of lists of strings: by the first string in which they differ
/// in order; a list that is the beginning of another comes first.
pub open spec fn keys_less(a: Seq<Seq<char>>, b: Seq<Seq<char>>) -> bool
    decreases a.len(),
{
    if b.len() == 0 {
        false
    } else if a.len() == 0 {
        true
    } else if text_less(a[0], b[0]) {
        true
    } else if text_less(b[0], a[0]) {
        false
    } else {
        keys_less(a.skip(1), b.skip(1))
    }
}

/// Of two lists of strings at most one comes before the other.
pub proof fn lemma_keys_less_asymmetric(a: Seq<Seq<char>>, b: Seq<Seq<char>>)
    requires
        keys_less(a, b),
    ensures
        !keys_less(b, a),
    decreases a.len(),
{
    if a.len() > 0 && b.len() > 0 {
        crate::text::lemma_text_less_is_strict_weak(a[0], b[0], a[0]);
        crate::text::lemma_text_less_is_strict_weak(b[0], a[0], a[0]);
        if !text_less(a[0], b[0]) && !text_less(b[0], a[0]) {
            lemma_keys_less_asymmetric(a.skip(1), b.skip(1));
        }
    }
}

/// Where one list of strings comes before another, any third comes after
/// the one or before the other.
pub proof fn lemma_keys_less_between(a: Seq<Seq<char>>, b: Seq<Seq<char>>, c: Seq<Seq<char>>)
    requires
        keys_less(a, b),
    ensures
        keys_less(a, c) || keys_less(c, b),
    decreases a.len(),
{
    if c.len() == 0 {
    } else if a.len() == 0 {
    } else {
        crate::text::lemma_text_less_is_strict_weak(a[0], b[0], c[0]);
        crate::text::lemma_text_less_is_strict_weak(b[0], a[0], c[0]);
        crate::text::lemma_text_less_is_strict_weak(a[0], c[0], b[0]);
        crate::text::lemma_text_less_is_strict_weak(c[0], a[0], b[0]);
        crate::text::lemma_text_less_is_strict_weak(c[0], b[0], a[0]);
        crate::text::lemma_text_less_is_strict_weak(b[0], c[0], a[0]);
        if text_less(a[0], b[0]) {
        } else {
            // a[0] and b[0] are equivalent.
            if text_less(a[0], c[0]) {
            } else if text_less(c[0], a[0]) {
            } else {
                lemma_keys_less_between(a.skip(1), b.skip(1), c.skip(1));
            }
        }
    }
}

/// Two lists of as many strings, of which neither comes before the other,
/// hold the same strings.
pub proof fn lemma_keys_less_total(a: Seq<Seq<char>>, b: Seq<Seq<char>>)
    requires
        a.len() == b.len(),
        !keys_less(a, b),
        !keys_less(b, a),
    ensures
        a == b,
    decreases a.len(),
{
    if a.len() > 0 {
        crate::text::lemma_text_less_total(a[0], b[0]);
        lemma_keys_less_total(a.skip(1), b.skip(1));
        assert(a =~= seq![a[0]] + a.skip(1));
        assert(b =~= seq![b[0]] + b.skip(1));
    } else {
        assert(a =~= b);
    }
}

/// The positions `0..keys.len()`, sorted by their keys, are in the order of
/// the keys: no key comes before one that stands earlier. And the sorted
/// positions are all the positions, each once.
pub proof fn lemma_sorted_by_keys(keys: Seq<Seq<Seq<char>>>)
    requires
        keys.len() <= usize::MAX,
    ensures
        sorted_positions(keys.len() as int, by_keys(keys)).len() == keys.len(),
        sorted_positions(keys.len() as int, by_keys(keys)).no_duplicates(),
        forall|i: int|
            0 <= i < keys.len() ==> 0 <= (#[trigger] sorted_positions(
                keys.len() as int,
                by_keys(keys),
            )[i]) < keys.len(),
        forall|i: int, j: int|
            0 <= i < j < keys.len() ==> !keys_less(
                keys[(#[trigger] sorted_positions(keys.len() as int, by_keys(keys))[j]) as int],
                keys[(#[trigger] sorted_positions(keys.len() as int, by_keys(keys))[i]) as int],
            ),
{
    let lt = by_keys(keys);
    let n = keys.len() as int;
    lemma_sorted_is_permutation(0, n, lt);
    assert forall|a: usize, b: usize| a < n && b < n && #[trigger] lt(a, b) implies !lt(b, a) by {
        lemma_keys_less_asymmetric(keys[a as int], keys[b as int]);
    }
    assert forall|a: usize, b: usize, c: usize| a < n && b < n && c < n && lt(a, b) implies #[trigger] lt(
        a,
        c,
    ) || #[trigger] lt(c, b) by {
        lemma_keys_less_between(keys[a as int], keys[b as int], keys[c as int]);
    }
    lemma_sorted_is_ordered(0, n, lt);
    let r = sorted_positions(n, lt);
    assert forall|i: int, j: int| 0 <= i < j < keys.len() implies !keys_less(
        keys[(#[trigger] r[j]) as int],
        keys[(#[trigger] r[i]) as int],
    ) by {
        assert(!lt(r[j], r[i]));
    }
}

/// The strings of each list of a list, as text.
pub open spec fn key_views(keys: Seq<Vec<String>>) -> Seq<Seq<Seq<char>>> {
    keys.map_values(|k: Vec<String>| k@.map_values(|s: String| s@))
}

/// The order of positions by the keys that stand at them.
pub open spec fn by_keys(keys: Seq<Seq<Seq<char>>>) -> spec_fn(usize, usize) -> bool {
    |i: usize, j: usize| i < keys.len() && j < keys.len() && keys_less(keys[i as int], keys[j as int])
}

proof fn lemma_keys_less_from(a: Seq<Seq<char>>, b: Seq<Seq<char>>, k: int)
    requires
        0 <= k <= a.len(),
        k <= b.len(),
        forall|i: int| 0 <= i < k ==> !text_less(a[i], b[i]) && !text_less(b[i], a[i]),
    ensures
        keys_less(a, b) == keys_less(a.skip(k), b.skip(k)),
    decreases k,
{
    if k > 0 {
        assert(!text_less(a[0], b[0]) && !text_less(b[0], a[0]));
        assert forall|i: int| 0 <= i < k - 1 implies !text_less(a.skip(1)[i], b.skip(1)[i])
            && !text_less(b.skip(1)[i], a.skip(1)[i]) by {
            assert(a.skip(1)[i] == a[i + 1]);
            assert(b.skip(1)[i] == b[i + 1]);
        }
        lemma_keys_less_from(a.skip(1), b.skip(1), k - 1);
        assert(a.skip(1).skip(k - 1) =~= a.skip(k));
        assert(b.skip(1).skip(k - 1) =~= b.skip(k));
    } else {
        assert(a.skip(0) =~= a);
        assert(b.skip(0) =~= b);
    }
}

/// Whether the list of keys `a` comes before the list `b`.
pub fn less_by_keys(a: &Vec<String>, b: &Vec<String>) -> (r: bool)
    ensures
        r == keys_less(a@.map_values(|s: String| s@), b@.map_values(|s: String| s@)),
{
    let ghost x = a@.map_values(|s: String| s@);
    let ghost y = b@.map_values(|s: String| s@);
    let mut i: usize = 0;
    while i < a.len() && i < b.len()
        invariant
            x == a@.map_values(|s: String| s@),
            y == b@.map_values(|s: String| s@),
            i <= a@.len(),
            i <= b@.len(),
            forall|k: int| 0 <= k < i ==> !text_less(x[k], y[k]) && !text_less(y[k], x[k]),
        decreases a@.len() - i,
    {
        proof {
            lemma_keys_less_from(x, y, i as int);
            assert(x.skip(i as int)[0] == a@[i as int]@);
            assert(y.skip(i as int)[0] == b@[i as int]@);
        }
        if str_less(a[i].as_str(), b[i].as_str()) {
            assert(keys_less(x.skip(i as int), y.skip(i as int)));
            return true;
        }
        if str_less(b[i].as_str(), a[i].as_str()) {
            assert(!keys_less(x.skip(i as int), y.skip(i as int)));
            return false;
        }
        i += 1;
    }
    proof {
        lemma_keys_less_from(x, y, i as int);
        assert(keys_less(x.skip(i as int), y.skip(i as int)) == (i < b@.len()));
    }
    i < b.len()
}

/// The positions of `keys` in the order of the keys. Positions with
/// equivalent keys keep their order.
pub fn sort_by_keys(keys: &Vec<Vec<String>>) -> (r: Vec<usize>)
    ensures
        r@ == sorted_positions(keys@.len() as int, by_keys(key_views(keys@))),
        r@.len() == keys@.len(),
        forall|i: int| 0 <= i < r@.len() ==> (#[trigger] r@[i]) < keys@.len(),
{
    let n = keys.len();
    let ghost lt = by_keys(key_views(keys@));
    let mut r: Vec<usize> = Vec::new();
    let mut from: usize = n;
    while from > 0
        invariant
            n == keys@.len(),
            lt == by_keys(key_views(keys@)),
            from <= n,
            r@ == sorted_from(from as int, n as int, lt),
            r@.len() == n - from,
            forall|i: int| 0 <= i < r@.len() ==> (#[trigger] r@[i]) < n,
        decreases from,
    {
        from -= 1;
        let mut p: usize = 0;
        assert(r@.skip(0) =~= r@);
        while p < r.len() && less_by_keys(&keys[r[p]], &keys[from])
            invariant
                n == keys@.len(),
                lt == by_keys(key_views(keys@)),
                from < n,
                p <= r@.len(),
                forall|i: int| 0 <= i < r@.len() ==> (#[trigger] r@[i]) < n,
                first_not_before(r@, from, lt) == p + first_not_before(
                    r@.skip(p as int),
                    from,
                    lt,
                ),
            decreases r@.len() - p,
        {
            proof {
                assert(r@.skip(p as int)[0] == r@[p as int]);
                assert(key_views(keys@)[r@[p as int] as int] == keys@[r@[p as int] as int]@.map_values(
                    |s: String| s@,
                ));
                assert(key_views(keys@)[from as int] == keys@[from as int]@.map_values(
                    |s: String| s@,
                ));
                assert(lt(r@[p as int], from));
                assert(r@.skip(p as int).skip(1) =~= r@.skip(p + 1));
            }
            p += 1;
        }
        proof {
            if p < r@.len() {
                assert(r@.skip(p as int)[0] == r@[p as int]);
                assert(key_views(keys@)[r@[p as int] as int] == keys@[r@[p as int] as int]@.map_values(
                    |s: String| s@,
                ));
                assert(key_views(keys@)[from as int] == keys@[from as int]@.map_values(
                    |s: String| s@,
                ));
                assert(!lt(r@[p as int], from));
            }
            assert(first_not_before(r@, from, lt) == p);
        }
        r.insert(p, from);
    }
    r
}

} // verus!
