//! Deleting the occurrences of a pattern from a sequence.
//!
//! The scan runs from left to right. Where the pattern occurs it is dropped
//! and the scan goes on behind it, so two occurrences that are dropped never
//! overlap; elsewhere one item is kept and the scan goes on with the next.
//! An empty pattern occurs nowhere.
use vstd::prelude::*;

verus! {

/// `pattern` stands in `s` at offset `at`.
pub open spec fn occurs_at<T>(s: Seq<T>, pattern: Seq<T>, at: int) -> bool {
    &&& 0 <= at
    &&& at + pattern.len() <= s.len()
    &&& s.subrange(at, at + pattern.len()) == pattern
}

/// The scan, standing at the start of `s`, finds the pattern here: the
/// pattern is not empty and stands at offset 0.
pub open spec fn matches_here<T>(s: Seq<T>, pattern: Seq<T>) -> bool {
    pattern.len() > 0 && occurs_at(s, pattern, 0)
}

/// How many occurrences of `pattern` the scan finds in `s`.
pub open spec fn count_occurrences<T>(s: Seq<T>, pattern: Seq<T>) -> nat
    decreases s.len(),
{
    if s.len() == 0 {
        0
    } else if matches_here(s, pattern) {
        1 + count_occurrences(s.skip(pattern.len() as int), pattern)
    } else {
        count_occurrences(s.skip(1), pattern)
    }
}

/// How many occurrences are dropped when up to `n` may be.
pub open spec fn dropped<T>(s: Seq<T>, pattern: Seq<T>, n: nat) -> nat {
    if n <= count_occurrences(s, pattern) {
        n
    } else {
        count_occurrences(s, pattern)
    }
}

/// `s` without the first `n` occurrences of `pattern` that the scan finds.
pub open spec fn without_first_n<T>(s: Seq<T>, pattern: Seq<T>, n: nat) -> Seq<T>
    decreases s.len(),
{
    if s.len() == 0 {
        s
    } else if n > 0 && matches_here(s, pattern) {
        without_first_n(s.skip(pattern.len() as int), pattern, (n - 1) as nat)
    } else {
        seq![s[0]] + without_first_n(s.skip(1), pattern, n)
    }
}

/// `s` without any of the occurrences of `pattern` that the scan finds.
pub open spec fn without_all<T>(s: Seq<T>, pattern: Seq<T>) -> Seq<T>
    decreases s.len(),
{
    if s.len() == 0 {
        s
    } else if matches_here(s, pattern) {
        without_all(s.skip(pattern.len() as int), pattern)
    } else {
        seq![s[0]] + without_all(s.skip(1), pattern)
    }
}

/// With no occurrence left to drop, the scan keeps everything.
pub proof fn lemma_without_none<T>(s: Seq<T>, pattern: Seq<T>)
    ensures
        without_first_n(s, pattern, 0) == s,
    decreases s.len(),
{
    if s.len() > 0 {
        lemma_without_none(s.skip(1), pattern);
    }
}

/// An empty pattern occurs nowhere, so nothing is dropped.
pub proof fn lemma_empty_pattern<T>(s: Seq<T>, pattern: Seq<T>, n: nat)
    requires
        pattern.len() == 0,
    ensures
        count_occurrences(s, pattern) == 0,
        without_first_n(s, pattern, n) == s,
        without_all(s, pattern) == s,
    decreases s.len(),
{
    if s.len() > 0 {
        lemma_empty_pattern(s.skip(1), pattern, n);
    }
}

/// The scan finds no more occurrences than fit into `s` side by side.
pub proof fn lemma_count_bounded<T>(s: Seq<T>, pattern: Seq<T>)
    ensures
        count_occurrences(s, pattern) <= s.len(),
        count_occurrences(s, pattern) * pattern.len() <= s.len(),
    decreases s.len(),
{
    let count = count_occurrences(s, pattern);
    let width = pattern.len();
    if s.len() == 0 {
        assert(count * width == 0) by (nonlinear_arith)
            requires
                count == 0,
        ;
    } else if matches_here(s, pattern) {
        let rest = s.skip(width as int);
        let inner = count_occurrences(rest, pattern);
        lemma_count_bounded(rest, pattern);
        assert(count * width == width + inner * width) by (nonlinear_arith)
            requires
                count == 1 + inner,
        ;
    } else {
        lemma_count_bounded(s.skip(1), pattern);
    }
}

/// Asked to drop at least as many occurrences as the scan finds, dropping the
/// first `n` drops them all.
pub proof fn lemma_without_first_n_saturates<T>(s: Seq<T>, pattern: Seq<T>, n: nat)
    requires
        n >= count_occurrences(s, pattern),
    ensures
        without_first_n(s, pattern, n) == without_all(s, pattern),
    decreases s.len(),
{
    if s.len() == 0 {
    } else if matches_here(s, pattern) {
        lemma_without_first_n_saturates(s.skip(pattern.len() as int), pattern, (n - 1) as nat);
    } else {
        lemma_without_first_n_saturates(s.skip(1), pattern, n);
    }
}

/// Each dropped occurrence shortens the result by the pattern's length.
pub proof fn lemma_without_first_n_len<T>(s: Seq<T>, pattern: Seq<T>, n: nat)
    ensures
        without_first_n(s, pattern, n).len() + dropped(s, pattern, n) * pattern.len() == s.len(),
    decreases s.len(),
{
    let gone = dropped(s, pattern, n);
    let width = pattern.len();
    if s.len() == 0 {
        assert(gone * width == 0) by (nonlinear_arith)
            requires
                gone == 0,
        ;
    } else if n > 0 && matches_here(s, pattern) {
        let rest = s.skip(width as int);
        let inner = dropped(rest, pattern, (n - 1) as nat);
        lemma_without_first_n_len(rest, pattern, (n - 1) as nat);
        assert(gone * width == width + inner * width) by (nonlinear_arith)
            requires
                gone == 1 + inner,
        ;
    } else {
        lemma_without_first_n_len(s.skip(1), pattern, n);
    }
}

/// Where the scan drops nothing at any of the first `k` offsets, it keeps the
/// first `k` items.
pub proof fn lemma_keep_run<T>(s: Seq<T>, pattern: Seq<T>, n: nat, k: int)
    requires
        0 <= k <= s.len(),
        forall|j: int| 0 <= j < k ==> !(n > 0 && #[trigger] matches_here(s.skip(j), pattern)),
    ensures
        without_first_n(s, pattern, n) == s.take(k) + without_first_n(s.skip(k), pattern, n),
    decreases k,
{
    if k == 0 {
        assert(s.skip(0) == s);
    } else {
        let tail = s.skip(1);
        assert(s.skip(0) == s);
        assert forall|j: int| 0 <= j < k - 1 implies !(n > 0 && #[trigger] matches_here(
            tail.skip(j),
            pattern,
        )) by {
            assert(tail.skip(j) == s.skip(j + 1));
        }
        lemma_keep_run(tail, pattern, n, k - 1);
        assert(tail.skip(k - 1) == s.skip(k));
    }
}

/// Where the scan drops nothing at the start, it keeps the first item.
proof fn lemma_keep_first<T>(s: Seq<T>, pattern: Seq<T>, n: nat)
    requires
        s.len() > 0,
        !(n > 0 && matches_here(s, pattern)),
    ensures
        without_first_n(s, pattern, n) == seq![s[0]] + without_first_n(s.skip(1), pattern, n),
{
}

/// Tells whether `pattern` stands in `hay` at offset `at`.
pub fn found_at(hay: &[u8], pattern: &[u8], at: usize) -> (found: bool)
    ensures
        found == occurs_at(hay@, pattern@, at as int),
{
    let width: usize = pattern.len();
    let size: usize = hay.len();
    if width > size || at > size - width {
        return false;
    }
    let mut i: usize = 0;
    while i < width
        invariant
            i <= width == pattern@.len(),
            at + width <= size == hay@.len(),
            hay@.subrange(at as int, at + i) == pattern@.take(i as int),
        decreases width - i,
    {
        if hay[at + i] != pattern[i] {
            return false;
        }
        i += 1;
    }
    assert(pattern@.take(width as int) == pattern@);
    true
}

/// `hay` without the first `n` occurrences of `pattern`.
pub fn strip_first_n(hay: &[u8], pattern: &[u8], n: usize) -> (kept: Vec<u8>)
    ensures
        kept@ == without_first_n(hay@, pattern@, n as nat),
{
    let width: usize = pattern.len();
    let mut kept: Vec<u8> = Vec::with_capacity(hay.len());
    let mut at: usize = 0;
    let mut gone: usize = 0;
    assert(hay@.skip(0) == hay@);
    while at < hay.len()
        invariant
            at <= hay@.len(),
            gone <= n,
            width == pattern@.len(),
            without_first_n(hay@, pattern@, n as nat) == kept@ + without_first_n(
                hay@.skip(at as int),
                pattern@,
                (n - gone) as nat,
            ),
        decreases hay.len() - at,
    {
        let ghost rest: Seq<u8> = hay@.skip(at as int);
        assert(occurs_at(rest, pattern@, 0) == occurs_at(hay@, pattern@, at as int)) by {
            if at + width <= hay@.len() {
                assert(rest.subrange(0, width as int) == hay@.subrange(at as int, at + width));
            }
        }
        if gone < n && width > 0 && found_at(hay, pattern, at) {
            assert(rest.skip(width as int) == hay@.skip(at + width));
            at += width;
            gone += 1;
        } else {
            proof {
                lemma_keep_first(rest, pattern@, (n - gone) as nat);
                assert(rest.skip(1) == hay@.skip(at + 1));
            }
            kept.push(hay[at]);
            at += 1;
        }
    }
    kept
}

/// `hay` without any occurrence of `pattern`.
pub fn strip_all(hay: &[u8], pattern: &[u8]) -> (kept: Vec<u8>)
    ensures
        kept@ == without_all(hay@, pattern@),
{
    proof {
        lemma_count_bounded(hay@, pattern@);
        lemma_without_first_n_saturates(hay@, pattern@, hay@.len());
    }
    strip_first_n(hay, pattern, hay.len())
}

} // verus!
