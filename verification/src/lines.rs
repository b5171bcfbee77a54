//! Sequences that are made of lines.

use vstd::prelude::*;

verus! {

/// The length of the first line of `s`, its `newline` included.
pub open spec fn first_line_len<T>(s: Seq<T>, newline: T) -> nat
    decreases s.len(),
{
    if s.len() == 0 {
        0
    } else if s[0] == newline {
        1
    } else {
        1 + first_line_len(s.drop_first(), newline)
    }
}

/// The first line of `s`, its `newline` included.
pub open spec fn first_line<T>(s: Seq<T>, newline: T) -> Seq<T> {
    s.take(first_line_len(s, newline) as int)
}

/// What follows the first line of `s`.
pub open spec fn after_first_line<T>(s: Seq<T>, newline: T) -> Seq<T> {
    s.skip(first_line_len(s, newline) as int)
}

/// A non-empty sequence has a non-empty first line, which holds a newline at most at its end.
pub proof fn lemma_first_line_len<T>(s: Seq<T>, newline: T)
    ensures
        first_line_len(s, newline) <= s.len(),
        s.len() > 0 ==> first_line_len(s, newline) > 0,
        forall|i: int| 0 <= i < first_line_len(s, newline) - 1 ==> s[i] != newline,
        first_line_len(s, newline) < s.len() ==> s[first_line_len(s, newline) - 1] == newline,
    decreases s.len(),
{
    if s.len() > 0 && s[0] != newline {
        let rest = s.drop_first();
        lemma_first_line_len(rest, newline);
        assert forall|i: int| 0 <= i < first_line_len(s, newline) - 1 implies s[i] != newline by {
            if i > 0 {
                assert(rest[i - 1] == s[i]);
            }
        }
        if first_line_len(s, newline) < s.len() {
            assert(rest[first_line_len(rest, newline) - 1] == s[first_line_len(s, newline) - 1]);
        }
    }
}

/// The first line is the only prefix that ends at the first newline.
pub proof fn lemma_first_line_is<T>(s: Seq<T>, n: int, newline: T)
    requires
        0 < n <= s.len(),
        forall|i: int| 0 <= i < n - 1 ==> s[i] != newline,
        n < s.len() ==> s[n - 1] == newline,
    ensures
        first_line_len(s, newline) == n,
{
    lemma_first_line_len(s, newline);
    let m = first_line_len(s, newline) as int;
    if m < n {
        assert(s[m - 1] == newline);
    } else if n < m {
        assert(s[n - 1] == newline);
    }
}

/// After a sequence that ends with a newline, more lines change nothing in its own.
pub proof fn lemma_first_line_append<T>(a: Seq<T>, b: Seq<T>, newline: T)
    requires
        a.len() > 0,
        a.last() == newline,
    ensures
        first_line_len(a + b, newline) == first_line_len(a, newline),
        first_line(a + b, newline) == first_line(a, newline),
        after_first_line(a + b, newline) == after_first_line(a, newline) + b,
        after_first_line(a, newline).len() > 0 ==> after_first_line(a, newline).last() == newline,
{
    lemma_first_line_len(a, newline);
    let n = first_line_len(a, newline) as int;
    assert(a[n - 1] == newline);
    lemma_first_line_is(a + b, n, newline);
    assert(first_line(a + b, newline) =~= first_line(a, newline));
    assert(after_first_line(a + b, newline) =~= after_first_line(a, newline) + b);
}

} // verus!
