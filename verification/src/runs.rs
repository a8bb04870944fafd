//! Runs: how many items at one end of a sequence satisfy a predicate.

use vstd::prelude::*;

verus! {

/// How many items at the front of `s` satisfy `p`, up to the first that does not.
pub open spec fn leading<T>(s: Seq<T>, p: spec_fn(T) -> bool) -> nat
    decreases s.len(),
{
    if s.len() > 0 && p(s[0]) {
        1 + leading(s.skip(1), p)
    } else {
        0
    }
}

/// How many items at the back of `s` satisfy `p`, down to the last that does not.
pub open spec fn trailing<T>(s: Seq<T>, p: spec_fn(T) -> bool) -> nat
    decreases s.len(),
{
    if s.len() > 0 && p(s.last()) {
        1 + trailing(s.drop_last(), p)
    } else {
        0
    }
}

/// `leading(s, p)` is the one `n` such that the first `n` items satisfy `p`
/// and item `n`, if there is one, does not.
pub proof fn lemma_leading_is<T>(s: Seq<T>, p: spec_fn(T) -> bool, n: int)
    requires
        0 <= n <= s.len(),
        forall|j: int| 0 <= j < n ==> p(#[trigger] s[j]),
        n == s.len() || !p(s[n]),
    ensures
        leading(s, p) == n,
    decreases n,
{
    if n > 0 {
        let t = s.skip(1);
        assert forall|j: int| 0 <= j < n - 1 implies p(#[trigger] t[j]) by {
            assert(t[j] == s[j + 1]);
        }
        lemma_leading_is(t, p, n - 1);
    }
}

/// The first `leading(s, p)` items satisfy `p`; the next one, if any, does not.
pub proof fn lemma_leading_run<T>(s: Seq<T>, p: spec_fn(T) -> bool)
    ensures
        leading(s, p) <= s.len(),
        forall|j: int| 0 <= j < leading(s, p) ==> p(#[trigger] s[j]),
        leading(s, p) == s.len() || !p(s[leading(s, p) as int]),
    decreases s.len(),
{
    if s.len() > 0 && p(s[0]) {
        let t = s.skip(1);
        lemma_leading_run(t, p);
        assert forall|j: int| 0 <= j < leading(s, p) implies p(#[trigger] s[j]) by {
            if j > 0 {
                assert(s[j] == t[j - 1]);
            }
        }
        if leading(s, p) != s.len() {
            assert(s[leading(s, p) as int] == t[leading(t, p) as int]);
        }
    }
}

/// Two sequences whose items agree on `p`, place by place, have as many
/// leading items that satisfy `p`.
pub proof fn lemma_leading_agree<T>(s: Seq<T>, t: Seq<T>, p: spec_fn(T) -> bool)
    requires
        s.len() == t.len(),
        forall|j: int| 0 <= j < s.len() ==> p(#[trigger] s[j]) == p(t[j]),
    ensures
        leading(s, p) == leading(t, p),
{
    lemma_leading_run(s, p);
    let n = leading(s, p) as int;
    assert forall|j: int| 0 <= j < n implies p(#[trigger] t[j]) by {
        assert(p(s[j]));
    }
    if n < s.len() {
        assert(p(s[n]) == p(t[n]));
    }
    lemma_leading_is(t, p, n);
}

/// One more item at the end counts only where all the others do.
pub proof fn lemma_leading_push<T>(s: Seq<T>, p: spec_fn(T) -> bool, x: T)
    ensures
        leading(s.push(x), p) == if leading(s, p) == s.len() && p(x) {
            s.len() + 1
        } else {
            leading(s, p)
        },
{
    lemma_leading_run(s, p);
    let t = s.push(x);
    let n = leading(s, p) as int;
    if n == s.len() && p(x) {
        assert forall|j: int| 0 <= j < n + 1 implies p(#[trigger] t[j]) by {
            if j < n {
                assert(t[j] == s[j]);
            }
        }
        lemma_leading_is(t, p, n + 1);
    } else {
        assert forall|j: int| 0 <= j < n implies p(#[trigger] t[j]) by {
            assert(t[j] == s[j]);
        }
        if n < s.len() {
            assert(t[n] == s[n]);
        }
        lemma_leading_is(t, p, n);
    }
}

/// Where the first `n` items satisfy `p`, the count goes on behind them.
pub proof fn lemma_leading_skip<T>(s: Seq<T>, p: spec_fn(T) -> bool, n: int)
    requires
        0 <= n <= s.len(),
        forall|j: int| 0 <= j < n ==> p(#[trigger] s[j]),
    ensures
        leading(s, p) == n + leading(s.skip(n), p),
{
    let t = s.skip(n);
    lemma_leading_run(t, p);
    let m = leading(t, p) as int;
    assert forall|j: int| 0 <= j < n + m implies p(#[trigger] s[j]) by {
        if j >= n {
            assert(s[j] == t[j - n]);
        }
    }
    if n + m < s.len() {
        assert(s[n + m] == t[m]);
    }
    lemma_leading_is(s, p, n + m);
}

/// `trailing(s, p)` is the one `n` such that the last `n` items satisfy `p`
/// and the item before them, if there is one, does not.
pub proof fn lemma_trailing_is<T>(s: Seq<T>, p: spec_fn(T) -> bool, n: int)
    requires
        0 <= n <= s.len(),
        forall|j: int| s.len() - n <= j < s.len() ==> p(#[trigger] s[j]),
        n == s.len() || !p(s[s.len() - n - 1]),
    ensures
        trailing(s, p) == n,
    decreases n,
{
    if n > 0 {
        let t = s.drop_last();
        assert forall|j: int| t.len() - (n - 1) <= j < t.len() implies p(#[trigger] t[j]) by {
            assert(t[j] == s[j]);
        }
        lemma_trailing_is(t, p, n - 1);
    }
}

/// The last `trailing(s, p)` items satisfy `p`; the one before, if any, does not.
pub proof fn lemma_trailing_run<T>(s: Seq<T>, p: spec_fn(T) -> bool)
    ensures
        trailing(s, p) <= s.len(),
        forall|j: int| s.len() - trailing(s, p) <= j < s.len() ==> p(#[trigger] s[j]),
        trailing(s, p) == s.len() || !p(s[s.len() - trailing(s, p) - 1]),
    decreases s.len(),
{
    if s.len() > 0 && p(s.last()) {
        let t = s.drop_last();
        lemma_trailing_run(t, p);
        assert forall|j: int| s.len() - trailing(s, p) <= j < s.len() implies p(
            #[trigger] s[j],
        ) by {
            if j < s.len() - 1 {
                assert(s[j] == t[j]);
            }
        }
        if trailing(s, p) != s.len() {
            assert(s[s.len() - trailing(s, p) - 1] == t[t.len() - trailing(t, p) - 1]);
        }
    }
}

} // verus!
