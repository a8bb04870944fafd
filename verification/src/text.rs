//! Character-level operations on lines of text.
//!
//! Every operation is stated over the sequence of characters that a string
//! holds. The executable functions take string slices and hand back slices of
//! their argument, or owned strings where a slice would not outlive the call.

use crate::runs::leading;
use crate::runs::lemma_leading_is;
use crate::runs::lemma_leading_run;
use crate::runs::lemma_trailing_is;
use crate::runs::trailing;
use vstd::prelude::*;
use vstd::string::StrSliceExecFns;
use vstd::string::StringExecFns;

verus! {

/// White space: the characters that carry Unicode's `White_Space` property.
pub open spec fn is_space(c: char) -> bool {
    ||| '\u{9}' <= c <= '\u{D}'
    ||| c == ' '
    ||| c == '\u{85}'
    ||| c == '\u{A0}'
    ||| c == '\u{1680}'
    ||| '\u{2000}' <= c <= '\u{200A}'
    ||| c == '\u{2028}'
    ||| c == '\u{2029}'
    ||| c == '\u{202F}'
    ||| c == '\u{205F}'
    ||| c == '\u{3000}'
}

/// A set of characters that a scan can test for.
#[derive(Clone, Copy, Debug)]
pub enum CharClass {
    /// White space.
    Space,
    /// Every character but the given one.
    Not(char),
}

impl CharClass {
    /// Whether `c` belongs to the class.
    pub open spec fn holds(self, c: char) -> bool {
        match self {
            CharClass::Space => is_space(c),
            CharClass::Not(x) => c != x,
        }
    }

    /// The class as a predicate.
    pub open spec fn pred(self) -> spec_fn(char) -> bool {
        |c: char| self.holds(c)
    }

    /// Tests `c` against the class.
    pub fn test(&self, c: char) -> (b: bool)
        ensures
            b == self.holds(c),
    {
        match self {
            CharClass::Space => is_whitespace(c),
            CharClass::Not(x) => c != *x,
        }
    }
}

/// Tests a character for white space.
pub fn is_whitespace(c: char) -> (b: bool)
    ensures
        b == is_space(c),
{
    (c >= '\u{9}' && c <= '\u{D}') || c == ' ' || c == '\u{85}' || c == '\u{A0}' || c == '\u{1680}'
        || (c >= '\u{2000}' && c <= '\u{200A}') || c == '\u{2028}' || c == '\u{2029}' || c
        == '\u{202F}' || c == '\u{205F}' || c == '\u{3000}'
}

/// `s` without the white space at its end.
pub open spec fn end_trimmed(s: Seq<char>) -> Seq<char> {
    s.take(s.len() - trailing(s, CharClass::Space.pred()))
}

/// `s` without the white space at its start.
pub open spec fn start_trimmed(s: Seq<char>) -> Seq<char> {
    s.skip(leading(s, CharClass::Space.pred()) as int)
}

/// `s` without the white space at either end.
pub open spec fn trimmed(s: Seq<char>) -> Seq<char> {
    start_trimmed(end_trimmed(s))
}

/// `s` with every copy of `pat` at its start removed, one after the other.
/// An empty `pat` removes nothing.
pub open spec fn without_prefixes(s: Seq<char>, pat: Seq<char>) -> Seq<char>
    decreases s.len(),
{
    if pat.len() > 0 && pat.is_prefix_of(s) {
        without_prefixes(s.skip(pat.len() as int), pat)
    } else {
        s
    }
}

/// `s` with every copy of `pat` at its end removed, one after the other.
/// An empty `pat` removes nothing.
pub open spec fn without_suffixes(s: Seq<char>, pat: Seq<char>) -> Seq<char>
    decreases s.len(),
{
    if pat.len() > 0 && pat.is_suffix_of(s) {
        without_suffixes(s.take(s.len() - pat.len()), pat)
    } else {
        s
    }
}

/// The position of the first `sep` in `s`, or the length of `s` if it has none.
pub open spec fn first_sep(s: Seq<char>, sep: char) -> nat {
    leading(s, CharClass::Not(sep).pred())
}

/// The non-empty pieces that remain of `s` when it is cut at every `sep`.
pub open spec fn fields(s: Seq<char>, sep: char) -> Seq<Seq<char>>
    decreases s.len(),
    via fields_decreases
{
    if s.len() == 0 {
        Seq::empty()
    } else if s[0] == sep {
        fields(s.skip(1), sep)
    } else {
        seq![s.take(first_sep(s, sep) as int)] + fields(s.skip(first_sep(s, sep) as int), sep)
    }
}

#[via_fn]
proof fn fields_decreases(s: Seq<char>, sep: char) {
    if s.len() > 0 && s[0] != sep {
        lemma_leading_run(s, CharClass::Not(sep).pred());
    }
}

/// The two sides of the first `sep` in `s`, if it has one.
pub open spec fn halves(s: Seq<char>, sep: char) -> Option<(Seq<char>, Seq<char>)> {
    if first_sep(s, sep) < s.len() {
        Some((s.take(first_sep(s, sep) as int), s.skip(first_sep(s, sep) as int + 1)))
    } else {
        None
    }
}

/// The characters of `s`, in order.
pub fn chars_of(s: &str) -> (v: Vec<char>)
    ensures
        v@ == s@,
{
    let mut v: Vec<char> = Vec::new();
    for c in it: s.chars()
        invariant
            v@ == it.seq().take(it.index() as int),
            it.seq() == s@,
    {
        v.push(c);
    }
    v
}

/// The characters of `s` from position `a` up to position `b`.
pub fn slice<'a>(s: &'a str, a: usize, b: usize) -> (r: &'a str)
    requires
        a <= b <= s@.len(),
    ensures
        r@ == s@.subrange(a as int, b as int),
{
    s.substring_char(a, b)
}

/// Counts the characters of class `class` at the front of `v[lo..hi]`.
fn leading_in(v: &Vec<char>, lo: usize, hi: usize, class: CharClass) -> (n: usize)
    requires
        lo <= hi <= v.len(),
    ensures
        n == leading(v@.subrange(lo as int, hi as int), class.pred()),
        lo + n <= hi,
{
    let mut i: usize = lo;
    while i < hi && class.test(v[i])
        invariant
            lo <= i <= hi <= v.len(),
            forall|j: int| lo <= j < i ==> class.holds(#[trigger] v@[j]),
        decreases hi - i,
    {
        i += 1;
    }
    proof {
        let w = v@.subrange(lo as int, hi as int);
        assert forall|j: int| 0 <= j < i - lo implies (class.pred())(#[trigger] w[j]) by {
            assert(w[j] == v@[lo + j]);
        }
        lemma_leading_is(w, class.pred(), i - lo);
    }
    i - lo
}

/// Counts the characters of class `class` at the back of `v[lo..hi]`.
fn trailing_in(v: &Vec<char>, lo: usize, hi: usize, class: CharClass) -> (n: usize)
    requires
        lo <= hi <= v.len(),
    ensures
        n == trailing(v@.subrange(lo as int, hi as int), class.pred()),
        lo + n <= hi,
{
    let mut i: usize = hi;
    while i > lo && class.test(v[i - 1])
        invariant
            lo <= i <= hi <= v.len(),
            forall|j: int| i <= j < hi ==> class.holds(#[trigger] v@[j]),
        decreases i - lo,
    {
        i -= 1;
    }
    proof {
        let w = v@.subrange(lo as int, hi as int);
        assert forall|j: int| w.len() - (hi - i) <= j < w.len() implies (class.pred())(
            #[trigger] w[j],
        ) by {
            assert(w[j] == v@[lo + j]);
        }
        lemma_trailing_is(w, class.pred(), hi - i);
    }
    hi - i
}

/// Whether `v[lo..hi]` begins with `p`.
fn prefix_at(v: &Vec<char>, lo: usize, hi: usize, p: &Vec<char>) -> (b: bool)
    requires
        lo <= hi <= v.len(),
    ensures
        b == p@.is_prefix_of(v@.subrange(lo as int, hi as int)),
{
    if p.len() > hi - lo {
        return false;
    }
    let mut i: usize = 0;
    while i < p.len()
        invariant
            lo <= hi <= v.len(),
            i <= p.len() <= hi - lo,
            forall|j: int| 0 <= j < i ==> p@[j] == v@[lo + j],
        decreases p.len() - i,
    {
        if p[i] != v[lo + i] {
            proof {
                let w = v@.subrange(lo as int, hi as int);
                assert(w.subrange(0, p@.len() as int)[i as int] == v@[lo + i]);
            }
            return false;
        }
        i += 1;
    }
    proof {
        let w = v@.subrange(lo as int, hi as int);
        assert(p@ =~= w.subrange(0, p@.len() as int));
    }
    true
}

/// Whether `v[lo..hi]` ends with `p`.
fn suffix_at(v: &Vec<char>, lo: usize, hi: usize, p: &Vec<char>) -> (b: bool)
    requires
        lo <= hi <= v.len(),
    ensures
        b == p@.is_suffix_of(v@.subrange(lo as int, hi as int)),
{
    if p.len() > hi - lo {
        return false;
    }
    let start: usize = hi - p.len();
    let mut i: usize = 0;
    while i < p.len()
        invariant
            lo <= start <= hi <= v.len(),
            start + p.len() == hi,
            i <= p.len(),
            forall|j: int| 0 <= j < i ==> p@[j] == v@[start + j],
        decreases p.len() - i,
    {
        if p[i] != v[start + i] {
            proof {
                let w = v@.subrange(lo as int, hi as int);
                assert(w.subrange(w.len() - p@.len(), w.len() as int)[i as int] == v@[start + i]);
            }
            return false;
        }
        i += 1;
    }
    proof {
        let w = v@.subrange(lo as int, hi as int);
        assert(p@ =~= w.subrange(w.len() - p@.len(), w.len() as int));
    }
    true
}

/// Whether two strings hold the same characters.
pub fn str_eq(a: &str, b: &str) -> (r: bool)
    ensures
        r == (a@ == b@),
{
    let x = chars_of(a);
    let y = chars_of(b);
    if x.len() != y.len() {
        return false;
    }
    let r = prefix_at(&x, 0, x.len(), &y);
    proof {
        assert(x@.subrange(0, x@.len() as int) =~= x@);
        if r {
            assert(y@ =~= x@);
        }
    }
    r
}

/// Whether `s` begins with `prefix`.
pub fn starts_with(s: &str, prefix: &str) -> (b: bool)
    ensures
        b == prefix@.is_prefix_of(s@),
{
    let v = chars_of(s);
    let p = chars_of(prefix);
    proof {
        assert(v@.subrange(0, v@.len() as int) =~= v@);
    }
    prefix_at(&v, 0, v.len(), &p)
}

/// `s` without the white space at either end.
pub fn trim<'a>(s: &'a str) -> (r: &'a str)
    ensures
        r@ == trimmed(s@),
{
    let v = chars_of(s);
    let back = trailing_in(&v, 0, v.len(), CharClass::Space);
    let hi: usize = v.len() - back;
    let front = leading_in(&v, 0, hi, CharClass::Space);
    proof {
        assert(v@.subrange(0, v@.len() as int) =~= v@);
        assert(v@.subrange(0, hi as int) =~= end_trimmed(s@));
        assert(s@.subrange(front as int, hi as int) =~= trimmed(s@));
    }
    slice(s, front, hi)
}

/// `s` without the white space at its end.
pub fn trim_end<'a>(s: &'a str) -> (r: &'a str)
    ensures
        r@ == end_trimmed(s@),
{
    let v = chars_of(s);
    let back = trailing_in(&v, 0, v.len(), CharClass::Space);
    proof {
        assert(v@.subrange(0, v@.len() as int) =~= v@);
    }
    slice(s, 0, v.len() - back)
}

/// `s` with every copy of `pat` at its start removed.
pub fn trim_start_matches<'a>(s: &'a str, pat: &str) -> (r: &'a str)
    ensures
        r@ == without_prefixes(s@, pat@),
{
    let v = chars_of(s);
    let p = chars_of(pat);
    let hi: usize = v.len();
    let mut lo: usize = 0;
    proof {
        assert(v@.subrange(0, hi as int) =~= s@);
    }
    if p.len() == 0 {
        return slice(s, 0, hi);
    }
    while prefix_at(&v, lo, hi, &p)
        invariant
            lo <= hi == v.len(),
            p.len() > 0,
            p@ == pat@,
            without_prefixes(s@, pat@) == without_prefixes(v@.subrange(lo as int, hi as int), pat@),
        decreases hi - lo,
    {
        proof {
            let w = v@.subrange(lo as int, hi as int);
            assert(w.skip(p@.len() as int) =~= v@.subrange(lo + p@.len(), hi as int));
        }
        lo += p.len();
    }
    proof {
        assert(v@.subrange(lo as int, hi as int) =~= s@.subrange(lo as int, hi as int));
    }
    slice(s, lo, hi)
}

/// `s` with every copy of `pat` at its end removed.
pub fn trim_end_matches<'a>(s: &'a str, pat: &str) -> (r: &'a str)
    ensures
        r@ == without_suffixes(s@, pat@),
{
    let v = chars_of(s);
    let p = chars_of(pat);
    let mut hi: usize = v.len();
    proof {
        assert(v@.subrange(0, hi as int) =~= s@);
    }
    if p.len() == 0 {
        return slice(s, 0, hi);
    }
    while suffix_at(&v, 0, hi, &p)
        invariant
            hi <= v.len(),
            p.len() > 0,
            p@ == pat@,
            v@ == s@,
            without_suffixes(s@, pat@) == without_suffixes(v@.subrange(0, hi as int), pat@),
        decreases hi,
    {
        proof {
            let w = v@.subrange(0, hi as int);
            assert(w.take(w.len() - p@.len()) =~= v@.subrange(0, hi - p@.len()));
        }
        hi -= p.len();
    }
    slice(s, 0, hi)
}

/// `s` without `prefix` at its start, if it begins with it.
pub open spec fn sans_prefix(s: Seq<char>, prefix: Seq<char>) -> Option<Seq<char>> {
    if prefix.is_prefix_of(s) {
        Some(s.skip(prefix.len() as int))
    } else {
        None
    }
}

/// `s` without `suffix` at its end, if it ends with it.
pub open spec fn sans_suffix(s: Seq<char>, suffix: Seq<char>) -> Option<Seq<char>> {
    if suffix.is_suffix_of(s) {
        Some(s.take(s.len() - suffix.len()))
    } else {
        None
    }
}

/// The view of an optional slice.
pub open spec fn opt_view(o: Option<&str>) -> Option<Seq<char>> {
    match o {
        Some(s) => Some(s@),
        None => None,
    }
}

/// The views of an optional pair of slices.
pub open spec fn opt_pair_view(o: Option<(&str, &str)>) -> Option<(Seq<char>, Seq<char>)> {
    match o {
        Some((a, b)) => Some((a@, b@)),
        None => None,
    }
}

/// `s` without `prefix` at its start, or `None` if it does not begin with it.
pub fn strip_prefix<'a>(s: &'a str, prefix: &str) -> (r: Option<&'a str>)
    ensures
        opt_view(r) == sans_prefix(s@, prefix@),
{
    let v = chars_of(s);
    let p = chars_of(prefix);
    proof {
        assert(v@.subrange(0, v@.len() as int) =~= v@);
    }
    if prefix_at(&v, 0, v.len(), &p) {
        Some(slice(s, p.len(), v.len()))
    } else {
        None
    }
}

/// `s` without `suffix` at its end, or `None` if it does not end with it.
pub fn strip_suffix<'a>(s: &'a str, suffix: &str) -> (r: Option<&'a str>)
    ensures
        opt_view(r) == sans_suffix(s@, suffix@),
{
    let v = chars_of(s);
    let p = chars_of(suffix);
    proof {
        assert(v@.subrange(0, v@.len() as int) =~= v@);
    }
    if suffix_at(&v, 0, v.len(), &p) {
        Some(slice(s, 0, v.len() - p.len()))
    } else {
        None
    }
}

/// The two sides of the first `sep` in `s`, or `None` if it has none.
pub fn split_once<'a>(s: &'a str, sep: char) -> (r: Option<(&'a str, &'a str)>)
    ensures
        opt_pair_view(r) == halves(s@, sep),
{
    let v = chars_of(s);
    let at = leading_in(&v, 0, v.len(), CharClass::Not(sep));
    proof {
        assert(v@.subrange(0, v@.len() as int) =~= v@);
    }
    if at < v.len() {
        Some((slice(s, 0, at), slice(s, at + 1, v.len())))
    } else {
        None
    }
}

/// The non-empty pieces that remain of `s` when it is cut at every `sep`.
pub fn split_fields(s: &str, sep: char) -> (out: Vec<String>)
    ensures
        out.deep_view() == fields(s@, sep),
{
    let v = chars_of(s);
    let n: usize = v.len();
    let mut out: Vec<String> = Vec::new();
    let mut i: usize = 0;
    proof {
        assert(s@.skip(0) =~= s@);
        assert(out.deep_view() =~= Seq::<Seq<char>>::empty());
        assert(Seq::<Seq<char>>::empty() + fields(s@, sep) =~= fields(s@, sep));
    }
    while i < n
        invariant
            i <= n == v.len(),
            v@ == s@,
            fields(s@, sep) == out.deep_view() + fields(s@.skip(i as int), sep),
        decreases n - i,
    {
        let ghost rest = s@.skip(i as int);
        let ghost before = out.deep_view();
        if v[i] == sep {
            proof {
                assert(rest[0] == sep);
                assert(rest.skip(1) =~= s@.skip(i + 1));
            }
            i += 1;
        } else {
            let run = leading_in(&v, i, n, CharClass::Not(sep));
            proof {
                assert(v@.subrange(i as int, n as int) =~= rest);
                assert(rest[0] != sep);
                assert(rest.take(run as int) =~= s@.subrange(i as int, i + run));
                assert(rest.skip(run as int) =~= s@.skip(i + run));
            }
            out.push(String::from_str(slice(s, i, i + run)));
            proof {
                assert(out.deep_view() =~= before.push(rest.take(run as int)));
                assert(before.push(rest.take(run as int)) + fields(rest.skip(run as int), sep)
                    =~= before + (seq![rest.take(run as int)] + fields(
                    rest.skip(run as int),
                    sep,
                )));
            }
            i += run;
        }
    }
    proof {
        assert(s@.skip(n as int) =~= Seq::<char>::empty());
        assert(out.deep_view() + Seq::<Seq<char>>::empty() =~= out.deep_view());
    }
    out
}

} // verus!
