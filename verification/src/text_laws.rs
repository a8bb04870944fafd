//! What holds of the operations on text: laws that the proofs of other
//! modules rest on.

use crate::runs::lemma_leading_is;
use crate::runs::lemma_leading_run;
use crate::runs::lemma_trailing_is;
use crate::text::end_trimmed;
use crate::text::fields;
use crate::text::first_sep;
use crate::text::is_space;
use crate::text::trimmed;
use crate::text::without_prefixes;
use crate::text::without_suffixes;
use crate::text::CharClass;
use vstd::prelude::*;

verus! {

/// Whether every character of `s` is white space.
pub open spec fn all_space(s: Seq<char>) -> bool {
    forall|i: int| 0 <= i < s.len() ==> is_space(#[trigger] s[i])
}

/// Whether `c` does not occur in `s`.
pub open spec fn free_of(s: Seq<char>, c: char) -> bool {
    forall|i: int| 0 <= i < s.len() ==> #[trigger] s[i] != c
}

/// Trimming removes the white space around a text that begins and ends with
/// other characters, and nothing else.
pub proof fn lemma_trimmed_core(front: Seq<char>, core: Seq<char>, back: Seq<char>)
    requires
        all_space(front),
        all_space(back),
        core.len() > 0,
        !is_space(core[0]),
        !is_space(core.last()),
    ensures
        end_trimmed(front + core + back) == front + core,
        trimmed(front + core + back) == core,
{
    let s = front + core + back;
    let t = front + core;
    let p = CharClass::Space.pred();
    assert forall|j: int| s.len() - back.len() <= j < s.len() implies p(#[trigger] s[j]) by {
        assert(s[j] == back[j - front.len() - core.len()]);
    }
    assert(s[s.len() - back.len() - 1] == core.last());
    lemma_trailing_is(s, p, back.len() as int);
    assert(s.take(s.len() - back.len()) =~= t);
    assert forall|j: int| 0 <= j < front.len() implies p(#[trigger] t[j]) by {
        assert(t[j] == front[j]);
    }
    assert(t[front.len() as int] == core[0]);
    lemma_leading_is(t, p, front.len() as int);
    assert(t.skip(front.len() as int) =~= core);
}

/// A pattern at the start is removed once where what follows it does not
/// begin with the pattern.
pub proof fn lemma_without_prefixes_once(pat: Seq<char>, rest: Seq<char>)
    requires
        pat.len() > 0,
        !pat.is_prefix_of(rest),
    ensures
        without_prefixes(pat + rest, pat) == rest,
{
    assert((pat + rest).subrange(0, pat.len() as int) =~= pat);
    assert((pat + rest).skip(pat.len() as int) =~= rest);
    reveal_with_fuel(without_prefixes, 2);
}

/// A pattern at the end is removed once where what stands before it does
/// not end with the pattern.
pub proof fn lemma_without_suffixes_once(rest: Seq<char>, pat: Seq<char>)
    requires
        pat.len() > 0,
        !pat.is_suffix_of(rest),
    ensures
        without_suffixes(rest + pat, pat) == rest,
{
    let s = rest + pat;
    assert(s.subrange(s.len() - pat.len(), s.len() as int) =~= pat);
    assert(s.take(s.len() - pat.len()) =~= rest);
    reveal_with_fuel(without_suffixes, 2);
}

/// A text without separator, and not empty, is its own single field.
pub proof fn lemma_fields_one(x: Seq<char>, sep: char)
    requires
        x.len() > 0,
        free_of(x, sep),
    ensures
        fields(x, sep) == seq![x],
{
    let p = CharClass::Not(sep).pred();
    assert forall|j: int| 0 <= j < x.len() implies p(#[trigger] x[j]) by {}
    lemma_leading_is(x, p, x.len() as int);
    assert(x.take(x.len() as int) =~= x);
    assert(x.skip(x.len() as int) =~= Seq::<char>::empty());
    reveal_with_fuel(fields, 2);
    assert(seq![x] + Seq::<Seq<char>>::empty() =~= seq![x]);
}

/// A text without separator, and not empty, is the first field of what it
/// stands in front of.
pub proof fn lemma_fields_first(x: Seq<char>, y: Seq<char>, sep: char)
    requires
        x.len() > 0,
        free_of(x, sep),
    ensures
        fields(x + seq![sep] + y, sep) == seq![x] + fields(y, sep),
{
    let s = x + seq![sep] + y;
    let p = CharClass::Not(sep).pred();
    assert forall|j: int| 0 <= j < x.len() implies p(#[trigger] s[j]) by {
        assert(s[j] == x[j]);
    }
    assert(s[x.len() as int] == sep);
    lemma_leading_is(s, p, x.len() as int);
    assert(s[0] == x[0]);
    assert(s.take(x.len() as int) =~= x);
    let tail = s.skip(x.len() as int);
    assert(tail =~= seq![sep] + y);
    assert(tail[0] == sep);
    assert(tail.skip(1) =~= y);
    assert(fields(tail, sep) == fields(y, sep));
}

/// Every field is a piece without separator, and not empty.
pub proof fn lemma_fields_plain(s: Seq<char>, sep: char)
    ensures
        forall|i: int|
            0 <= i < fields(s, sep).len() ==> (#[trigger] fields(s, sep)[i]).len() > 0 && free_of(
                fields(s, sep)[i],
                sep,
            ),
    decreases s.len(),
{
    if s.len() == 0 {
        assert(fields(s, sep).len() == 0);
    } else if s[0] == sep {
        lemma_fields_plain(s.skip(1), sep);
        assert(fields(s, sep) == fields(s.skip(1), sep));
    } else {
        let p = CharClass::Not(sep).pred();
        let n = first_sep(s, sep) as int;
        lemma_leading_run(s, p);
        lemma_fields_plain(s.skip(n), sep);
        let first = s.take(n);
        let rest = fields(s.skip(n), sep);
        assert forall|i: int| 0 <= i < fields(s, sep).len() implies (#[trigger] fields(
            s,
            sep,
        )[i]).len() > 0 && free_of(fields(s, sep)[i], sep) by {
            assert(fields(s, sep) == seq![first] + rest);
            assert(p(s[0]));
            assert(n >= 1);
            if i == 0 {
                assert(fields(s, sep)[0] == first);
                assert forall|j: int| 0 <= j < first.len() implies #[trigger] first[j] != sep by {
                    assert(first[j] == s[j]);
                    assert(p(s[j]));
                }
            } else {
                assert(fields(s, sep)[i] == rest[i - 1]);
            }
        }
    }
}

/// `parts` written one after the other with `sep` between them.
pub open spec fn joined(parts: Seq<Seq<char>>, sep: char) -> Seq<char>
    decreases parts.len(),
{
    if parts.len() == 0 {
        Seq::empty()
    } else if parts.len() == 1 {
        parts[0]
    } else {
        parts[0] + seq![sep] + joined(parts.skip(1), sep)
    }
}

/// Cutting gives back the pieces that were joined, where none of them is
/// empty or holds the separator.
pub proof fn lemma_fields_joined(parts: Seq<Seq<char>>, sep: char)
    requires
        forall|i: int| 0 <= i < parts.len() ==> (#[trigger] parts[i]).len() > 0,
        forall|i: int| 0 <= i < parts.len() ==> free_of(#[trigger] parts[i], sep),
    ensures
        fields(joined(parts, sep), sep) == parts,
    decreases parts.len(),
{
    if parts.len() == 0 {
        assert(parts =~= Seq::<Seq<char>>::empty());
    } else if parts.len() == 1 {
        lemma_fields_one(parts[0], sep);
        assert(parts =~= seq![parts[0]]);
    } else {
        let rest = parts.skip(1);
        assert forall|i: int| 0 <= i < rest.len() implies (#[trigger] rest[i]).len() > 0 by {
            assert(rest[i] == parts[i + 1]);
        }
        assert forall|i: int| 0 <= i < rest.len() implies free_of(#[trigger] rest[i], sep) by {
            assert(rest[i] == parts[i + 1]);
        }
        lemma_fields_joined(rest, sep);
        lemma_fields_first(parts[0], joined(rest, sep), sep);
        assert(seq![parts[0]] + rest =~= parts);
    }
}

/// The text that was joined begins with its first piece and ends with its
/// last.
pub proof fn lemma_joined_ends(parts: Seq<Seq<char>>, sep: char)
    requires
        parts.len() > 0,
        forall|i: int| 0 <= i < parts.len() ==> (#[trigger] parts[i]).len() > 0,
    ensures
        joined(parts, sep).len() > 0,
        joined(parts, sep)[0] == parts[0][0],
        joined(parts, sep).last() == parts.last().last(),
    decreases parts.len(),
{
    if parts.len() > 1 {
        let rest = parts.skip(1);
        assert forall|i: int| 0 <= i < rest.len() implies (#[trigger] rest[i]).len() > 0 by {
            assert(rest[i] == parts[i + 1]);
        }
        lemma_joined_ends(rest, sep);
        assert(rest.last() == parts.last());
    }
}

/// What stands between a marker that begins with an opening bracket and a
/// closing bracket is what is left when the marker and the bracket are
/// removed, where it neither begins nor ends with such a bracket itself.
pub proof fn lemma_unwrapped(marker: Seq<char>, name: Seq<char>)
    requires
        marker.len() > 0,
        marker[0] == '[',
        name.len() == 0 || (name[0] != '[' && name.last() != ']'),
    ensures
        without_suffixes(without_prefixes(marker + name + "]"@, marker), "]"@) == name,
{
    reveal_strlit("]");
    let close = "]"@;
    assert(marker + name + close =~= marker + (name + close));
    assert(!marker.is_prefix_of(name + close)) by {
        if marker.is_prefix_of(name + close) {
            let front = (name + close).subrange(0, marker.len() as int);
            assert(front[0] == (name + close)[0]);
            if name.len() > 0 {
                assert((name + close)[0] == name[0]);
            }
        }
    }
    lemma_without_prefixes_once(marker, name + close);
    assert(!close.is_suffix_of(name)) by {
        if close.is_suffix_of(name) {
            let back = name.subrange(name.len() - 1, name.len() as int);
            assert(back[0] == name[name.len() - 1]);
        }
    }
    lemma_without_suffixes_once(name, close);
}

} // verus!
