//! The parser of dictionary blocks: a header line, form lines and usage lines.

use crate::anomaly::Anomaly;
use crate::anomaly::AnomalyView;
use crate::runs::leading;
use crate::runs::lemma_leading_is;
use crate::runs::lemma_leading_run;
use crate::runs::lemma_leading_skip;
use crate::scanner::LineScanner;
use crate::text::end_trimmed;
use crate::text::fields;
use crate::text::split_fields;
use crate::text::starts_with;
use crate::text::str_eq;
use crate::text::trim;
use crate::text::trim_end;
use crate::text::trim_end_matches;
use crate::text::trim_start_matches;
use crate::text::trimmed;
use crate::text::without_prefixes;
use crate::text::without_suffixes;
use crate::usage::usage_of_tag;
use crate::usage::Usage;
use crate::word::entry_error;
use crate::word::Word;
use crate::word::WordForm;
use crate::word::WordFormView;
use crate::word::WordView;
use vstd::prelude::*;
use vstd::string::StringExecFns;

verus! {

/// What a line at the place of a block header is.
#[derive(Debug, Clone, Copy, PartialEq, Eq)]
pub enum HeaderKind {
    /// Nothing but white space.
    Blank,
    /// The header of a block.
    Block,
    /// A known line that heads no block: the file's banner or its object tag.
    Ignored,
    /// Anything else.
    Unexpected,
}

/// The tag that dictionary and symbol files carry at their top.
pub open spec fn object_tag() -> Seq<char> {
    "[OBJECT:LANGUAGE]"@
}

/// What `line` is at the place of a header, in a file whose blocks begin
/// with `marker` and whose banner is `banner`.
pub open spec fn header_kind(line: Seq<char>, marker: Seq<char>, banner: Seq<char>) -> HeaderKind {
    if trimmed(line).len() == 0 {
        HeaderKind::Blank
    } else if marker.is_prefix_of(line) {
        HeaderKind::Block
    } else if trimmed(line) == banner || trimmed(line) == object_tag() {
        HeaderKind::Ignored
    } else {
        HeaderKind::Unexpected
    }
}

/// What is noted of `line` at the place of a header: an unexpected line is
/// noted, trimmed; any other line is not.
pub open spec fn header_notes(line: Seq<char>, marker: Seq<char>, banner: Seq<char>) -> Seq<
    AnomalyView,
> {
    if header_kind(line, marker, banner) == HeaderKind::Unexpected {
        seq![AnomalyView::UnexpectedHeader(trimmed(line))]
    } else {
        Seq::empty()
    }
}

/// Classifies `line` at the place of a header.
pub fn classify_header(line: &str, marker: &str, banner: &str) -> (k: HeaderKind)
    ensures
        k == header_kind(line@, marker@, banner@),
{
    let t = trim(line);
    if t.is_empty() {
        HeaderKind::Blank
    } else if starts_with(line, marker) {
        HeaderKind::Block
    } else if str_eq(t, banner) || str_eq(t, "[OBJECT:LANGUAGE]") {
        HeaderKind::Ignored
    } else {
        HeaderKind::Unexpected
    }
}

/// The name that a header line gives after `marker`: the line without the
/// white space at its end, without `marker` at its start and without the
/// closing bracket.
pub open spec fn header_name(line: Seq<char>, marker: Seq<char>) -> Seq<char> {
    without_suffixes(without_prefixes(end_trimmed(line), marker), "]"@)
}

/// The marker that opens a word block.
pub open spec fn word_marker() -> Seq<char> {
    "[WORD:"@
}

/// The banner of a dictionary file.
pub open spec fn words_banner() -> Seq<char> {
    "language_words"@
}

/// Whether `line` is a form line: one tab, then an opening bracket.
pub open spec fn is_form_line(line: Seq<char>) -> bool {
    "\t["@.is_prefix_of(line)
}

/// Whether `line` is a usage line: it begins with two tabs.
pub open spec fn is_usage_line(line: Seq<char>) -> bool {
    "\t\t"@.is_prefix_of(line)
}

/// `is_usage_line` as a predicate.
pub open spec fn usage_line() -> spec_fn(Seq<char>) -> bool {
    |line: Seq<char>| is_usage_line(line)
}

/// The usages that `lines` name, in order. A line whose tag is outside the
/// table adds nothing.
pub open spec fn usages_of(lines: Seq<Seq<char>>) -> Seq<Usage>
    decreases lines.len(),
{
    if lines.len() == 0 {
        Seq::empty()
    } else {
        match usage_of_tag(trimmed(lines.last())) {
            Some(u) => usages_of(lines.drop_last()).push(u),
            None => usages_of(lines.drop_last()),
        }
    }
}

/// What is noted of usage lines: each line whose tag is outside the table,
/// as it was read.
pub open spec fn usage_notes(lines: Seq<Seq<char>>) -> Seq<AnomalyView>
    decreases lines.len(),
{
    if lines.len() == 0 {
        Seq::empty()
    } else {
        match usage_of_tag(trimmed(lines.last())) {
            Some(_) => usage_notes(lines.drop_last()),
            None => usage_notes(lines.drop_last()).push(AnomalyView::UnknownUsage(lines.last())),
        }
    }
}

/// What is noted when form `f` is entered: that it could not be, if so.
pub open spec fn entry_notes(f: WordFormView) -> Seq<AnomalyView> {
    match entry_error(f) {
        Some(error) => seq![AnomalyView::ShortForm { form_type: f.form_type, error }],
        None => Seq::empty(),
    }
}

/// The fields of a form line: the trimmed line, without the brackets around
/// it, cut at every colon.
pub open spec fn form_fields(header: Seq<char>) -> Seq<Seq<char>> {
    fields(without_suffixes(without_prefixes(trimmed(header), "["@), "]"@), ':')
}

/// The form that a form line and the usage lines under it describe. The
/// first field is the type, the others are the surface forms. A line without
/// fields gives a form with an empty type.
pub open spec fn form_of(header: Seq<char>, usage_lines: Seq<Seq<char>>) -> WordFormView {
    let f = form_fields(header);
    if f.len() > 0 {
        WordFormView { form_type: f[0], forms: f.skip(1), usages: usages_of(usage_lines) }
    } else {
        WordFormView {
            form_type: Seq::empty(),
            forms: Seq::empty(),
            usages: usages_of(usage_lines),
        }
    }
}

/// How many of `lines` the form at their start takes: its form line and the
/// usage lines that follow, or none if the first line is no form line.
pub open spec fn form_extent(lines: Seq<Seq<char>>) -> nat {
    if lines.len() > 0 && is_form_line(lines[0]) {
        1 + leading(lines.skip(1), usage_line())
    } else {
        0
    }
}

/// The form at the start of `lines`, if `form_extent(lines) > 0`.
pub open spec fn first_form(lines: Seq<Seq<char>>) -> WordFormView {
    form_of(lines[0], lines.subrange(1, form_extent(lines) as int))
}

/// How many of `lines` the forms at their start take together.
pub open spec fn block_extent(lines: Seq<Seq<char>>) -> nat
    decreases lines.len(),
    via block_extent_decreases
{
    if form_extent(lines) == 0 {
        0
    } else {
        form_extent(lines) + block_extent(lines.skip(form_extent(lines) as int))
    }
}

#[via_fn]
proof fn block_extent_decreases(lines: Seq<Seq<char>>) {
    lemma_form_extent(lines);
}

/// Word `w` after the forms at the start of `lines` are entered, in order.
pub open spec fn with_forms(w: WordView, lines: Seq<Seq<char>>) -> WordView
    decreases lines.len(),
    via with_forms_decreases
{
    if form_extent(lines) == 0 {
        w
    } else {
        with_forms(w.with_form(first_form(lines)), lines.skip(form_extent(lines) as int))
    }
}

#[via_fn]
proof fn with_forms_decreases(w: WordView, lines: Seq<Seq<char>>) {
    lemma_form_extent(lines);
}

/// What is noted of the forms at the start of `lines`: for each form, its
/// unknown usages and then why it could not be entered, if it could not.
pub open spec fn block_notes(lines: Seq<Seq<char>>) -> Seq<AnomalyView>
    decreases lines.len(),
    via block_notes_decreases
{
    if form_extent(lines) == 0 {
        Seq::empty()
    } else {
        usage_notes(lines.subrange(1, form_extent(lines) as int)) + entry_notes(first_form(lines))
            + block_notes(lines.skip(form_extent(lines) as int))
    }
}

#[via_fn]
proof fn block_notes_decreases(lines: Seq<Seq<char>>) {
    lemma_form_extent(lines);
}

/// Entering forms changes nothing of a word but its four roles.
pub proof fn lemma_with_forms_keeps(w: WordView, lines: Seq<Seq<char>>)
    ensures
        with_forms(w, lines).root == w.root,
        with_forms(w, lines).translations == w.translations,
        with_forms(w, lines).symbols == w.symbols,
    decreases lines.len(),
{
    lemma_form_extent(lines);
    if form_extent(lines) > 0 {
        lemma_with_forms_keeps(
            w.with_form(first_form(lines)),
            lines.skip(form_extent(lines) as int),
        );
    }
}

/// A block takes no more lines than there are.
pub proof fn lemma_block_extent(lines: Seq<Seq<char>>)
    ensures
        block_extent(lines) <= lines.len(),
    decreases lines.len(),
{
    lemma_form_extent(lines);
    if form_extent(lines) > 0 {
        lemma_block_extent(lines.skip(form_extent(lines) as int));
    }
}

/// The predicate "is a form line or a usage line".
pub open spec fn block_line() -> spec_fn(Seq<char>) -> bool {
    |line: Seq<char>| is_form_line(line) || is_usage_line(line)
}

/// A block ends at the first line that is neither a form line nor a usage
/// line, and a block that does not begin with a form line is empty.
pub proof fn lemma_block_extent_is(lines: Seq<Seq<char>>)
    ensures
        block_extent(lines) == if lines.len() > 0 && is_form_line(lines[0]) {
            leading(lines, block_line())
        } else {
            0
        },
    decreases lines.len(),
{
    lemma_form_extent(lines);
    let n = form_extent(lines) as int;
    if n > 0 {
        let under = lines.skip(1);
        let rest = lines.skip(n);
        lemma_leading_run(under, usage_line());
        lemma_block_extent_is(rest);
        assert forall|j: int| 0 <= j < n implies (block_line())(#[trigger] lines[j]) by {
            if j > 0 {
                assert(lines[j] == under[j - 1]);
                assert((usage_line())(under[j - 1]));
            }
        }
        lemma_leading_skip(lines, block_line(), n);
        if rest.len() > 0 {
            assert(rest[0] == under[n - 1]);
            assert(!(usage_line())(under[n - 1]));
            if !is_form_line(rest[0]) {
                assert(!(block_line())(rest[0]));
            }
        }
    }
}

/// Each usage line gives a usage or is noted, never both.
pub proof fn lemma_usage_lines_told(lines: Seq<Seq<char>>)
    ensures
        usages_of(lines).len() + usage_notes(lines).len() == lines.len(),
    decreases lines.len(),
{
    if lines.len() > 0 {
        lemma_usage_lines_told(lines.drop_last());
    }
}

/// A form takes no more lines than there are.
pub proof fn lemma_form_extent(lines: Seq<Seq<char>>)
    ensures
        form_extent(lines) <= lines.len(),
{
    if lines.len() > 0 {
        lemma_leading_run(lines.skip(1), usage_line());
    }
}

impl WordForm {
    /// Reads the form at the scanner's place: a form line and the usage
    /// lines under it. A usage line whose tag is outside the table is noted
    /// in `log` and gives no usage. Where the next line is no form line,
    /// nothing is read or noted and the result is `None`.
    pub fn parse(scanner: &mut LineScanner, log: &mut Vec<Anomaly>) -> (r: Option<WordForm>)
        ensures
            form_extent(old(scanner).remaining()) > 0 <==> r is Some,
            match r {
                Some(form) => {
                    &&& form@ == first_form(old(scanner).remaining())
                    &&& final(scanner).remaining() == old(scanner).remaining().skip(
                        form_extent(old(scanner).remaining()) as int,
                    )
                    &&& final(log).deep_view() == old(log).deep_view() + usage_notes(
                        old(scanner).remaining().subrange(
                            1,
                            form_extent(old(scanner).remaining()) as int,
                        ),
                    )
                },
                None => {
                    &&& final(scanner).remaining() == old(scanner).remaining()
                    &&& final(log).deep_view() == old(log).deep_view()
                },
            },
    {
        let ghost before = scanner.remaining();
        let header = match scanner.next() {
            Some(line) => line,
            None => {
                return None;
            },
        };
        if !starts_with(header.as_str(), "\t[") {
            scanner.pushback(header);
            proof {
                assert(seq![before[0]] + before.skip(1) =~= before);
            }
            return None;
        }
        let ghost under = before.skip(1);
        let mut usages: Vec<Usage> = Vec::new();
        let ghost mut taken: int = 0;
        let mut done = false;
        proof {
            assert(under.skip(0) =~= under);
            assert(under.take(0) =~= Seq::<Seq<char>>::empty());
            assert(log.deep_view() =~= old(log).deep_view() + usage_notes(under.take(0)));
        }
        while !done
            invariant
                0 <= taken <= under.len(),
                scanner.remaining() == under.skip(taken),
                forall|j: int| 0 <= j < taken ==> is_usage_line(#[trigger] under[j]),
                done ==> taken == under.len() || !is_usage_line(under[taken]),
                usages@ == usages_of(under.take(taken)),
                log.deep_view() == old(log).deep_view() + usage_notes(under.take(taken)),
            decreases
                    if done {
                        0
                    } else {
                        1 + under.len() - taken
                    },
        {
            match scanner.next() {
                None => {
                    done = true;
                },
                Some(line) => {
                    if starts_with(line.as_str(), "\t\t") {
                        let found = Usage::from_tag(trim(line.as_str()));
                        proof {
                            let now = under.take(taken + 1);
                            assert(now.drop_last() =~= under.take(taken));
                            assert(now.last() == under[taken]);
                            assert(under.skip(taken).skip(1) =~= under.skip(taken + 1));
                        }
                        let ghost noted = log.deep_view();
                        match found {
                            Some(u) => {
                                usages.push(u);
                            },
                            None => {
                                log.push(Anomaly::UnknownUsage(line));
                                proof {
                                    let note = AnomalyView::UnknownUsage(under[taken]);
                                    assert(log.deep_view() =~= noted.push(note));
                                    assert(log.deep_view() =~= old(log).deep_view() + usage_notes(
                                        under.take(taken),
                                    ).push(note));
                                }
                            },
                        }
                        proof {
                            taken = taken + 1;
                        }
                    } else {
                        proof {
                            let rest = under.skip(taken);
                            assert(seq![rest[0]] + rest.skip(1) =~= rest);
                        }
                        scanner.pushback(line);
                        done = true;
                    }
                },
            }
        }
        proof {
            assert forall|j: int| 0 <= j < taken implies (usage_line())(#[trigger] under[j]) by {
                assert(is_usage_line(under[j]));
            }
            lemma_leading_is(under, usage_line(), taken);
            assert(before.subrange(1, 1 + taken) =~= under.take(taken));
            assert(before.skip(1 + taken) =~= under.skip(taken));
        }
        let inner = trim_end_matches(trim_start_matches(trim(header.as_str()), "["), "]");
        let mut parts = split_fields(inner, ':');
        if parts.len() == 0 {
            proof {
                assert(parts.deep_view() =~= Seq::<Seq<char>>::empty());
            }
            return Some(WordForm { form_type: String::new(), forms: parts, usages });
        }
        let ghost all = parts.deep_view();
        let form_type = parts.remove(0);
        proof {
            assert(parts.deep_view() =~= all.skip(1));
        }
        Some(WordForm { form_type, forms: parts, usages })
    }
}

impl Word {
    /// The root that the header line of a word block names.
    pub fn parse_root(line: &str) -> (root: String)
        ensures
            root@ == without_suffixes(without_prefixes(line@, word_marker()), "]"@),
    {
        String::from_str(trim_end_matches(trim_start_matches(line, "[WORD:"), "]"))
    }

    /// Reads the word block that `line` heads: the forms that follow it at
    /// the scanner's place. What is passed over is noted in `log`: see
    /// `block_notes`. Where `line` heads no block, nothing is read and the
    /// result is `None`; the line is noted if it is unexpected.
    pub fn parse(line: &str, scanner: &mut LineScanner, log: &mut Vec<Anomaly>) -> (r: Option<
        Word,
    >)
        ensures
            header_kind(line@, word_marker(), words_banner()) == HeaderKind::Block <==> r is Some,
            match r {
                Some(word) => {
                    &&& word@ == with_forms(
                        WordView::blank(header_name(line@, word_marker())),
                        old(scanner).remaining(),
                    )
                    &&& final(scanner).remaining() == old(scanner).remaining().skip(
                        block_extent(old(scanner).remaining()) as int,
                    )
                    &&& final(log).deep_view() == old(log).deep_view() + block_notes(
                        old(scanner).remaining(),
                    )
                },
                None => {
                    &&& final(scanner).remaining() == old(scanner).remaining()
                    &&& final(log).deep_view() == old(log).deep_view() + header_notes(
                        line@,
                        word_marker(),
                        words_banner(),
                    )
                },
            },
    {
        match classify_header(line, "[WORD:", "language_words") {
            HeaderKind::Block => {},
            HeaderKind::Unexpected => {
                note_header(line, log);
                return None;
            },
            _ => {
                proof {
                    assert(log.deep_view() + Seq::<AnomalyView>::empty() =~= log.deep_view());
                }
                return None;
            },
        }
        let ghost before = scanner.remaining();
        let mut word = Word::new(Self::parse_root(trim_end(line)));
        let ghost blank = word@;
        let ghost mut taken: int = 0;
        let mut done = false;
        proof {
            assert(before.skip(0) =~= before);
        }
        while !done
            invariant
                0 <= taken <= before.len(),
                scanner.remaining() == before.skip(taken),
                with_forms(blank, before) == with_forms(word@, before.skip(taken)),
                block_extent(before) == taken + block_extent(before.skip(taken)),
                old(log).deep_view() + block_notes(before) == log.deep_view() + block_notes(
                    before.skip(taken),
                ),
                done ==> form_extent(before.skip(taken)) == 0,
            decreases
                    if done {
                        0
                    } else {
                        1 + before.len() - taken
                    },
        {
            let ghost rest = before.skip(taken);
            let ghost noted = log.deep_view();
            proof {
                lemma_form_extent(rest);
            }
            match WordForm::parse(scanner, log) {
                None => {
                    done = true;
                },
                Some(form) => {
                    let form_type = form.form_type.clone();
                    let ghost f = form@;
                    let ghost heard = log.deep_view();
                    match word.enter(form) {
                        Ok(_) => {
                            proof {
                                assert(heard + entry_notes(f) =~= heard);
                            }
                        },
                        Err(error) => {
                            log.push(Anomaly::ShortForm { form_type, error });
                            proof {
                                assert(log.deep_view() =~= heard + entry_notes(f));
                            }
                        },
                    }
                    proof {
                        let n = form_extent(rest) as int;
                        assert(rest.skip(n) =~= before.skip(taken + n));
                        assert(noted + (usage_notes(rest.subrange(1, n)) + entry_notes(f)
                            + block_notes(rest.skip(n))) =~= noted + usage_notes(
                            rest.subrange(1, n),
                        ) + entry_notes(f) + block_notes(rest.skip(n)));
                        taken = taken + n;
                    }
                },
            }
        }
        proof {
            assert(log.deep_view() + Seq::<AnomalyView>::empty() =~= log.deep_view());
        }
        Some(word)
    }
}

/// Notes `line`, trimmed, as an unexpected line at the place of a header.
pub(crate) fn note_header(line: &str, log: &mut Vec<Anomaly>)
    ensures
        final(log).deep_view() == old(log).deep_view().push(
            AnomalyView::UnexpectedHeader(trimmed(line@)),
        ),
{
    let ghost noted = log.deep_view();
    log.push(Anomaly::UnexpectedHeader(String::from_str(trim(line))));
    proof {
        assert(log.deep_view() =~= noted.push(AnomalyView::UnexpectedHeader(trimmed(line@))));
    }
}

} // verus!
