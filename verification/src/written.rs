//! Blocks as they are written, and the proof that reading them gives back
//! what was written.

use crate::anomaly::AnomalyView;
use crate::block::block_extent;
use crate::block::block_line;
use crate::block::block_notes;
use crate::block::entry_notes;
use crate::block::first_form;
use crate::block::form_extent;
use crate::block::form_fields;
use crate::block::form_of;
use crate::block::header_kind;
use crate::block::header_name;
use crate::block::is_form_line;
use crate::block::is_usage_line;
use crate::block::usage_line;
use crate::block::usage_notes;
use crate::block::usages_of;
use crate::block::with_forms;
use crate::block::word_marker;
use crate::block::words_banner;
use crate::block::HeaderKind;
use crate::dictionary::lookup;
use crate::dictionary::other_root;
use crate::dictionary::put;
use crate::files::block_refs;
use crate::files::entry_line;
use crate::files::load_symbols;
use crate::files::load_words;
use crate::files::ref_name;
use crate::files::refs_extent;
use crate::files::refs_of;
use crate::files::symbol_marker;
use crate::files::symbols_banner;
use crate::files::symbols_notes;
use crate::files::tagged;
use crate::files::translation_of;
use crate::files::words_notes;
use crate::runs::leading;
use crate::runs::lemma_leading_is;
use crate::symbols::other_name;
use crate::symbols::put_symbol;
use crate::symbols::SymbolView;
use crate::text::fields;
use crate::text::trimmed;
use crate::text::CharClass;
use crate::text_laws::all_space;
use crate::text_laws::free_of;
use crate::text_laws::joined;
use crate::text_laws::lemma_fields_joined;
use crate::text_laws::lemma_joined_ends;
use crate::text_laws::lemma_trimmed_core;
use crate::text_laws::lemma_unwrapped;
use crate::usage::lemma_tag_names_usage;
use crate::usage::tag_of;
use crate::usage::usage_of_tag;
use crate::usage::Usage;
use crate::word::entry_error;
use crate::word::no_plural;
use crate::word::NounView;
use crate::word::WordFormView;
use crate::word::WordView;
use vstd::prelude::*;

verus! {

/// Whether `s` can be written as a root or as a surface form: it is not
/// empty and holds neither a colon nor a bracket.
pub open spec fn plain(s: Seq<char>) -> bool {
    s.len() > 0 && free_of(s, ':') && free_of(s, '[') && free_of(s, ']')
}

/// The header line of the block of root `root`, without its line end.
pub open spec fn word_line(root: Seq<char>) -> Seq<char> {
    "[WORD:"@ + root + "]"@
}

/// The form line of fields `body`, without its line end.
pub open spec fn form_line(body: Seq<char>) -> Seq<char> {
    "\t["@ + body + "]"@
}

/// The form line of a noun with a plural, without its line end.
pub open spec fn noun_line(singular: Seq<char>, plural: Seq<char>) -> Seq<char> {
    form_line(joined(seq!["NOUN"@, singular, plural], ':'))
}

/// The form line of a noun without a plural, without its line end.
pub open spec fn lone_noun_line(singular: Seq<char>) -> Seq<char> {
    form_line(joined(seq!["NOUN"@, singular], ':'))
}

/// The word of root `root` that is a noun and nothing else.
pub open spec fn noun_word(root: Seq<char>, singular: Seq<char>, plural: Seq<char>) -> WordView {
    WordView {
        noun: Some(NounView { singular, plural, usages: Seq::empty() }),
        ..WordView::blank(root)
    }
}

/// A header line written for `root`, with any white space after it, heads a
/// block and names `root`.
pub proof fn lemma_word_line_read(root: Seq<char>, end: Seq<char>)
    requires
        free_of(root, '['),
        free_of(root, ']'),
        all_space(end),
    ensures
        header_kind(word_line(root) + end, word_marker(), words_banner()) == HeaderKind::Block,
        header_name(word_line(root) + end, word_marker()) == root,
{
    reveal_strlit("[WORD:");
    reveal_strlit("]");
    let marker = "[WORD:"@;
    let core = word_line(root);
    let line = core + end;
    assert(core[0] == '[');
    assert(core.last() == ']');
    assert(Seq::<char>::empty() + core + end =~= line);
    assert(Seq::<char>::empty() + core =~= core);
    lemma_trimmed_core(Seq::empty(), core, end);
    assert(line.subrange(0, marker.len() as int) =~= marker);
    lemma_unwrapped(marker, root);
}

/// A form line written for `body`, with any white space after it, is a form
/// line, and its fields are the fields of `body`.
pub proof fn lemma_form_line_read(body: Seq<char>, end: Seq<char>)
    requires
        body.len() > 0,
        body[0] != '[',
        body.last() != ']',
        all_space(end),
    ensures
        is_form_line(form_line(body) + end),
        form_fields(form_line(body) + end) == fields(body, ':'),
{
    reveal_strlit("\t[");
    reveal_strlit("[");
    reveal_strlit("]");
    let line = form_line(body) + end;
    let core = "["@ + body + "]"@;
    assert(line.subrange(0, 2) =~= "\t["@);
    assert(line =~= seq!['\t'] + core + end);
    assert(core[0] == '[');
    assert(core.last() == ']');
    lemma_trimmed_core(seq!['\t'], core, end);
    lemma_unwrapped("["@, body);
}

/// Reading gives back the form that was written: a form line written for a
/// type and surface forms, with no usage line under it, gives a form of that
/// type with those surface forms and no usage.
pub proof fn lemma_form_read_back(form_type: Seq<char>, forms: Seq<Seq<char>>, end: Seq<char>)
    requires
        plain(form_type),
        forall|i: int| 0 <= i < forms.len() ==> plain(#[trigger] forms[i]),
        all_space(end),
    ensures
        is_form_line(form_line(joined(seq![form_type] + forms, ':')) + end),
        form_of(form_line(joined(seq![form_type] + forms, ':')) + end, Seq::empty()) == (
        WordFormView { form_type, forms, usages: Seq::empty() }),
{
    let parts = seq![form_type] + forms;
    let body = joined(parts, ':');
    assert forall|i: int| 0 <= i < parts.len() implies plain(#[trigger] parts[i]) by {
        if i > 0 {
            assert(parts[i] == forms[i - 1]);
        }
    }
    lemma_joined_ends(parts, ':');
    lemma_fields_joined(parts, ':');
    assert(body[0] == form_type[0]);
    assert(body.last() == parts.last().last());
    lemma_form_line_read(body, end);
    assert(parts.skip(1) =~= forms);
    assert(usages_of(Seq::empty()) =~= Seq::<Usage>::empty());
}

/// The usage line of usage `u`, without its line end.
pub open spec fn usage_line_of(u: Usage) -> Seq<char> {
    "\t\t"@ + tag_of(u)
}

/// The usage lines of `usages`, each with `end` after it.
pub open spec fn usage_lines(usages: Seq<Usage>, end: Seq<char>) -> Seq<Seq<char>> {
    Seq::new(usages.len(), |i: int| usage_line_of(usages[i]) + end)
}

/// A usage line written for `u`, with any white space after it, is a usage
/// line and no form line, and its tag names `u`.
pub proof fn lemma_usage_line_read(u: Usage, end: Seq<char>)
    requires
        all_space(end),
    ensures
        is_usage_line(usage_line_of(u) + end),
        !is_form_line(usage_line_of(u) + end),
        usage_of_tag(trimmed(usage_line_of(u) + end)) == Some(u),
{
    reveal_strlit("\t\t");
    reveal_strlit("\t[");
    lemma_tag_names_usage(u);
    let tabs = "\t\t"@;
    let line = usage_line_of(u) + end;
    assert(line.subrange(0, 2) =~= tabs);
    assert(line[1] == '\t');
    if is_form_line(line) {
        assert(line.subrange(0, 2)[1] == '[');
    }
    assert(line =~= tabs + tag_of(u) + end);
    lemma_trimmed_core(tabs, tag_of(u), end);
}

/// The usage lines written for `usages` are read as usage lines that name
/// `usages`, and none of them is noted.
pub proof fn lemma_usage_lines_read(usages: Seq<Usage>, end: Seq<char>)
    requires
        all_space(end),
    ensures
        forall|i: int|
            0 <= i < usages.len() ==> is_usage_line(#[trigger] usage_lines(usages, end)[i]),
        usages_of(usage_lines(usages, end)) == usages,
        usage_notes(usage_lines(usages, end)) == Seq::<AnomalyView>::empty(),
    decreases usages.len(),
{
    let lines = usage_lines(usages, end);
    assert forall|i: int| 0 <= i < usages.len() implies is_usage_line(#[trigger] lines[i]) by {
        lemma_usage_line_read(usages[i], end);
    }
    if usages.len() == 0 {
        assert(usages_of(lines) =~= usages);
    } else {
        let earlier = usages.drop_last();
        lemma_usage_lines_read(earlier, end);
        lemma_usage_line_read(usages.last(), end);
        assert(lines.drop_last() =~= usage_lines(earlier, end));
        assert(lines.last() == usage_line_of(usages.last()) + end);
        assert(earlier.push(usages.last()) =~= usages);
    }
}

/// Reading gives back the form that was written with its usages: a form
/// line written for a type and surface forms, with the usage lines of
/// `usages` under it, gives a form of that type with those surface forms
/// and those usages, takes all these lines, and notes nothing. What follows
/// is any line that is no usage line, or nothing.
pub proof fn lemma_form_block_read_back(
    form_type: Seq<char>,
    forms: Seq<Seq<char>>,
    usages: Seq<Usage>,
    end: Seq<char>,
    rest: Seq<Seq<char>>,
)
    requires
        plain(form_type),
        forall|i: int| 0 <= i < forms.len() ==> plain(#[trigger] forms[i]),
        all_space(end),
        rest.len() == 0 || !is_usage_line(rest[0]),
    ensures
        form_extent(
            seq![form_line(joined(seq![form_type] + forms, ':')) + end] + usage_lines(usages, end)
                + rest,
        ) == 1 + usages.len(),
        first_form(
            seq![form_line(joined(seq![form_type] + forms, ':')) + end] + usage_lines(usages, end)
                + rest,
        ) == (WordFormView { form_type, forms, usages }),
        usage_notes(usage_lines(usages, end)) == Seq::<AnomalyView>::empty(),
{
    let header = form_line(joined(seq![form_type] + forms, ':')) + end;
    let under = usage_lines(usages, end);
    let lines = seq![header] + under + rest;
    lemma_form_read_back(form_type, forms, end);
    lemma_usage_lines_read(usages, end);
    let tail = lines.skip(1);
    assert(tail =~= under + rest);
    assert forall|j: int| 0 <= j < usages.len() implies (usage_line())(#[trigger] tail[j]) by {
        assert(tail[j] == under[j]);
    }
    if rest.len() > 0 {
        assert(tail[usages.len() as int] == rest[0]);
    }
    lemma_leading_is(tail, usage_line(), usages.len() as int);
    assert(lines[0] == header);
    assert(lines.subrange(1, 1 + usages.len() as int) =~= under);
}

/// A block of one form line and nothing under it enters that one form.
pub proof fn lemma_one_form_block(w: WordView, line: Seq<char>)
    requires
        is_form_line(line),
    ensures
        block_extent(seq![line]) == 1,
        with_forms(w, seq![line]) == w.with_form(form_of(line, Seq::empty())),
        block_notes(seq![line]) == entry_notes(form_of(line, Seq::empty())),
{
    let lines = seq![line];
    let none = Seq::<Seq<char>>::empty();
    assert(lines.skip(1) =~= none);
    assert(leading(none, usage_line()) == 0);
    assert(form_extent(lines) == 1);
    assert(lines.subrange(1, 1) =~= none);
    assert(form_extent(none) == 0);
    reveal_with_fuel(block_extent, 2);
    reveal_with_fuel(with_forms, 2);
    reveal_with_fuel(block_notes, 2);
    assert(usage_notes(none) =~= Seq::<AnomalyView>::empty());
    assert(Seq::<AnomalyView>::empty() + entry_notes(first_form(lines)) + Seq::<
        AnomalyView,
    >::empty() =~= entry_notes(first_form(lines)));
}

/// A dictionary of one block with one form line holds one word: the blank
/// word of the block's root with that form entered.
pub proof fn lemma_one_block_file(header: Seq<char>, line: Seq<char>)
    requires
        header_kind(header, word_marker(), words_banner()) == HeaderKind::Block,
        is_form_line(line),
    ensures
        load_words(seq![header, line], Seq::empty()) == seq![
            WordView::blank(header_name(header, word_marker())).with_form(
                form_of(line, Seq::empty()),
            ),
        ],
        words_notes(seq![header, line]) == entry_notes(form_of(line, Seq::empty())),
{
    let lines = seq![header, line];
    let blank = WordView::blank(header_name(header, word_marker()));
    let w = blank.with_form(form_of(line, Seq::empty()));
    lemma_one_form_block(blank, line);
    assert(lines.skip(1) =~= seq![line]);
    assert(seq![line].skip(1) =~= Seq::<Seq<char>>::empty());
    assert(leading(Seq::<WordView>::empty(), other_root(w.root)) == 0);
    assert(put(Seq::<WordView>::empty(), w) =~= seq![w]);
    reveal_with_fuel(load_words, 2);
    reveal_with_fuel(words_notes, 2);
    assert(entry_notes(form_of(line, Seq::empty())) + Seq::<AnomalyView>::empty() =~= entry_notes(
        form_of(line, Seq::empty()),
    ));
}

/// Reading gives back the noun that was written: a dictionary of one block,
/// written for a root and a noun with its singular and its plural, holds one
/// word, which has that root and that noun and nothing else; a lookup by the
/// root finds it; and nothing is noted. White space at the end of a line,
/// such as a line end, changes nothing.
pub proof fn lemma_noun_read_back(
    root: Seq<char>,
    singular: Seq<char>,
    plural: Seq<char>,
    end_1: Seq<char>,
    end_2: Seq<char>,
)
    requires
        plain(root),
        plain(singular),
        plain(plural),
        all_space(end_1),
        all_space(end_2),
    ensures
        load_words(seq![word_line(root) + end_1, noun_line(singular, plural) + end_2], Seq::empty())
            == seq![noun_word(root, singular, plural)],
        lookup(seq![noun_word(root, singular, plural)], root) == Some(
            noun_word(root, singular, plural),
        ),
        words_notes(seq![word_line(root) + end_1, noun_line(singular, plural) + end_2]) == Seq::<
            AnomalyView,
        >::empty(),
{
    reveal_strlit("NOUN");
    let forms = seq![singular, plural];
    let header = word_line(root) + end_1;
    let line = noun_line(singular, plural) + end_2;
    assert(seq!["NOUN"@] + forms =~= seq!["NOUN"@, singular, plural]);
    lemma_word_line_read(root, end_1);
    lemma_form_read_back("NOUN"@, forms, end_2);
    assert(entry_error(form_of(line, Seq::empty())) is None);
    lemma_one_block_file(header, line);
    assert(leading(seq![noun_word(root, singular, plural)], other_root(root)) == 0);
}

/// Reading gives a noun that was written without a plural the plural
/// `no_plural()`, and notes nothing.
pub proof fn lemma_lone_noun_read_back(
    root: Seq<char>,
    singular: Seq<char>,
    end_1: Seq<char>,
    end_2: Seq<char>,
)
    requires
        plain(root),
        plain(singular),
        all_space(end_1),
        all_space(end_2),
    ensures
        load_words(seq![word_line(root) + end_1, lone_noun_line(singular) + end_2], Seq::empty())
            == seq![noun_word(root, singular, no_plural())],
        words_notes(seq![word_line(root) + end_1, lone_noun_line(singular) + end_2]) == Seq::<
            AnomalyView,
        >::empty(),
{
    reveal_strlit("NOUN");
    let forms = seq![singular];
    let header = word_line(root) + end_1;
    let line = lone_noun_line(singular) + end_2;
    assert(seq!["NOUN"@] + forms =~= seq!["NOUN"@, singular]);
    lemma_word_line_read(root, end_1);
    lemma_form_read_back("NOUN"@, forms, end_2);
    assert(entry_error(form_of(line, Seq::empty())) is None);
    lemma_one_block_file(header, line);
}

/// The header line of the block of symbol `name`, without its line end.
pub open spec fn symbol_line(name: Seq<char>) -> Seq<char> {
    "[SYMBOL:"@ + name + "]"@
}

/// The line of a symbol block that lists `root`, without its line end.
pub open spec fn ref_line(root: Seq<char>) -> Seq<char> {
    "\t[S_WORD:"@ + root + "]"@
}

/// The lines of a symbol block that list `roots`, each with `end` after it.
pub open spec fn ref_lines(roots: Seq<Seq<char>>, end: Seq<char>) -> Seq<Seq<char>> {
    Seq::new(roots.len(), |i: int| ref_line(roots[i]) + end)
}

/// The line of a translation file that gives `root` the text `text`,
/// without its line end.
pub open spec fn translation_line(root: Seq<char>, text: Seq<char>) -> Seq<char> {
    "[T_WORD:"@ + root + ":"@ + text + "]"@
}

/// A header line written for symbol `name`, with any white space after it,
/// heads a block and names `name`.
pub proof fn lemma_symbol_line_read(name: Seq<char>, end: Seq<char>)
    requires
        free_of(name, '['),
        free_of(name, ']'),
        all_space(end),
    ensures
        header_kind(symbol_line(name) + end, symbol_marker(), symbols_banner())
            == HeaderKind::Block,
        header_name(symbol_line(name) + end, symbol_marker()) == name,
{
    reveal_strlit("[SYMBOL:");
    reveal_strlit("]");
    let marker = "[SYMBOL:"@;
    let core = symbol_line(name);
    let line = core + end;
    assert(core[0] == '[');
    assert(core.last() == ']');
    assert(Seq::<char>::empty() + core + end =~= line);
    assert(Seq::<char>::empty() + core =~= core);
    lemma_trimmed_core(Seq::empty(), core, end);
    assert(line.subrange(0, marker.len() as int) =~= marker);
    lemma_unwrapped(marker, name);
}

/// A line written to list `root`, with any white space after it, is read as
/// an entry of a symbol block and names `root`.
pub proof fn lemma_ref_line_read(root: Seq<char>, end: Seq<char>)
    requires
        free_of(root, '['),
        free_of(root, ']'),
        all_space(end),
    ensures
        is_form_line(ref_line(root) + end),
        ref_name(ref_line(root) + end) == root,
{
    reveal_strlit("\t[S_WORD:");
    reveal_strlit("[S_WORD:");
    reveal_strlit("\t[");
    reveal_strlit("]");
    let marker = "[S_WORD:"@;
    let line = ref_line(root) + end;
    let core = marker + root + "]"@;
    assert(line.subrange(0, 2) =~= "\t["@);
    assert(line =~= seq!['\t'] + core + end);
    assert(core[0] == '[');
    assert(core.last() == ']');
    lemma_trimmed_core(seq!['\t'], core, end);
    lemma_unwrapped(marker, root);
}

/// The lines written to list `roots` are read as one symbol block that lists
/// `roots`, whatever follows them that is not indented as an entry.
pub proof fn lemma_ref_lines_read(roots: Seq<Seq<char>>, end: Seq<char>, rest: Seq<Seq<char>>)
    requires
        forall|i: int| 0 <= i < roots.len() ==> free_of(#[trigger] roots[i], '['),
        forall|i: int| 0 <= i < roots.len() ==> free_of(#[trigger] roots[i], ']'),
        all_space(end),
        rest.len() == 0 || !is_form_line(rest[0]),
    ensures
        refs_extent(ref_lines(roots, end) + rest) == roots.len(),
        block_refs(ref_lines(roots, end) + rest) == roots,
{
    let lines = ref_lines(roots, end) + rest;
    assert forall|j: int| 0 <= j < roots.len() implies (entry_line())(#[trigger] lines[j]) by {
        lemma_ref_line_read(roots[j], end);
    }
    if rest.len() > 0 {
        assert(lines[roots.len() as int] == rest[0]);
    }
    lemma_leading_is(lines, entry_line(), roots.len() as int);
    let block = lines.take(roots.len() as int);
    assert forall|j: int| 0 <= j < roots.len() implies #[trigger] refs_of(block)[j] == roots[j] by {
        lemma_ref_line_read(roots[j], end);
        assert(block[j] == ref_line(roots[j]) + end);
    }
    assert(refs_of(block) =~= roots);
}

/// Reading gives back the symbol that was written: a symbol file of one
/// block, written for a symbol and the roots it lists, gives an index of
/// that one symbol with those roots, adds the symbol to the words that the
/// roots name (see `lemma_tagged`), and notes nothing.
pub proof fn lemma_symbol_read_back(
    name: Seq<char>,
    roots: Seq<Seq<char>>,
    end: Seq<char>,
    ws: Seq<WordView>,
)
    requires
        free_of(name, '['),
        free_of(name, ']'),
        forall|i: int| 0 <= i < roots.len() ==> free_of(#[trigger] roots[i], '['),
        forall|i: int| 0 <= i < roots.len() ==> free_of(#[trigger] roots[i], ']'),
        all_space(end),
    ensures
        load_symbols(seq![symbol_line(name) + end] + ref_lines(roots, end), Seq::empty(), ws) == (
            seq![SymbolView { name, roots }],
            tagged(ws, name, roots),
        ),
        symbols_notes(seq![symbol_line(name) + end] + ref_lines(roots, end)) == Seq::<
            AnomalyView,
        >::empty(),
{
    let header = symbol_line(name) + end;
    let lines = seq![header] + ref_lines(roots, end);
    let none = Seq::<Seq<char>>::empty();
    lemma_symbol_line_read(name, end);
    lemma_ref_lines_read(roots, end, none);
    assert(lines[0] == header);
    assert(lines.skip(1) =~= ref_lines(roots, end) + none);
    assert(lines.skip(1).skip(roots.len() as int) =~= none);
    let e = SymbolView { name, roots };
    assert(leading(Seq::<SymbolView>::empty(), other_name(name)) == 0);
    assert(put_symbol(Seq::<SymbolView>::empty(), name, roots) =~= seq![e]);
    reveal_with_fuel(load_symbols, 2);
    reveal_with_fuel(symbols_notes, 2);
}

/// A line written to give `root` the text `text`, with any white space
/// around it, gives `root` and `text`.
pub proof fn lemma_translation_line_read(
    root: Seq<char>,
    text: Seq<char>,
    front: Seq<char>,
    end: Seq<char>,
)
    requires
        free_of(root, ':'),
        all_space(front),
        all_space(end),
    ensures
        translation_of(front + translation_line(root, text) + end) == Some((root, text)),
{
    reveal_strlit("[T_WORD:");
    reveal_strlit(":");
    reveal_strlit("]");
    let marker = "[T_WORD:"@;
    let close = "]"@;
    let core = translation_line(root, text);
    let inner = root + ":"@ + text;
    assert(core[0] == '[');
    assert(core.last() == ']');
    lemma_trimmed_core(front, core, end);
    assert(core.subrange(0, marker.len() as int) =~= marker);
    assert(core.skip(marker.len() as int) =~= inner + close);
    let open = inner + close;
    assert(open.subrange(open.len() - 1, open.len() as int) =~= close);
    assert(open.take(open.len() - 1) =~= inner);
    let p = CharClass::Not(':').pred();
    assert forall|j: int| 0 <= j < root.len() implies p(#[trigger] inner[j]) by {
        assert(inner[j] == root[j]);
    }
    assert(inner[root.len() as int] == ':');
    lemma_leading_is(inner, p, root.len() as int);
    assert(inner.take(root.len() as int) =~= root);
    assert(inner.skip(root.len() as int + 1) =~= text);
}

/// Whether form `f` can be written: its type and its surface forms are
/// plain.
pub open spec fn writable(f: WordFormView) -> bool {
    plain(f.form_type) && forall|i: int| 0 <= i < f.forms.len() ==> plain(#[trigger] f.forms[i])
}

/// The lines of form `f`: its form line and its usage lines, each with
/// `end` after it.
pub open spec fn form_lines(f: WordFormView, end: Seq<char>) -> Seq<Seq<char>> {
    seq![form_line(joined(seq![f.form_type] + f.forms, ':')) + end] + usage_lines(f.usages, end)
}

/// The lines of the forms `fs`, one form after the other.
pub open spec fn forms_lines(fs: Seq<WordFormView>, end: Seq<char>) -> Seq<Seq<char>>
    decreases fs.len(),
{
    if fs.len() == 0 {
        Seq::empty()
    } else {
        form_lines(fs[0], end) + forms_lines(fs.skip(1), end)
    }
}

/// Word `w` after the forms `fs` are entered, in order.
pub open spec fn entered(w: WordView, fs: Seq<WordFormView>) -> WordView
    decreases fs.len(),
{
    if fs.len() == 0 {
        w
    } else {
        entered(w.with_form(fs[0]), fs.skip(1))
    }
}

/// What is noted when the forms `fs` are entered, in order.
pub open spec fn entries_notes(fs: Seq<WordFormView>) -> Seq<AnomalyView>
    decreases fs.len(),
{
    if fs.len() == 0 {
        Seq::empty()
    } else {
        entry_notes(fs[0]) + entries_notes(fs.skip(1))
    }
}

/// The lines written for a form begin with a form line, which is no usage
/// line.
pub proof fn lemma_form_lines_start(f: WordFormView, end: Seq<char>)
    ensures
        form_lines(f, end).len() == 1 + f.usages.len(),
        is_form_line(form_lines(f, end)[0]),
        !is_usage_line(form_lines(f, end)[0]),
{
    reveal_strlit("\t[");
    reveal_strlit("\t\t");
    let line = form_lines(f, end)[0];
    assert(line.subrange(0, 2) =~= "\t["@);
    if is_usage_line(line) {
        assert(line.subrange(0, 2)[1] == '\t');
    }
}

/// Reading gives back the forms that were written: the lines written for
/// writable forms are read as one block, which enters these forms in order
/// and notes only what entering them notes. What follows is any line that
/// is neither a form line nor a usage line, or nothing.
pub proof fn lemma_forms_read_back(
    w: WordView,
    fs: Seq<WordFormView>,
    end: Seq<char>,
    rest: Seq<Seq<char>>,
)
    requires
        forall|i: int| 0 <= i < fs.len() ==> writable(#[trigger] fs[i]),
        all_space(end),
        rest.len() == 0 || !(block_line())(rest[0]),
    ensures
        block_extent(forms_lines(fs, end) + rest) == forms_lines(fs, end).len(),
        with_forms(w, forms_lines(fs, end) + rest) == entered(w, fs),
        block_notes(forms_lines(fs, end) + rest) == entries_notes(fs),
    decreases fs.len(),
{
    let lines = forms_lines(fs, end) + rest;
    if fs.len() == 0 {
        assert(lines =~= rest);
        assert(form_extent(rest) == 0);
    } else {
        let f = fs[0];
        let later = fs.skip(1);
        let tail = forms_lines(later, end) + rest;
        assert(lines =~= seq![form_lines(f, end)[0]] + usage_lines(f.usages, end) + tail);
        assert(tail.len() == 0 || !is_usage_line(tail[0])) by {
            if later.len() > 0 {
                lemma_form_lines_start(later[0], end);
                assert(tail[0] == form_lines(later[0], end)[0]);
            } else if rest.len() > 0 {
                assert(tail =~= rest);
            }
        }
        lemma_form_block_read_back(f.form_type, f.forms, f.usages, end, tail);
        lemma_form_lines_start(f, end);
        let n = form_extent(lines) as int;
        assert(lines.skip(n) =~= tail);
        assert forall|i: int| 0 <= i < later.len() implies writable(#[trigger] later[i]) by {
            assert(later[i] == fs[i + 1]);
        }
        lemma_forms_read_back(w.with_form(f), later, end, rest);
        assert(usage_notes(lines.subrange(1, n)) =~= Seq::<AnomalyView>::empty()) by {
            assert(lines.subrange(1, n) =~= usage_lines(f.usages, end));
        }
        assert(Seq::<AnomalyView>::empty() + entry_notes(f) + entries_notes(later) =~= entry_notes(
            f,
        ) + entries_notes(later));
    }
}

/// The lines of the block of root `root` with the forms `fs`.
pub open spec fn block_lines(root: Seq<char>, fs: Seq<WordFormView>, end: Seq<char>) -> Seq<
    Seq<char>,
> {
    seq![word_line(root) + end] + forms_lines(fs, end)
}

/// The lines of a dictionary file of the blocks `blocks`, each a root and
/// its forms.
pub open spec fn file_lines(blocks: Seq<(Seq<char>, Seq<WordFormView>)>, end: Seq<char>) -> Seq<
    Seq<char>,
>
    decreases blocks.len(),
{
    if blocks.len() == 0 {
        Seq::empty()
    } else {
        block_lines(blocks[0].0, blocks[0].1, end) + file_lines(blocks.skip(1), end)
    }
}

/// `ws` after the words of `blocks` are entered, in order.
pub open spec fn entered_all(ws: Seq<WordView>, blocks: Seq<(Seq<char>, Seq<WordFormView>)>) -> Seq<
    WordView,
>
    decreases blocks.len(),
{
    if blocks.len() == 0 {
        ws
    } else {
        entered_all(
            put(ws, entered(WordView::blank(blocks[0].0), blocks[0].1)),
            blocks.skip(1),
        )
    }
}

/// What is noted when the words of `blocks` are entered, in order.
pub open spec fn all_notes(blocks: Seq<(Seq<char>, Seq<WordFormView>)>) -> Seq<AnomalyView>
    decreases blocks.len(),
{
    if blocks.len() == 0 {
        Seq::empty()
    } else {
        entries_notes(blocks[0].1) + all_notes(blocks.skip(1))
    }
}

/// Whether every block of `blocks` can be written.
pub open spec fn all_writable(blocks: Seq<(Seq<char>, Seq<WordFormView>)>) -> bool {
    forall|i: int|
        0 <= i < blocks.len() ==> plain((#[trigger] blocks[i]).0) && forall|j: int|
            0 <= j < blocks[i].1.len() ==> writable(#[trigger] blocks[i].1[j])
}

/// Reading gives back the dictionary that was written: the lines written
/// for blocks that can be written are read as these blocks, each entered as
/// a word with its forms, a later word taking the place of an earlier one of
/// the same root; and nothing is noted but what entering the forms notes.
pub proof fn lemma_file_read_back(
    ws: Seq<WordView>,
    blocks: Seq<(Seq<char>, Seq<WordFormView>)>,
    end: Seq<char>,
)
    requires
        all_writable(blocks),
        all_space(end),
    ensures
        load_words(file_lines(blocks, end), ws) == entered_all(ws, blocks),
        words_notes(file_lines(blocks, end)) == all_notes(blocks),
    decreases blocks.len(),
{
    if blocks.len() > 0 {
        reveal_strlit("[WORD:");
        reveal_strlit("\t[");
        reveal_strlit("\t\t");
        let root = blocks[0].0;
        let fs = blocks[0].1;
        let later = blocks.skip(1);
        let header = word_line(root) + end;
        let tail = file_lines(later, end);
        let lines = file_lines(blocks, end);
        let under = forms_lines(fs, end) + tail;
        assert(lines =~= seq![header] + under);
        assert(lines[0] == header);
        assert(lines.skip(1) =~= under);
        lemma_word_line_read(root, end);
        assert(tail.len() == 0 || !(block_line())(tail[0])) by {
            if later.len() > 0 {
                let next = word_line(later[0].0) + end;
                assert(tail[0] == next);
                assert(next[0] == '[');
                if is_form_line(next) {
                    assert(next.subrange(0, 2)[0] == '\t');
                }
                if is_usage_line(next) {
                    assert(next.subrange(0, 2)[0] == '\t');
                }
            }
        }
        assert forall|j: int| 0 <= j < fs.len() implies writable(#[trigger] fs[j]) by {
            assert(writable(blocks[0].1[j]));
        }
        lemma_forms_read_back(WordView::blank(root), fs, end, tail);
        assert(under.skip(forms_lines(fs, end).len() as int) =~= tail);
        assert(all_writable(later)) by {
            assert forall|i: int| 0 <= i < later.len() implies plain((#[trigger] later[i]).0)
                && forall|j: int|
                0 <= j < later[i].1.len() ==> writable(#[trigger] later[i].1[j]) by {
                assert(later[i] == blocks[i + 1]);
            }
        }
        lemma_file_read_back(put(ws, entered(WordView::blank(root), fs)), later, end);
    }
}

} // verus!
