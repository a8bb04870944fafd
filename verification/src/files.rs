//! The three kinds of vocabulary file: dictionary, symbols, translations.

use crate::anomaly::Anomaly;
use crate::anomaly::AnomalyView;
use crate::block::block_extent;
use crate::block::block_notes;
use crate::block::classify_header;
use crate::block::header_kind;
use crate::block::header_name;
use crate::block::header_notes;
use crate::block::is_form_line;
use crate::block::lemma_block_extent;
use crate::block::lemma_with_forms_keeps;
use crate::block::note_header;
use crate::block::with_forms;
use crate::block::word_marker;
use crate::block::words_banner;
use crate::block::HeaderKind;
use crate::counting::lemma_occurrences_empty;
use crate::counting::lemma_occurrences_push;
use crate::counting::occurrences;
use crate::dictionary::distinct_roots;
use crate::dictionary::other_root;
use crate::dictionary::position;
use crate::dictionary::put;
use crate::dictionary::tag_one;
use crate::dictionary::translate_one;
use crate::dictionary::Dictionary;
use crate::runs::leading;
use crate::runs::lemma_leading_is;
use crate::runs::lemma_leading_run;
use crate::scanner::LineScanner;
use crate::symbols::put_symbol;
use crate::symbols::SymbolIndex;
use crate::symbols::SymbolView;
use crate::text::halves;
use crate::text::sans_prefix;
use crate::text::sans_suffix;
use crate::text::split_once;
use crate::text::starts_with;
use crate::text::strip_prefix;
use crate::text::strip_suffix;
use crate::text::trim;
use crate::text::trim_end;
use crate::text::trim_end_matches;
use crate::text::trim_start_matches;
use crate::text::trimmed;
use crate::text::without_prefixes;
use crate::text::without_suffixes;
use crate::word::Word;
use crate::word::WordView;
use vstd::prelude::*;
use vstd::string::StringExecFns;

verus! {

/// The dictionary that `lines` describe, entered into `ws`: every line that
/// heads a block gives a word, made of the forms under it, which takes the
/// place of an earlier word of the same root. Lines outside blocks are
/// passed over.
pub open spec fn load_words(lines: Seq<Seq<char>>, ws: Seq<WordView>) -> Seq<WordView>
    decreases lines.len(),
    via load_words_decreases
{
    if lines.len() == 0 {
        ws
    } else if header_kind(lines[0], word_marker(), words_banner()) != HeaderKind::Block {
        load_words(lines.skip(1), ws)
    } else {
        load_words(
            lines.skip(1).skip(block_extent(lines.skip(1)) as int),
            put(
                ws,
                with_forms(WordView::blank(header_name(lines[0], word_marker())), lines.skip(1)),
            ),
        )
    }
}

#[via_fn]
proof fn load_words_decreases(lines: Seq<Seq<char>>, ws: Seq<WordView>) {
    if lines.len() > 0 {
        lemma_block_extent(lines.skip(1));
    }
}

/// What is noted of a dictionary file: each unexpected line at the place of
/// a header, and what is noted of each block, in the order of the file.
pub open spec fn words_notes(lines: Seq<Seq<char>>) -> Seq<AnomalyView>
    decreases lines.len(),
    via words_notes_decreases
{
    if lines.len() == 0 {
        Seq::empty()
    } else if header_kind(lines[0], word_marker(), words_banner()) != HeaderKind::Block {
        header_notes(lines[0], word_marker(), words_banner()) + words_notes(lines.skip(1))
    } else {
        block_notes(lines.skip(1)) + words_notes(
            lines.skip(1).skip(block_extent(lines.skip(1)) as int),
        )
    }
}

#[via_fn]
proof fn words_notes_decreases(lines: Seq<Seq<char>>) {
    if lines.len() > 0 {
        lemma_block_extent(lines.skip(1));
    }
}

/// Reads a dictionary file to its end. What is passed over is noted in
/// `log`.
pub fn read_lang_file(scanner: &mut LineScanner, log: &mut Vec<Anomaly>) -> (words: Dictionary)
    ensures
        words.wf(),
        words@ == load_words(old(scanner).remaining(), Seq::empty()),
        final(log).deep_view() == old(log).deep_view() + words_notes(old(scanner).remaining()),
        final(scanner).remaining().len() == 0,
{
    let mut words = Dictionary::new();
    let mut done = false;
    while !done
        invariant
            words.wf(),
            load_words(old(scanner).remaining(), Seq::empty()) == load_words(
                scanner.remaining(),
                words@,
            ),
            old(log).deep_view() + words_notes(old(scanner).remaining()) == log.deep_view()
                + words_notes(scanner.remaining()),
            done ==> scanner.remaining().len() == 0,
        decreases
                if done {
                    0
                } else {
                    1 + scanner.remaining().len()
                },
    {
        let ghost lines = scanner.remaining();
        let ghost noted = log.deep_view();
        match scanner.next() {
            None => {
                done = true;
            },
            Some(line) => {
                proof {
                    lemma_block_extent(lines.skip(1));
                }
                match Word::parse(line.as_str(), scanner, log) {
                    Some(word) => {
                        proof {
                            lemma_with_forms_keeps(
                                WordView::blank(header_name(lines[0], word_marker())),
                                lines.skip(1),
                            );
                        }
                        words.insert(word);
                        proof {
                            let rest = lines.skip(1);
                            assert(noted + (block_notes(rest) + words_notes(
                                rest.skip(block_extent(rest) as int),
                            )) =~= noted + block_notes(rest) + words_notes(
                                rest.skip(block_extent(rest) as int),
                            ));
                        }
                    },
                    None => {
                        proof {
                            let first = header_notes(lines[0], word_marker(), words_banner());
                            assert(noted + (first + words_notes(lines.skip(1))) =~= noted + first
                                + words_notes(lines.skip(1)));
                        }
                    },
                }
            },
        }
    }
    proof {
        assert(log.deep_view() + Seq::<AnomalyView>::empty() =~= log.deep_view());
    }
    words
}

/// The root and the text that a translation line gives: the trimmed line is
/// `[T_WORD:`, the root, a colon, the text and `]`. The root ends at the
/// first colon.
pub open spec fn translation_of(line: Seq<char>) -> Option<(Seq<char>, Seq<char>)> {
    match sans_prefix(trimmed(line), "[T_WORD:"@) {
        None => None,
        Some(open) => match sans_suffix(open, "]"@) {
            None => None,
            Some(inner) => halves(inner, ':'),
        },
    }
}

/// The root and the text that a translation line gives, or `None` for any
/// other line.
pub fn parse_translation_line(line: String) -> (r: Option<(String, String)>)
    ensures
        match r {
            Some((root, text)) => translation_of(line@) == Some((root@, text@)),
            None => translation_of(line@) is None,
        },
{
    let t = trim(line.as_str());
    match strip_prefix(t, "[T_WORD:") {
        None => None,
        Some(open) => match strip_suffix(open, "]") {
            None => None,
            Some(inner) => match split_once(inner, ':') {
                None => None,
                Some((root, text)) => Some((String::from_str(root), String::from_str(text))),
            },
        },
    }
}

/// `ws` after the translations that `lines` give are entered as translations
/// into `language`, in order. A translation of a root that `ws` lacks is
/// passed over, and so is a line that gives no translation.
pub open spec fn load_translations(
    lines: Seq<Seq<char>>,
    language: Seq<char>,
    ws: Seq<WordView>,
) -> Seq<WordView>
    decreases lines.len(),
{
    if lines.len() == 0 {
        ws
    } else {
        match translation_of(lines[0]) {
            Some((root, text)) => load_translations(
                lines.skip(1),
                language,
                translate_one(ws, root, language, text),
            ),
            None => load_translations(lines.skip(1), language, ws),
        }
    }
}

/// Reads a translation file to its end and enters what it gives into
/// `words`, as translations into `tl_key`.
pub fn add_translation(scanner: &mut LineScanner, words: &mut Dictionary, tl_key: String)
    requires
        old(words).wf(),
    ensures
        final(words).wf(),
        final(words)@ == load_translations(old(scanner).remaining(), tl_key@, old(words)@),
        final(scanner).remaining().len() == 0,
{
    let mut done = false;
    while !done
        invariant
            words.wf(),
            load_translations(old(scanner).remaining(), tl_key@, old(words)@) == load_translations(
                scanner.remaining(),
                tl_key@,
                words@,
            ),
            done ==> scanner.remaining().len() == 0,
        decreases
                if done {
                    0
                } else {
                    1 + scanner.remaining().len()
                },
    {
        match scanner.next() {
            None => {
                done = true;
            },
            Some(line) => {
                match parse_translation_line(line) {
                    Some((root, text)) => {
                        words.translate(root.as_str(), tl_key.as_str(), text);
                    },
                    None => {},
                }
            },
        }
    }
}

/// The marker that opens a symbol block.
pub open spec fn symbol_marker() -> Seq<char> {
    "[SYMBOL:"@
}

/// The banner of a symbol file.
pub open spec fn symbols_banner() -> Seq<char> {
    "language_SYM"@
}

/// `is_form_line` as a predicate: the lines of a symbol block are indented
/// as form lines are.
pub open spec fn entry_line() -> spec_fn(Seq<char>) -> bool {
    |line: Seq<char>| is_form_line(line)
}

/// The root that a line of a symbol block names: the trimmed line without
/// `[S_WORD:` at its start and without the closing bracket.
pub open spec fn ref_name(line: Seq<char>) -> Seq<char> {
    without_suffixes(without_prefixes(trimmed(line), "[S_WORD:"@), "]"@)
}

/// How many of `lines` the symbol block at their start takes: the lines up
/// to the first that is not indented as an entry.
pub open spec fn refs_extent(lines: Seq<Seq<char>>) -> nat {
    leading(lines, entry_line())
}

/// The roots that the lines name, one for each, in order.
pub open spec fn refs_of(lines: Seq<Seq<char>>) -> Seq<Seq<char>> {
    Seq::new(lines.len(), |i: int| ref_name(lines[i]))
}

/// The roots that the symbol block at the start of `lines` lists.
pub open spec fn block_refs(lines: Seq<Seq<char>>) -> Seq<Seq<char>> {
    refs_of(lines.take(refs_extent(lines) as int))
}

/// `ws` after `symbol` is added to the words that `refs` name, once for
/// each time that a word is named. A name that no word has adds nothing.
pub open spec fn tagged(ws: Seq<WordView>, symbol: Seq<char>, refs: Seq<Seq<char>>) -> Seq<
    WordView,
>
    decreases refs.len(),
{
    if refs.len() == 0 {
        ws
    } else {
        tag_one(tagged(ws, symbol, refs.drop_last()), refs.last(), symbol)
    }
}

/// Reads the next line of a symbol block and gives the root it names. Where
/// the next line is not indented as an entry, nothing is read and the result
/// is `None`.
pub fn read_symbol_line(scanner: &mut LineScanner) -> (r: Option<String>)
    ensures
        old(scanner).remaining().len() > 0 && is_form_line(old(scanner).remaining()[0]) <==> r
            is Some,
        match r {
            Some(root) => {
                &&& root@ == ref_name(old(scanner).remaining()[0])
                &&& final(scanner).remaining() == old(scanner).remaining().skip(1)
            },
            None => final(scanner).remaining() == old(scanner).remaining(),
        },
{
    let ghost before = scanner.remaining();
    let line = match scanner.next() {
        Some(line) => line,
        None => {
            return None;
        },
    };
    if !starts_with(line.as_str(), "\t[") {
        scanner.pushback(line);
        proof {
            assert(seq![before[0]] + before.skip(1) =~= before);
        }
        return None;
    }
    let inner = trim_end_matches(trim_start_matches(trim(line.as_str()), "[S_WORD:"), "]");
    Some(String::from_str(inner))
}

/// The name that the header line of a symbol block gives.
pub fn parse_symbol_root(line: &str) -> (name: String)
    ensures
        name@ == without_suffixes(without_prefixes(line@, symbol_marker()), "]"@),
{
    String::from_str(trim_end_matches(trim_start_matches(line, "[SYMBOL:"), "]"))
}

/// Reads the symbol block that `line` heads: the entries that follow it at
/// the scanner's place. The result is the symbol's name and the roots it
/// lists, and the symbol is added to each word of `words` that it lists.
/// Where `line` heads no block, nothing is read or changed and the result is
/// `None`; the line is noted in `log` if it is unexpected.
pub fn read_symbol_block(
    line: &str,
    scanner: &mut LineScanner,
    words: &mut Dictionary,
    log: &mut Vec<Anomaly>,
) -> (r: Option<(String, Vec<String>)>)
    requires
        old(words).wf(),
    ensures
        final(words).wf(),
        header_kind(line@, symbol_marker(), symbols_banner()) == HeaderKind::Block <==> r is Some,
        final(log).deep_view() == old(log).deep_view() + header_notes(
            line@,
            symbol_marker(),
            symbols_banner(),
        ),
        match r {
            Some((name, roots)) => {
                &&& name@ == header_name(line@, symbol_marker())
                &&& roots.deep_view() == block_refs(old(scanner).remaining())
                &&& final(scanner).remaining() == old(scanner).remaining().skip(
                    refs_extent(old(scanner).remaining()) as int,
                )
                &&& final(words)@ == tagged(
                    old(words)@,
                    header_name(line@, symbol_marker()),
                    block_refs(old(scanner).remaining()),
                )
            },
            None => {
                &&& final(scanner).remaining() == old(scanner).remaining()
                &&& final(words)@ == old(words)@
            },
        },
{
    match classify_header(line, "[SYMBOL:", "language_SYM") {
        HeaderKind::Block => {
            proof {
                assert(log.deep_view() + Seq::<AnomalyView>::empty() =~= log.deep_view());
            }
        },
        HeaderKind::Unexpected => {
            note_header(line, log);
            return None;
        },
        _ => {
            proof {
                assert(log.deep_view() + Seq::<AnomalyView>::empty() =~= log.deep_view());
            }
            return None;
        },
    }
    let ghost before = scanner.remaining();
    let name = parse_symbol_root(trim_end(line));
    let mut list: Vec<String> = Vec::new();
    let ghost mut taken: int = 0;
    let mut done = false;
    proof {
        assert(before.skip(0) =~= before);
        assert(list.deep_view() =~= refs_of(before.take(0)));
    }
    while !done
        invariant
            0 <= taken <= before.len(),
            words.wf(),
            scanner.remaining() == before.skip(taken),
            forall|j: int| 0 <= j < taken ==> is_form_line(#[trigger] before[j]),
            done ==> taken == before.len() || !is_form_line(before[taken]),
            list.deep_view() == refs_of(before.take(taken)),
            words@ == tagged(old(words)@, name@, list.deep_view()),
        decreases
                if done {
                    0
                } else {
                    1 + before.len() - taken
                },
    {
        let ghost listed = list.deep_view();
        match read_symbol_line(scanner) {
            None => {
                done = true;
            },
            Some(root) => {
                words.tag(root.as_str(), name.as_str());
                list.push(root);
                proof {
                    assert(before.skip(taken).skip(1) =~= before.skip(taken + 1));
                    assert(list.deep_view() =~= listed.push(ref_name(before[taken])));
                    assert(list.deep_view().drop_last() =~= listed);
                    assert(list.deep_view() =~= refs_of(before.take(taken + 1)));
                    taken = taken + 1;
                }
            },
        }
    }
    proof {
        assert forall|j: int| 0 <= j < taken implies (entry_line())(#[trigger] before[j]) by {
            assert(is_form_line(before[j]));
        }
        lemma_leading_is(before, entry_line(), taken);
    }
    Some((name, list))
}

/// The symbol index that `lines` describe, entered into `index`, and `ws`
/// after each symbol is added to the words it lists: every line that heads a
/// block gives a symbol with the roots under it, which takes the place of an
/// earlier symbol of the same name. Lines outside blocks are passed over.
pub open spec fn load_symbols(
    lines: Seq<Seq<char>>,
    index: Seq<SymbolView>,
    ws: Seq<WordView>,
) -> (Seq<SymbolView>, Seq<WordView>)
    decreases lines.len(),
    via load_symbols_decreases
{
    if lines.len() == 0 {
        (index, ws)
    } else if header_kind(lines[0], symbol_marker(), symbols_banner()) != HeaderKind::Block {
        load_symbols(lines.skip(1), index, ws)
    } else {
        load_symbols(
            lines.skip(1).skip(refs_extent(lines.skip(1)) as int),
            put_symbol(index, header_name(lines[0], symbol_marker()), block_refs(lines.skip(1))),
            tagged(ws, header_name(lines[0], symbol_marker()), block_refs(lines.skip(1))),
        )
    }
}

#[via_fn]
proof fn load_symbols_decreases(lines: Seq<Seq<char>>, index: Seq<SymbolView>, ws: Seq<WordView>) {
    if lines.len() > 0 {
        lemma_leading_run(lines.skip(1), entry_line());
    }
}

/// What is noted of a symbol file: each unexpected line at the place of a
/// header, in the order of the file.
pub open spec fn symbols_notes(lines: Seq<Seq<char>>) -> Seq<AnomalyView>
    decreases lines.len(),
    via symbols_notes_decreases
{
    if lines.len() == 0 {
        Seq::empty()
    } else if header_kind(lines[0], symbol_marker(), symbols_banner()) != HeaderKind::Block {
        header_notes(lines[0], symbol_marker(), symbols_banner()) + symbols_notes(lines.skip(1))
    } else {
        symbols_notes(lines.skip(1).skip(refs_extent(lines.skip(1)) as int))
    }
}

#[via_fn]
proof fn symbols_notes_decreases(lines: Seq<Seq<char>>) {
    if lines.len() > 0 {
        lemma_leading_run(lines.skip(1), entry_line());
    }
}

/// Reads a symbol file to its end. The result is the index of its symbols;
/// each symbol is added to the words of `words` that it lists. What is passed
/// over is noted in `log`.
pub fn add_symbols(
    scanner: &mut LineScanner,
    words: &mut Dictionary,
    log: &mut Vec<Anomaly>,
) -> (index: SymbolIndex)
    requires
        old(words).wf(),
    ensures
        final(words).wf(),
        index.wf(),
        (index@, final(words)@) == load_symbols(
            old(scanner).remaining(),
            Seq::empty(),
            old(words)@,
        ),
        final(log).deep_view() == old(log).deep_view() + symbols_notes(old(scanner).remaining()),
        final(scanner).remaining().len() == 0,
{
    let mut index = SymbolIndex::new();
    let mut done = false;
    while !done
        invariant
            words.wf(),
            index.wf(),
            load_symbols(old(scanner).remaining(), Seq::empty(), old(words)@) == load_symbols(
                scanner.remaining(),
                index@,
                words@,
            ),
            old(log).deep_view() + symbols_notes(old(scanner).remaining()) == log.deep_view()
                + symbols_notes(scanner.remaining()),
            done ==> scanner.remaining().len() == 0,
        decreases
                if done {
                    0
                } else {
                    1 + scanner.remaining().len()
                },
    {
        let ghost lines = scanner.remaining();
        let ghost noted = log.deep_view();
        match scanner.next() {
            None => {
                done = true;
            },
            Some(line) => {
                proof {
                    lemma_leading_run(lines.skip(1), entry_line());
                }
                match read_symbol_block(line.as_str(), scanner, words, log) {
                    Some((name, list)) => {
                        index.insert(name, list);
                        proof {
                            assert(noted + Seq::<AnomalyView>::empty() =~= noted);
                        }
                    },
                    None => {
                        proof {
                            let first = header_notes(lines[0], symbol_marker(), symbols_banner());
                            assert(noted + (first + symbols_notes(lines.skip(1))) =~= noted
                                + first + symbols_notes(lines.skip(1)));
                        }
                    },
                }
            },
        }
    }
    proof {
        assert(log.deep_view() + Seq::<AnomalyView>::empty() =~= log.deep_view());
    }
    index
}

/// `symbol`, `n` times.
pub open spec fn copies(symbol: Seq<char>, n: nat) -> Seq<Seq<char>> {
    Seq::new(n, |k: int| symbol)
}

/// Where no two words have the same root, adding a symbol to the words that
/// `refs` name changes nothing but the symbols of those words: each gets
/// `symbol` at the end of its symbols once for each time that `refs` names
/// its root.
pub proof fn lemma_tagged(ws: Seq<WordView>, symbol: Seq<char>, refs: Seq<Seq<char>>)
    requires
        distinct_roots(ws),
    ensures
        tagged(ws, symbol, refs).len() == ws.len(),
        forall|i: int|
            0 <= i < ws.len() ==> #[trigger] tagged(ws, symbol, refs)[i] == (WordView {
                symbols: ws[i].symbols + copies(symbol, occurrences(refs, ws[i].root)),
                ..ws[i]
            }),
    decreases refs.len(),
{
    if refs.len() == 0 {
        assert forall|i: int| 0 <= i < ws.len() implies #[trigger] tagged(ws, symbol, refs)[i] == (
        WordView {
            symbols: ws[i].symbols + copies(symbol, occurrences(refs, ws[i].root)),
            ..ws[i]
        }) by {
            assert(refs =~= Seq::empty());
            lemma_occurrences_empty(ws[i].root);
            assert(ws[i].symbols + copies(symbol, 0) =~= ws[i].symbols);
        }
    } else {
        let earlier = refs.drop_last();
        let last = refs.last();
        let mid = tagged(ws, symbol, earlier);
        lemma_tagged(ws, symbol, earlier);
        lemma_leading_run(mid, other_root(last));
        let at = position(mid, last) as int;
        assert(refs =~= earlier.push(last));
        assert forall|i: int| 0 <= i < ws.len() implies #[trigger] tagged(ws, symbol, refs)[i] == (
        WordView {
            symbols: ws[i].symbols + copies(symbol, occurrences(refs, ws[i].root)),
            ..ws[i]
        }) by {
            lemma_occurrences_push(earlier, last, ws[i].root);
            let before = occurrences(earlier, ws[i].root);
            assert(mid[i].root == ws[i].root);
            if i == at {
                assert(ws[i].root == last);
                assert((ws[i].symbols + copies(symbol, before)).push(symbol) =~= ws[i].symbols
                    + copies(symbol, before + 1));
            } else if at < ws.len() {
                assert(mid[at].root == ws[at].root);
                if i < at {
                    assert((other_root(last))(mid[i]));
                } else {
                    assert(ws[at].root != ws[i].root);
                }
                assert(ws[i].root != last);
            } else {
                assert((other_root(last))(mid[i]));
                assert(ws[i].root != last);
            }
        }
    }
}

} // verus!
