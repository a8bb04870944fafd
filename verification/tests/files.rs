use dorf_name::add_symbols;
use dorf_name::add_translation;
use dorf_name::parse_symbol_root;
use dorf_name::parse_translation_line;
use dorf_name::read_lang_file;
use dorf_name::read_symbol_block;
use dorf_name::read_symbol_line;
use dorf_name::Anomaly;
use dorf_name::Dictionary;
use dorf_name::LineScanner;
use dorf_name::ParseError;
use dorf_name::SymbolIndex;
use dorf_name::Translation;
use dorf_name::Word;

/// A scanner over the given lines, each with a line end after it.
fn scan(lines: &[&str]) -> LineScanner {
    LineScanner::new(lines.iter().map(|l| format!("{}\n", l)).collect())
}

fn read_words(lines: &[&str]) -> Dictionary {
    read_lang_file(&mut scan(lines), &mut Vec::new())
}

fn two_words() -> Dictionary {
    read_words(&["[WORD:W1]", "\t[NOUN:one:ones]", "", "[WORD:W2]", "\t[ADJ:two]"])
}

#[test]
fn one_word_dictionary_gives_back_its_noun() {
    let words = read_words(&["[WORD:ABBEY]", "\t[NOUN:abbey:abbeys]"]);
    assert_eq!(words.len(), 1);
    let noun = words.get("ABBEY").unwrap().noun.as_ref().unwrap();
    assert_eq!(noun.singular, "abbey");
    assert_eq!(noun.plural, "abbeys");
    assert!(words.get("abbey").is_none());
}

#[test]
fn one_word_dictionary_without_plural_gives_the_sentinel() {
    let words = read_words(&["[WORD:ABBEY]", "\t[NOUN:abbey]"]);
    let noun = words.get("ABBEY").unwrap().noun.as_ref().unwrap();
    assert_eq!(noun.singular, "abbey");
    assert_eq!(noun.plural, "ERR_NO_PLURAL");
}

#[test]
fn line_ends_do_not_matter() {
    for end in ["", "\n", "\r\n", "  \r\n"] {
        let lines = vec![format!("[WORD:ABBEY]{}", end), format!("\t[NOUN:abbey:abbeys]{}", end)];
        let words = read_lang_file(&mut LineScanner::new(lines), &mut Vec::new());
        let noun = words.get("ABBEY").unwrap().noun.as_ref().unwrap();
        assert_eq!(noun.singular, "abbey");
        assert_eq!(noun.plural, "abbeys");
    }
}

#[test]
fn dictionary_file_as_it_is_written() {
    let mut scanner = scan(&[
        "language_words",
        "",
        "[OBJECT:LANGUAGE]",
        "",
        "[WORD:ABBEY]",
        "\t[NOUN:abbey:abbeys]",
        "\t\t[FRONT_COMPOUND_NOUN_SING]",
        "\t\t[REAR_COMPOUND_NOUN_SING]",
        "\t\t[THE_NOUN_SING]",
        "",
        "[WORD:ACT]",
        "\t[NOUN:act:acts]",
        "\t\t[THE_NOUN_SING]",
        "\t[VERB:act:acts:acted:acted:acting]",
        "\t\t[STANDARD_VERB]",
        "",
        "[WORD:AFTER]",
        "\t[PREFIX:after]",
        "\t\t[FRONT_COMPOUND_PREFIX]",
    ]);
    let mut log = Vec::new();
    let words = read_lang_file(&mut scanner, &mut log);
    assert_eq!(scanner.next(), None);
    assert!(log.is_empty());
    assert_eq!(words.len(), 3);
    assert_eq!(words.get("ABBEY").unwrap().noun.as_ref().unwrap().usages.len(), 3);
    assert_eq!(words.get("ACT").unwrap().verb.as_ref().unwrap().past_tense, "acted");
    assert_eq!(words.get("AFTER").unwrap().prefix.as_ref().unwrap().prefix, "after");
    assert!(words.get("AFTER").unwrap().noun.is_none());
}

#[test]
fn blocks_need_no_blank_line_between_them() {
    let words = read_words(&["[WORD:A]", "\t[NOUN:a]", "[WORD:B]", "\t[ADJ:b]", "[WORD:C]"]);
    assert_eq!(words.len(), 3);
    assert_eq!(words.get("A").unwrap().noun.as_ref().unwrap().singular, "a");
    assert_eq!(words.get("B").unwrap().adj.as_ref().unwrap().adj, "b");
    assert_eq!(words.get("C").unwrap(), &Word::new("C".to_string()));
}

#[test]
fn unexpected_lines_do_not_stop_the_load() {
    let words = read_words(&[
        "garbage",
        "\t[NOUN:lost]",
        "\t\t[THE_NOUN_SING]",
        "[WORD:A]",
        "\t[VERB:too:short]",
        "\t[NOUN:a]",
        "??",
        "[WORD:B]",
    ]);
    assert_eq!(words.len(), 2);
    assert!(words.get("A").unwrap().verb.is_none());
    assert_eq!(words.get("A").unwrap().noun.as_ref().unwrap().singular, "a");
    assert!(words.get("B").is_some());
}

#[test]
fn dictionary_file_notes_what_it_passes_over() {
    let mut log = Vec::new();
    let words = read_lang_file(
        &mut scan(&[
            "language_words",
            "",
            "[OBJECT:LANGUAGE]",
            "garbage ",
            "\t[NOUN:lost]",
            "[WORD:A]",
            "\t[VERB:too:short]",
            "\t\t[NOPE]",
            "\t[NOUN:a]",
            "??",
            "[WORD:B]",
        ]),
        &mut log,
    );
    assert_eq!(words.len(), 2);
    assert_eq!(
        log,
        vec![
            Anomaly::UnexpectedHeader("garbage".to_string()),
            Anomaly::UnexpectedHeader("[NOUN:lost]".to_string()),
            Anomaly::UnknownUsage("\t\t[NOPE]\n".to_string()),
            Anomaly::ShortForm {
                form_type: "VERB".to_string(),
                error: ParseError::MissingForms { required: 5, found: 2 },
            },
            Anomaly::UnexpectedHeader("??".to_string()),
        ]
    );
}

#[test]
fn later_word_of_a_root_replaces_the_earlier() {
    let words =
        read_words(&["[WORD:A]", "\t[NOUN:first]", "[WORD:B]", "[WORD:A]", "\t[ADJ:second]"]);
    assert_eq!(words.len(), 2);
    let a = words.get("A").unwrap();
    assert!(a.noun.is_none());
    assert_eq!(a.adj.as_ref().unwrap().adj, "second");
}

#[test]
fn empty_dictionary_file_has_no_words() {
    let words = read_words(&[]);
    assert_eq!(words.len(), 0);
    assert!(words.get("A").is_none());
}

#[test]
fn dictionary_insert_puts_and_replaces() {
    let mut words = Dictionary::new();
    words.insert(Word::new("A".to_string()));
    words.insert(Word::new("B".to_string()));
    let mut again = Word::new("A".to_string());
    again.add_symbol("S".to_string());
    words.insert(again);
    assert_eq!(words.len(), 2);
    assert_eq!(words.get("A").unwrap().symbols, vec!["S"]);
    assert!(words.get("B").unwrap().symbols.is_empty());
}

#[test]
fn dictionary_tag_and_translate_reach_one_word() {
    let mut words = two_words();
    words.tag("W2", "S");
    words.tag("NONE", "S");
    words.translate("W1", "DWARF", "kulet".to_string());
    words.translate("NONE", "DWARF", "x".to_string());
    assert_eq!(words.len(), 2);
    assert!(words.get("W1").unwrap().symbols.is_empty());
    assert_eq!(words.get("W2").unwrap().symbols, vec!["S"]);
    assert_eq!(words.get("W1").unwrap().translation("DWARF"), Some(&"kulet".to_string()));
    assert_eq!(words.get("W2").unwrap().translation("DWARF"), None);
}

#[test]
fn translation_line_gives_root_and_text() {
    let cases = [
        ("[T_WORD:ABBEY:kulet]\n", "ABBEY", "kulet"),
        ("  [T_WORD:A:b:c]  ", "A", "b:c"),
        ("\t[T_WORD:A:b]\r\n", "A", "b"),
        ("[T_WORD::x]", "", "x"),
        ("[T_WORD:A:]", "A", ""),
        ("[T_WORD:A:b]]", "A", "b]"),
    ];
    for (line, root, text) in cases {
        assert_eq!(
            parse_translation_line(line.to_string()),
            Some((root.to_string(), text.to_string())),
            "{:?}",
            line
        );
    }
}

#[test]
fn other_lines_give_no_translation() {
    for line in [
        "",
        "\n",
        "language_DWARF",
        "[OBJECT:LANGUAGE]",
        "[TRANSLATION:DWARF]",
        "[T_WORD:ABBEY]",
        "[T_WORD:ABBEY:kulet",
        "[T_WORD:",
        "[T_WORD:]",
        "T_WORD:A:b]",
        "[WORD:A:b]",
    ] {
        assert_eq!(parse_translation_line(line.to_string()), None, "{:?}", line);
    }
}

#[test]
fn translations_are_entered_for_known_roots() {
    let mut words = two_words();
    let mut scanner = scan(&[
        "language_DWARF",
        "",
        "[OBJECT:LANGUAGE]",
        "[TRANSLATION:DWARF]",
        "\t[T_WORD:W1:kulet]",
        "\t[T_WORD:NONE:x]",
        "\t[T_WORD:W2:alak]",
    ]);
    add_translation(&mut scanner, &mut words, "DWARF".to_string());
    assert_eq!(scanner.next(), None);
    assert_eq!(words.len(), 2);
    assert_eq!(words.get("W1").unwrap().translation("DWARF"), Some(&"kulet".to_string()));
    assert_eq!(words.get("W2").unwrap().translation("DWARF"), Some(&"alak".to_string()));
    assert_eq!(words.get("W1").unwrap().translation("ELF"), None);
    assert!(words.get("NONE").is_none());
}

#[test]
fn later_translation_replaces_the_earlier() {
    let mut words = two_words();
    let mut dwarf = scan(&["[T_WORD:W1:old]", "[T_WORD:W1:new]"]);
    add_translation(&mut dwarf, &mut words, "DWARF".to_string());
    add_translation(&mut scan(&["[T_WORD:W1:elvish]"]), &mut words, "ELF".to_string());
    let w1 = words.get("W1").unwrap();
    assert_eq!(
        w1.translations,
        vec![
            Translation { language: "DWARF".to_string(), text: "new".to_string() },
            Translation { language: "ELF".to_string(), text: "elvish".to_string() },
        ]
    );
    assert_eq!(w1.translation("DWARF"), Some(&"new".to_string()));
    assert_eq!(w1.translation("ELF"), Some(&"elvish".to_string()));
}

#[test]
fn set_translation_keeps_one_text_for_each_language() {
    let mut word = Word::new("W".to_string());
    word.set_translation("A".to_string(), "1".to_string());
    word.set_translation("B".to_string(), "2".to_string());
    word.set_translation("A".to_string(), "3".to_string());
    assert_eq!(word.translations.len(), 2);
    assert_eq!(word.translation("A"), Some(&"3".to_string()));
    assert_eq!(word.translation("B"), Some(&"2".to_string()));
    assert_eq!(word.translation("C"), None);
}

#[test]
fn symbol_root_strips_marker_and_bracket() {
    assert_eq!(parse_symbol_root("[SYMBOL:ARTIFICE]"), "ARTIFICE");
    assert_eq!(parse_symbol_root("[SYMBOL:[SYMBOL:X]]"), "X");
    assert_eq!(parse_symbol_root("ARTIFICE"), "ARTIFICE");
}

#[test]
fn symbol_line_gives_the_root() {
    let mut scanner = scan(&["\t[S_WORD:W1]", "\t[S_WORD:W2]  ", "[SYMBOL:NEXT]"]);
    assert_eq!(read_symbol_line(&mut scanner), Some("W1".to_string()));
    assert_eq!(read_symbol_line(&mut scanner), Some("W2".to_string()));
    assert_eq!(read_symbol_line(&mut scanner), None);
    assert_eq!(scanner.next(), Some("[SYMBOL:NEXT]\n".to_string()));
    assert_eq!(read_symbol_line(&mut scanner), None);
}

#[test]
fn symbol_block_tags_both_words_once() {
    let mut words = two_words();
    let mut scanner = scan(&["\t[S_WORD:W1]", "\t[S_WORD:W2]", ""]);
    let block = read_symbol_block("[SYMBOL:ARTIFICE]\n", &mut scanner, &mut words, &mut Vec::new());
    assert_eq!(block, Some(("ARTIFICE".to_string(), vec!["W1".to_string(), "W2".to_string()])));
    assert_eq!(words.get("W1").unwrap().symbols, vec!["ARTIFICE"]);
    assert_eq!(words.get("W2").unwrap().symbols, vec!["ARTIFICE"]);
    assert_eq!(scanner.next(), Some("\n".to_string()));
}

#[test]
fn symbol_block_tags_once_for_each_listing() {
    let mut words = two_words();
    let mut scanner = scan(&["\t[S_WORD:W1]", "\t[S_WORD:W2]", "\t[S_WORD:W1]"]);
    let block = read_symbol_block("[SYMBOL:S]\n", &mut scanner, &mut words, &mut Vec::new());
    assert_eq!(block.unwrap().1, vec!["W1", "W2", "W1"]);
    assert_eq!(words.get("W1").unwrap().symbols, vec!["S", "S"]);
    assert_eq!(words.get("W2").unwrap().symbols, vec!["S"]);
}

#[test]
fn symbol_block_lists_unknown_roots_and_tags_nothing_for_them() {
    let mut words = two_words();
    let mut scanner = scan(&["\t[S_WORD:GHOST]", "\t[S_WORD:W2]"]);
    let block = read_symbol_block("[SYMBOL:S]\n", &mut scanner, &mut words, &mut Vec::new());
    assert_eq!(block.unwrap().1, vec!["GHOST", "W2"]);
    assert_eq!(words.len(), 2);
    assert!(words.get("GHOST").is_none());
    assert!(words.get("W1").unwrap().symbols.is_empty());
    assert_eq!(words.get("W2").unwrap().symbols, vec!["S"]);
}

#[test]
fn lines_that_head_no_symbol_block_change_nothing() {
    for line in ["\n", "language_SYM\n", "[OBJECT:LANGUAGE]\n", "[WORD:W1]\n", "junk\n"] {
        let mut words = two_words();
        let mut scanner = scan(&["\t[S_WORD:W1]"]);
        let block = read_symbol_block(line, &mut scanner, &mut words, &mut Vec::new());
        assert_eq!(block, None, "{:?}", line);
        assert!(words.get("W1").unwrap().symbols.is_empty());
        assert_eq!(scanner.next(), Some("\t[S_WORD:W1]\n".to_string()));
    }
}

#[test]
fn symbol_file_as_it_is_written() {
    let mut words = two_words();
    let mut scanner = scan(&[
        "language_SYM",
        "",
        "[OBJECT:LANGUAGE]",
        "",
        "[SYMBOL:FLOWERY]",
        "\t[S_WORD:W1]",
        "\t[S_WORD:W2]",
        "",
        "[SYMBOL:EVIL]",
        "\t[S_WORD:W2]",
        "[SYMBOL:EMPTY]",
    ]);
    let mut log = Vec::new();
    let index = add_symbols(&mut scanner, &mut words, &mut log);
    assert_eq!(scanner.next(), None);
    assert!(log.is_empty());
    assert_eq!(index.len(), 3);
    assert_eq!(index.entry(0).name, "FLOWERY");
    assert_eq!(index.entry(1).name, "EVIL");
    assert_eq!(index.entry(2).name, "EMPTY");
    assert_eq!(index.get("FLOWERY"), Some(&vec!["W1".to_string(), "W2".to_string()]));
    assert_eq!(index.get("EVIL"), Some(&vec!["W2".to_string()]));
    assert_eq!(index.get("EMPTY"), Some(&Vec::new()));
    assert_eq!(index.get("NONE"), None);
    assert_eq!(words.get("W1").unwrap().symbols, vec!["FLOWERY"]);
    assert_eq!(words.get("W2").unwrap().symbols, vec!["FLOWERY", "EVIL"]);
}

#[test]
fn symbol_file_notes_unexpected_headers() {
    let mut words = two_words();
    let mut log = Vec::new();
    let index = add_symbols(
        &mut scan(&[
            "language_SYM",
            "[OBJECT:LANGUAGE]",
            "",
            "[WORD:W1]",
            "[SYMBOL:S]",
            "\t[S_WORD:W1]",
            "\t\tdeep",
        ]),
        &mut words,
        &mut log,
    );
    assert_eq!(index.len(), 1);
    assert_eq!(index.get("S"), Some(&vec!["W1".to_string()]));
    assert_eq!(
        log,
        vec![
            Anomaly::UnexpectedHeader("[WORD:W1]".to_string()),
            Anomaly::UnexpectedHeader("deep".to_string()),
        ]
    );
}

#[test]
fn later_symbol_of_a_name_replaces_the_list_and_tags_again() {
    let mut words = two_words();
    let index = add_symbols(
        &mut scan(&[
            "[SYMBOL:S]",
            "\t[S_WORD:W1]",
            "[SYMBOL:T]",
            "[SYMBOL:S]",
            "\t[S_WORD:W2]",
            "\t[S_WORD:W1]",
        ]),
        &mut words,
        &mut Vec::new(),
    );
    assert_eq!(index.len(), 2);
    assert_eq!(index.entry(0).name, "S");
    assert_eq!(index.get("S"), Some(&vec!["W2".to_string(), "W1".to_string()]));
    assert_eq!(words.get("W1").unwrap().symbols, vec!["S", "S"]);
    assert_eq!(words.get("W2").unwrap().symbols, vec!["S"]);
}

#[test]
fn symbol_index_insert_puts_and_replaces() {
    let mut index = SymbolIndex::new();
    index.insert("A".to_string(), vec!["x".to_string()]);
    index.insert("B".to_string(), vec![]);
    index.insert("A".to_string(), vec!["y".to_string(), "z".to_string()]);
    assert_eq!(index.len(), 2);
    assert_eq!(index.entry(0).roots, vec!["y", "z"]);
    assert_eq!(index.get("B"), Some(&Vec::new()));
}
