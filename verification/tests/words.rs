use dorf_name::classify_header;
use dorf_name::Adjective;
use dorf_name::Anomaly;
use dorf_name::HeaderKind;
use dorf_name::LineScanner;
use dorf_name::Noun;
use dorf_name::ParseError;
use dorf_name::Prefix;
use dorf_name::Usage;
use dorf_name::Verb;
use dorf_name::Word;
use dorf_name::WordForm;

fn word_lines(text: &[&str]) -> Vec<String> {
    text.iter().map(|l| l.to_string()).collect()
}

fn form(form_type: &str, forms: &[&str], usages: Vec<Usage>) -> WordForm {
    WordForm {
        form_type: form_type.to_string(),
        forms: forms.iter().map(|f| f.to_string()).collect(),
        usages,
    }
}

#[test]
fn usage_table_is_complete() {
    let table = [
        ("[ADJ_DIST:1]", Usage::AdjDist1),
        ("[ADJ_DIST:2]", Usage::AdjDist2),
        ("[ADJ_DIST:3]", Usage::AdjDist3),
        ("[ADJ_DIST:4]", Usage::AdjDist4),
        ("[ADJ_DIST:5]", Usage::AdjDist5),
        ("[ADJ_DIST:6]", Usage::AdjDist6),
        ("[ADJ_DIST:7]", Usage::AdjDist7),
        ("[FRONT_COMPOUND_ADJ]", Usage::FrontCompoundAdj),
        ("[FRONT_COMPOUND_NOUN_PLUR]", Usage::FrontCompoundNounPlur),
        ("[FRONT_COMPOUND_NOUN_SING]", Usage::FrontCompoundNounSing),
        ("[FRONT_COMPOUND_PREFIX]", Usage::FrontCompoundPrefix),
        ("[OF_NOUN_PLUR]", Usage::OfNounPlur),
        ("[OF_NOUN_SING]", Usage::OfNounSing),
        ("[REAR_COMPOUND_ADJ]", Usage::RearCompoundAdj),
        ("[REAR_COMPOUND_NOUN_PLUR]", Usage::RearCompoundNounPlur),
        ("[REAR_COMPOUND_NOUN_SING]", Usage::RearCompoundNounSing),
        ("[STANDARD_VERB]", Usage::StandardVerb),
        ("[THE_COMPOUND_ADJ]", Usage::TheCompoundAdj),
        ("[THE_COMPOUND_NOUN_PLUR]", Usage::TheCompoundNounPlur),
        ("[THE_COMPOUND_NOUN_SING]", Usage::TheCompoundNounSing),
        ("[THE_COMPOUND_PREFIX]", Usage::TheCompoundPrefix),
        ("[THE_NOUN_PLUR]", Usage::TheNounPlur),
        ("[THE_NOUN_SING]", Usage::TheNounSing),
    ];
    for (tag, usage) in table {
        assert_eq!(Usage::from_tag(tag), Some(usage), "{}", tag);
    }
}

#[test]
fn unknown_usage_tag_names_nothing() {
    assert_eq!(Usage::from_tag("[ADJ_DIST:8]"), None);
    assert_eq!(Usage::from_tag("THE_NOUN_SING"), None);
    assert_eq!(Usage::from_tag(""), None);
    assert_eq!(Usage::from_tag(" [THE_NOUN_SING]"), None);
}

#[test]
fn noun_takes_singular_and_plural() {
    let noun = Noun::from_form(form("NOUN", &["abbey", "abbeys"], vec![Usage::TheNounSing]));
    assert_eq!(
        noun,
        Ok(Noun {
            singular: "abbey".to_string(),
            plural: "abbeys".to_string(),
            usages: vec![Usage::TheNounSing],
        })
    );
}

#[test]
fn noun_without_plural_gets_the_sentinel() {
    let noun = Noun::from_form(form("NOUN", &["abbey"], vec![])).unwrap();
    assert_eq!(noun.singular, "abbey");
    assert_eq!(noun.plural, "ERR_NO_PLURAL");
}

#[test]
fn noun_ignores_further_forms() {
    let noun = Noun::from_form(form("NOUN", &["a", "b", "c"], vec![])).unwrap();
    assert_eq!(noun.singular, "a");
    assert_eq!(noun.plural, "b");
}

#[test]
fn noun_without_forms_is_an_error() {
    let noun = Noun::from_form(form("NOUN", &[], vec![]));
    assert_eq!(noun, Err(ParseError::MissingForms { required: 1, found: 0 }));
}

#[test]
fn verb_takes_five_forms_in_order() {
    let verb = Verb::from_form(form(
        "VERB",
        &["abide", "abides", "abided", "abided2", "abiding"],
        vec![Usage::StandardVerb],
    ));
    assert_eq!(
        verb,
        Ok(Verb {
            infinitive: "abide".to_string(),
            third_person_sing: "abides".to_string(),
            past_tense: "abided".to_string(),
            past_participle: "abided2".to_string(),
            present_participle: "abiding".to_string(),
            usages: vec![Usage::StandardVerb],
        })
    );
}

#[test]
fn verb_with_four_forms_is_an_error() {
    let verb = Verb::from_form(form("VERB", &["a", "b", "c", "d"], vec![]));
    assert_eq!(verb, Err(ParseError::MissingForms { required: 5, found: 4 }));
}

#[test]
fn verb_without_forms_is_an_error() {
    let verb = Verb::from_form(form("VERB", &[], vec![]));
    assert_eq!(verb, Err(ParseError::MissingForms { required: 5, found: 0 }));
}

#[test]
fn adjective_takes_the_first_form() {
    let adj = Adjective::from_form(form("ADJ", &["able", "abler"], vec![Usage::AdjDist4]));
    assert_eq!(adj, Ok(Adjective { adj: "able".to_string(), usages: vec![Usage::AdjDist4] }));
    assert_eq!(
        Adjective::from_form(form("ADJ", &[], vec![])),
        Err(ParseError::MissingForms { required: 1, found: 0 })
    );
}

#[test]
fn prefix_takes_the_first_form() {
    let prefix = Prefix::from_form(form("PREFIX", &["after"], vec![Usage::TheCompoundPrefix]));
    assert_eq!(
        prefix,
        Ok(Prefix { prefix: "after".to_string(), usages: vec![Usage::TheCompoundPrefix] })
    );
    assert_eq!(
        Prefix::from_form(form("PREFIX", &[], vec![])),
        Err(ParseError::MissingForms { required: 1, found: 0 })
    );
}

#[test]
fn header_kinds() {
    let in_words = |line: &str| classify_header(line, "[WORD:", "language_words");
    assert_eq!(in_words("\n"), HeaderKind::Blank);
    assert_eq!(in_words(""), HeaderKind::Blank);
    assert_eq!(in_words("[WORD:X]\n"), HeaderKind::Block);
    assert_eq!(in_words("language_words\n"), HeaderKind::Ignored);
    assert_eq!(in_words("  language_words"), HeaderKind::Ignored);
    assert_eq!(in_words("[OBJECT:LANGUAGE]\n"), HeaderKind::Ignored);
    assert_eq!(in_words("language_SYM\n"), HeaderKind::Unexpected);
    assert_eq!(in_words(" [WORD:X]\n"), HeaderKind::Unexpected);
    assert_eq!(in_words("\t[NOUN:a]\n"), HeaderKind::Unexpected);
    let in_symbols = |line: &str| classify_header(line, "[SYMBOL:", "language_SYM");
    assert_eq!(in_symbols("[SYMBOL:X]\n"), HeaderKind::Block);
    assert_eq!(in_symbols("language_SYM\n"), HeaderKind::Ignored);
    assert_eq!(in_symbols("language_words\n"), HeaderKind::Unexpected);
}

#[test]
fn parse_root_strips_marker_and_bracket() {
    assert_eq!(Word::parse_root("[WORD:ABBEY]"), "ABBEY");
    assert_eq!(Word::parse_root("[WORD:ABBEY"), "ABBEY");
    assert_eq!(Word::parse_root("[WORD:[WORD:A]]"), "A");
    assert_eq!(Word::parse_root("[WORD:]"), "");
}

#[test]
fn form_with_usages_is_read_whole() {
    let mut scanner = LineScanner::new(word_lines(&[
        "\t[NOUN:abbey:abbeys]\n",
        "\t\t[FRONT_COMPOUND_NOUN_SING]\n",
        "\t\t[THE_NOUN_SING]\n",
        "\n",
    ]));
    let form = WordForm::parse(&mut scanner, &mut Vec::new()).unwrap();
    assert_eq!(form.form_type, "NOUN");
    assert_eq!(form.forms, vec!["abbey", "abbeys"]);
    assert_eq!(form.usages, vec![Usage::FrontCompoundNounSing, Usage::TheNounSing]);
    assert_eq!(scanner.next(), Some("\n".to_string()));
    assert_eq!(scanner.next(), None);
}

#[test]
fn form_drops_unknown_usages() {
    let mut scanner = LineScanner::new(word_lines(&[
        "\t[ADJ:able]\n",
        "\t\t[ADJ_DIST:4]\n",
        "\t\t[NO_SUCH_TAG]\n",
        "\t\t[THE_COMPOUND_ADJ]\n",
    ]));
    let form = WordForm::parse(&mut scanner, &mut Vec::new()).unwrap();
    assert_eq!(form.usages, vec![Usage::AdjDist4, Usage::TheCompoundAdj]);
    assert_eq!(scanner.next(), None);
}

#[test]
fn form_leaves_the_next_form_unread() {
    let mut scanner =
        LineScanner::new(word_lines(&["\t[NOUN:a:b]\n", "\t[VERB:c:d:e:f:g]\n", "[WORD:X]\n"]));
    let first = WordForm::parse(&mut scanner, &mut Vec::new()).unwrap();
    assert_eq!(first.form_type, "NOUN");
    assert!(first.usages.is_empty());
    let second = WordForm::parse(&mut scanner, &mut Vec::new()).unwrap();
    assert_eq!(second.form_type, "VERB");
    assert_eq!(second.forms, vec!["c", "d", "e", "f", "g"]);
    assert_eq!(WordForm::parse(&mut scanner, &mut Vec::new()), None);
    assert_eq!(scanner.next(), Some("[WORD:X]\n".to_string()));
}

#[test]
fn form_is_not_read_from_other_lines() {
    for line in ["[WORD:X]\n", "\n", "\t\t[THE_NOUN_SING]\n", " \t[NOUN:a]\n", "\tNOUN\n"] {
        let mut scanner = LineScanner::new(word_lines(&[line, "next"]));
        assert_eq!(WordForm::parse(&mut scanner, &mut Vec::new()), None, "{:?}", line);
        assert_eq!(scanner.next(), Some(line.to_string()));
        assert_eq!(scanner.next(), Some("next".to_string()));
    }
    let mut scanner = LineScanner::new(Vec::new());
    assert_eq!(WordForm::parse(&mut scanner, &mut Vec::new()), None);
}

#[test]
fn form_without_fields_has_an_empty_type() {
    let mut scanner = LineScanner::new(word_lines(&["\t[]\n", "\t\t[THE_NOUN_SING]\n"]));
    let form = WordForm::parse(&mut scanner, &mut Vec::new()).unwrap();
    assert_eq!(form.form_type, "");
    assert!(form.forms.is_empty());
    assert_eq!(form.usages, vec![Usage::TheNounSing]);
    let mut scanner = LineScanner::new(word_lines(&["\t[:::]\n"]));
    let form = WordForm::parse(&mut scanner, &mut Vec::new()).unwrap();
    assert_eq!(form.form_type, "");
    assert!(form.forms.is_empty());
}

#[test]
fn form_fields_skip_empty_pieces_and_brackets() {
    let mut scanner = LineScanner::new(word_lines(&["\t[[NOUN::a:b]]  \n"]));
    let form = WordForm::parse(&mut scanner, &mut Vec::new()).unwrap();
    assert_eq!(form.form_type, "NOUN");
    assert_eq!(form.forms, vec!["a", "b"]);
}

#[test]
fn word_block_fills_every_slot() {
    let mut scanner = LineScanner::new(word_lines(&[
        "\t[NOUN:act:acts]\n",
        "\t\t[THE_NOUN_SING]\n",
        "\t[VERB:act:acts:acted:acted:acting]\n",
        "\t\t[STANDARD_VERB]\n",
        "\t[ADJ:active]\n",
        "\t\t[ADJ_DIST:2]\n",
        "\t[PREFIX:act]\n",
        "\t\t[FRONT_COMPOUND_PREFIX]\n",
        "\n",
        "[WORD:NEXT]\n",
    ]));
    let word = Word::parse("[WORD:ACT]\n", &mut scanner, &mut Vec::new()).unwrap();
    assert_eq!(word.root, "ACT");
    assert_eq!(
        word.noun,
        Some(Noun {
            singular: "act".to_string(),
            plural: "acts".to_string(),
            usages: vec![Usage::TheNounSing],
        })
    );
    assert_eq!(word.verb.as_ref().unwrap().present_participle, "acting");
    assert_eq!(word.verb.as_ref().unwrap().usages, vec![Usage::StandardVerb]);
    assert_eq!(
        word.adj,
        Some(Adjective { adj: "active".to_string(), usages: vec![Usage::AdjDist2] })
    );
    assert_eq!(
        word.prefix,
        Some(Prefix { prefix: "act".to_string(), usages: vec![Usage::FrontCompoundPrefix] })
    );
    assert!(word.translations.is_empty());
    assert!(word.symbols.is_empty());
    assert_eq!(scanner.next(), Some("\n".to_string()));
    assert_eq!(scanner.next(), Some("[WORD:NEXT]\n".to_string()));
}

#[test]
fn word_without_forms_is_blank() {
    let mut scanner = LineScanner::new(word_lines(&["[WORD:B]\n"]));
    let word = Word::parse("[WORD:A]  \n", &mut scanner, &mut Vec::new()).unwrap();
    assert_eq!(word, Word::new("A".to_string()));
    assert_eq!(scanner.next(), Some("[WORD:B]\n".to_string()));
}

#[test]
fn later_form_of_a_type_replaces_the_earlier() {
    let mut scanner = LineScanner::new(word_lines(&[
        "\t[NOUN:one:ones]\n",
        "\t\t[THE_NOUN_SING]\n",
        "\t[NOUN:two]\n",
    ]));
    let word = Word::parse("[WORD:N]\n", &mut scanner, &mut Vec::new()).unwrap();
    assert_eq!(
        word.noun,
        Some(Noun {
            singular: "two".to_string(),
            plural: "ERR_NO_PLURAL".to_string(),
            usages: vec![],
        })
    );
}

#[test]
fn short_verb_leaves_the_slot_as_it_was() {
    let mut scanner = LineScanner::new(word_lines(&[
        "\t[VERB:go:goes:went:gone:going]\n",
        "\t[VERB:go:goes]\n",
        "\t[NOUN:]\n",
        "\t[ADJ:gone]\n",
    ]));
    let word = Word::parse("[WORD:GO]\n", &mut scanner, &mut Vec::new()).unwrap();
    assert_eq!(word.verb.as_ref().unwrap().past_tense, "went");
    assert_eq!(word.noun, None);
    assert_eq!(word.adj.as_ref().unwrap().adj, "gone");
    assert_eq!(scanner.next(), None);
}

#[test]
fn unknown_form_type_is_passed_over() {
    let mut scanner = LineScanner::new(word_lines(&[
        "\t[ADVERB:fast]\n",
        "\t\t[THE_NOUN_SING]\n",
        "\t[ADJ:fast]\n",
    ]));
    let word = Word::parse("[WORD:FAST]\n", &mut scanner, &mut Vec::new()).unwrap();
    assert_eq!(word.noun, None);
    assert_eq!(word.verb, None);
    assert_eq!(word.prefix, None);
    assert_eq!(word.adj.as_ref().unwrap().adj, "fast");
}

#[test]
fn usage_line_right_under_the_header_ends_the_block() {
    let mut scanner = LineScanner::new(word_lines(&["\t\t[THE_NOUN_SING]\n", "\t[NOUN:a]\n"]));
    let word = Word::parse("[WORD:A]\n", &mut scanner, &mut Vec::new()).unwrap();
    assert_eq!(word.noun, None);
    assert_eq!(scanner.next(), Some("\t\t[THE_NOUN_SING]\n".to_string()));
}

#[test]
fn lines_that_head_no_block_read_nothing() {
    let lines = ["\n", "", "language_words\n", "[OBJECT:LANGUAGE]\n", "other\n", " [WORD:A]\n"];
    for line in lines {
        let mut scanner = LineScanner::new(word_lines(&["\t[NOUN:a]\n"]));
        assert_eq!(Word::parse(line, &mut scanner, &mut Vec::new()), None, "{:?}", line);
        assert_eq!(scanner.next(), Some("\t[NOUN:a]\n".to_string()));
    }
}

#[test]
fn enter_dispatches_by_type() {
    let mut word = Word::new("W".to_string());
    assert_eq!(word.enter(form("PREFIX", &["pre"], vec![])), Ok(()));
    assert_eq!(word.enter(form("noun", &["lower"], vec![])), Ok(()));
    assert_eq!(word.enter(form("", &[], vec![])), Err(ParseError::MissingType));
    assert_eq!(
        word.enter(form("VERB", &["a", "b"], vec![])),
        Err(ParseError::MissingForms { required: 5, found: 2 })
    );
    assert_eq!(
        word.enter(form("NOUN", &[], vec![])),
        Err(ParseError::MissingForms { required: 1, found: 0 })
    );
    assert_eq!(
        word.enter(form("ADJ", &[], vec![])),
        Err(ParseError::MissingForms { required: 1, found: 0 })
    );
    assert_eq!(
        word.enter(form("PREFIX", &[], vec![])),
        Err(ParseError::MissingForms { required: 1, found: 0 })
    );
    assert_eq!(word.prefix.as_ref().unwrap().prefix, "pre");
    assert_eq!(word.noun, None);
    assert_eq!(word.verb, None);
    assert_eq!(word.adj, None);
}

#[test]
fn unknown_usages_are_noted_as_read() {
    let mut scanner = LineScanner::new(word_lines(&[
        "\t[ADJ:able]\n",
        "\t\t[ADJ_DIST:4]\n",
        "\t\t[NO_SUCH_TAG]\n",
        "\t\tjunk",
        "\t\t[THE_COMPOUND_ADJ]\n",
    ]));
    let mut log = vec![Anomaly::UnexpectedHeader("earlier".to_string())];
    let form = WordForm::parse(&mut scanner, &mut log).unwrap();
    assert_eq!(form.usages, vec![Usage::AdjDist4, Usage::TheCompoundAdj]);
    assert_eq!(
        log,
        vec![
            Anomaly::UnexpectedHeader("earlier".to_string()),
            Anomaly::UnknownUsage("\t\t[NO_SUCH_TAG]\n".to_string()),
            Anomaly::UnknownUsage("\t\tjunk".to_string()),
        ]
    );
}

#[test]
fn no_form_notes_nothing() {
    let mut scanner = LineScanner::new(word_lines(&["\t\t[NO_SUCH_TAG]\n"]));
    let mut log = Vec::new();
    assert_eq!(WordForm::parse(&mut scanner, &mut log), None);
    assert!(log.is_empty());
}

#[test]
fn block_notes_usages_then_short_forms() {
    let mut scanner = LineScanner::new(word_lines(&[
        "\t[VERB:go:goes]\n",
        "\t\t[WHAT]\n",
        "\t[NOUN:go]\n",
        "\t[]\n",
        "\t[ADVERB:x]\n",
        "\t[PREFIX:]\n",
        "\t\t[HO]\n",
        "\n",
    ]));
    let mut log = Vec::new();
    let word = Word::parse("[WORD:GO]\n", &mut scanner, &mut log).unwrap();
    assert_eq!(word.noun.as_ref().unwrap().singular, "go");
    assert_eq!(
        log,
        vec![
            Anomaly::UnknownUsage("\t\t[WHAT]\n".to_string()),
            Anomaly::ShortForm {
                form_type: "VERB".to_string(),
                error: ParseError::MissingForms { required: 5, found: 2 },
            },
            Anomaly::ShortForm { form_type: "".to_string(), error: ParseError::MissingType },
            Anomaly::UnknownUsage("\t\t[HO]\n".to_string()),
            Anomaly::ShortForm {
                form_type: "PREFIX".to_string(),
                error: ParseError::MissingForms { required: 1, found: 0 },
            },
        ]
    );
}

#[test]
fn unexpected_header_is_noted_trimmed() {
    let mut scanner = LineScanner::new(Vec::new());
    let mut log = Vec::new();
    assert_eq!(Word::parse("  what is this \n", &mut scanner, &mut log), None);
    assert_eq!(Word::parse("\n", &mut scanner, &mut log), None);
    assert_eq!(Word::parse("language_words\n", &mut scanner, &mut log), None);
    assert_eq!(Word::parse("[OBJECT:LANGUAGE]\n", &mut scanner, &mut log), None);
    assert_eq!(Word::parse("[SYMBOL:X]\n", &mut scanner, &mut log), None);
    assert_eq!(
        log,
        vec![
            Anomaly::UnexpectedHeader("what is this".to_string()),
            Anomaly::UnexpectedHeader("[SYMBOL:X]".to_string()),
        ]
    );
}

#[test]
fn word_as_text_is_its_root() {
    let mut scanner = LineScanner::new(word_lines(&["\t[NOUN:abbey:abbeys]\n"]));
    let word = Word::parse("[WORD:ABBEY]\n", &mut scanner, &mut Vec::new()).unwrap();
    assert_eq!(word.to_string(), "ABBEY");
    assert_eq!(Word::new("".to_string()).to_string(), "");
}
