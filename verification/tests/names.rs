use dorf_name::compose_name;
use dorf_name::ucfirst;
use dorf_name::Anomaly;
use dorf_name::Dictionary;
use dorf_name::Draws;
use dorf_name::Language;
use dorf_name::NameError;
use dorf_name::NamePreset;
use dorf_name::SymbolIndex;
use dorf_name::Word;
use rand::rngs::StdRng;
use rand::SeedableRng;

fn text_lines(lines: &[&str]) -> Vec<String> {
    lines.iter().map(|l| format!("{}\n", l)).collect()
}

fn strings(items: &[&str]) -> Vec<String> {
    items.iter().map(|s| s.to_string()).collect()
}

fn preset(favor: &[&str], exclude: &[&str]) -> NamePreset {
    NamePreset { favor_symbols: strings(favor), exclude_symbols: strings(exclude) }
}

fn draws(given: usize, surname_1: usize, surname_2: usize, form_1: usize, form_2: usize) -> Draws {
    Draws { given, surname_1, surname_2, form_1, form_2 }
}

fn drawn(lang: &Language, pool: &[&str], d: [usize; 5]) -> Result<String, NameError> {
    lang.name_from_draws(&strings(pool), "DWARF", draws(d[0], d[1], d[2], d[3], d[4]))
}

fn foo_language() -> Language {
    Language::load(
        text_lines(&["[WORD:FOO]", "\t[NOUN:foo:foos]"]),
        text_lines(&["[SYMBOL:ARTIFICE]", "\t[S_WORD:FOO]"]),
        text_lines(&["[T_WORD:FOO:Urist]"]),
        &mut Vec::new(),
    )
}

fn wide_language() -> Language {
    Language::load(
        text_lines(&[
            "[WORD:A]",
            "\t[NOUN:Axe:axes]",
            "[WORD:B]",
            "\t[VERB:bake:bakes:baked:BAKEN:baking]",
            "\t[ADJ:baked]",
            "[WORD:C]",
            "\t[ADJ:cold]",
            "[WORD:P]",
            "\t[PREFIX:pre]",
            "\t[NOUN:prenoun]",
            "[WORD:Q]",
            "\t[PREFIX:qu]",
            "[WORD:BARE]",
        ]),
        text_lines(&[
            "[SYMBOL:ARTIFICE]",
            "\t[S_WORD:A]",
            "\t[S_WORD:P]",
            "[SYMBOL:PLAIN]",
            "\t[S_WORD:B]",
            "\t[S_WORD:C]",
            "[SYMBOL:EVIL]",
            "\t[S_WORD:C]",
            "[SYMBOL:NAME_PLACES]",
            "\t[S_WORD:Q]",
            "\t[S_WORD:B]",
            "[SYMBOL:ODD]",
            "\t[S_WORD:BARE]",
            "\t[S_WORD:GHOST]",
        ]),
        text_lines(&[
            "[T_WORD:A:alak]",
            "[T_WORD:B:bomrek]",
            "[T_WORD:BARE:ber]",
        ]),
        &mut Vec::new(),
    )
}

#[test]
fn ucfirst_raises_the_first_character_only() {
    assert_eq!(ucfirst("urist"), "Urist");
    assert_eq!(ucfirst("uRIST"), "URIST");
    assert_eq!(ucfirst("Urist"), "Urist");
    assert_eq!(ucfirst(""), "");
    assert_eq!(ucfirst("é"), "É");
    assert_eq!(ucfirst("ßa"), "SSa");
    assert_eq!(ucfirst("1a"), "1a");
}

#[test]
fn compose_name_joins_the_surname() {
    assert_eq!(compose_name("urist", "FOO", "Bar"), "Urist Foobar");
    assert_eq!(compose_name("Urist", "foo", "foo"), "Urist Foofoo");
    assert_eq!(compose_name("uRist", "éa", "ÀB"), "URist Éaàb");
    assert_eq!(compose_name("", "", ""), " ");
}

#[test]
fn favored_bucket_enters_three_times_and_neutral_once() {
    let mut index = SymbolIndex::new();
    index.insert("FAV".to_string(), strings(&["A1", "A2"]));
    index.insert("NEUTRAL".to_string(), strings(&["B1"]));
    let lang = Language::new(Dictionary::new(), index);
    let pool = lang.name_pool(&preset(&["FAV"], &[]));
    assert_eq!(pool, vec!["A1", "A2", "A1", "A2", "A1", "A2", "B1"]);
    assert_eq!(pool.iter().filter(|r| *r == "A1").count(), 3);
    assert_eq!(pool.iter().filter(|r| *r == "A2").count(), 3);
    assert_eq!(pool.iter().filter(|r| *r == "B1").count(), 1);
}

#[test]
fn excluded_bucket_removes_its_roots_everywhere() {
    let mut index = SymbolIndex::new();
    index.insert("FAV".to_string(), strings(&["A", "X"]));
    index.insert("OUT".to_string(), strings(&["X", "Y"]));
    index.insert("NEUTRAL".to_string(), strings(&["Y", "B", "X"]));
    let lang = Language::new(Dictionary::new(), index);
    let pool = lang.name_pool(&preset(&["FAV"], &["OUT"]));
    assert_eq!(pool, vec!["A", "A", "A", "B"]);
    assert!(!pool.contains(&"X".to_string()));
    assert!(!pool.contains(&"Y".to_string()));
}

#[test]
fn excluded_wins_over_favored() {
    let mut index = SymbolIndex::new();
    index.insert("BOTH".to_string(), strings(&["A"]));
    index.insert("N".to_string(), strings(&["A", "B"]));
    let lang = Language::new(Dictionary::new(), index);
    assert_eq!(lang.name_pool(&preset(&["BOTH"], &["BOTH"])), vec!["B"]);
}

#[test]
fn place_symbols_are_passed_over() {
    let mut index = SymbolIndex::new();
    index.insert("NAME_CAVE".to_string(), strings(&["A"]));
    index.insert("NAME_X".to_string(), strings(&["B"]));
    index.insert("N".to_string(), strings(&["B", "C"]));
    let lang = Language::new(Dictionary::new(), index);
    assert_eq!(lang.name_pool(&preset(&["NAME_CAVE"], &["NAME_X"])), vec!["B", "C"]);
}

#[test]
fn prefix_words_leave_the_pool() {
    let lang = wide_language();
    let pool = lang.name_pool(&preset(&["ARTIFICE"], &["EVIL"]));
    assert_eq!(pool, vec!["A", "A", "A", "B", "BARE", "GHOST"]);
}

#[test]
fn dwarven_preset_is_the_fixed_one() {
    let p = NamePreset::dwarven();
    assert_eq!(p.favor_symbols, vec!["ARTIFICE", "EARTH"]);
    assert_eq!(
        p.exclude_symbols,
        vec!["DOMESTIC", "SUBORDINATE", "EVIL", "FLOWERY", "NEGATIVE", "UGLY", "NEGATOR"]
    );
}

#[test]
fn surface_forms_come_in_order() {
    let lang = wide_language();
    assert_eq!(lang.word("A").unwrap().surface_forms(), vec!["Axe"]);
    assert_eq!(
        lang.word("B").unwrap().surface_forms(),
        vec!["bake", "baked", "BAKEN", "baking", "baked"]
    );
    assert_eq!(lang.word("P").unwrap().surface_forms(), vec!["prenoun"]);
    assert!(lang.word("Q").unwrap().surface_forms().is_empty());
    assert!(lang.word("BARE").unwrap().surface_forms().is_empty());
}

#[test]
fn pick_name_picks_a_surface_form() {
    let lang = wide_language();
    let b = lang.word("B").unwrap();
    let forms = b.surface_forms();
    let mut rng = StdRng::seed_from_u64(11);
    let mut seen = std::collections::BTreeSet::new();
    for _ in 0..400 {
        let form = b.pick_name(&mut rng).unwrap();
        assert!(forms.contains(&form));
        seen.insert(form);
    }
    assert_eq!(seen.len(), 4);
    assert_eq!(lang.word("A").unwrap().pick_name(&mut rng), Ok("Axe".to_string()));
    assert_eq!(lang.word("BARE").unwrap().pick_name(&mut rng), Err(NameError::NoSurfaceForm));
    assert_eq!(Word::new("W".to_string()).pick_name(&mut rng), Err(NameError::NoSurfaceForm));
}

#[test]
fn pick_name_words_picks_from_the_pool() {
    let pool = strings(&["A", "B", "C"]);
    let mut rng = StdRng::seed_from_u64(5);
    let mut seen = std::collections::BTreeSet::new();
    for _ in 0..200 {
        let (given, sur_1, sur_2) = Language::pick_name_words(&pool, &mut rng).unwrap();
        for root in [given, sur_1, sur_2] {
            assert!(pool.contains(&root));
            seen.insert(root);
        }
    }
    assert_eq!(seen.len(), 3);
    assert_eq!(Language::pick_name_words(&Vec::new(), &mut rng), Err(NameError::EmptyPool));
}

#[test]
fn word_lookup_is_exact() {
    let lang = foo_language();
    assert_eq!(lang.word("FOO").unwrap().root, "FOO");
    assert_eq!(lang.word("FOO").unwrap().symbols, vec!["ARTIFICE"]);
    assert_eq!(lang.word("FOO").unwrap().translation("DWARF"), Some(&"Urist".to_string()));
    assert!(lang.word("foo").is_none());
    assert!(lang.word("FO").is_none());
    assert_eq!(lang.words().len(), 1);
    assert_eq!(lang.symbols().len(), 1);
}

#[test]
fn end_to_end_name_is_urist_foofoo() {
    let lang = foo_language();
    let pool = lang.name_pool(&NamePreset::dwarven());
    assert_eq!(pool, vec!["FOO", "FOO", "FOO"]);
    let mut rng = StdRng::seed_from_u64(2024);
    for _ in 0..50 {
        assert_eq!(lang.npc_name("DWARF", &mut rng), Ok("Urist Foofoo".to_string()));
        assert_eq!(lang.name_from_pool(&pool, "DWARF", &mut rng), Ok("Urist Foofoo".to_string()));
    }
    let mut fresh = StdRng::from_entropy();
    assert_eq!(lang.npc_name("DWARF", &mut fresh), Ok("Urist Foofoo".to_string()));
    assert_eq!(drawn(&lang, &["FOO"], [0, 0, 0, 0, 0]), Ok("Urist Foofoo".to_string()));
    assert_eq!(drawn(&lang, &["FOO", "FOO"], [7, 1, 5, 3, 9]), Ok("Urist Foofoo".to_string()));
}

#[test]
fn draws_choose_roots_and_forms() {
    let lang = wide_language();
    let pool = ["A", "B"];
    assert_eq!(drawn(&lang, &pool, [0, 1, 1, 0, 2]), Ok("Alak Bakebaken".to_string()));
    assert_eq!(drawn(&lang, &pool, [1, 0, 1, 0, 3]), Ok("Bomrek Axebaking".to_string()));
    assert_eq!(drawn(&lang, &pool, [2, 3, 2, 1, 5]), Ok("Alak Bakedaxe".to_string()));
    assert_eq!(drawn(&lang, &pool, [1, 1, 1, 4, 4]), Ok("Bomrek Bakedbaked".to_string()));
}

#[test]
fn empty_pool_is_an_error() {
    let lang = wide_language();
    assert_eq!(drawn(&lang, &[], [0, 0, 0, 0, 0]), Err(NameError::EmptyPool));
    assert_eq!(drawn(&lang, &[], [3, 1, 4, 1, 5]), Err(NameError::EmptyPool));
    let mut rng = StdRng::seed_from_u64(3);
    assert_eq!(lang.name_from_pool(&Vec::new(), "DWARF", &mut rng), Err(NameError::EmptyPool));
    let empty = Language::new(Dictionary::new(), SymbolIndex::new());
    assert_eq!(empty.npc_name("DWARF", &mut rng), Err(NameError::EmptyPool));
}

#[test]
fn missing_translation_is_an_error() {
    let lang = wide_language();
    assert_eq!(
        lang.name_from_draws(&strings(&["C", "A"]), "DWARF", draws(0, 1, 1, 0, 0)),
        Err(NameError::NoTranslation)
    );
    assert_eq!(
        lang.name_from_draws(&strings(&["A"]), "ELF", draws(0, 0, 0, 0, 0)),
        Err(NameError::NoTranslation)
    );
    assert_eq!(
        lang.name_from_draws(&strings(&["GHOST", "A"]), "DWARF", draws(0, 1, 1, 0, 0)),
        Err(NameError::NoTranslation)
    );
    let mut rng = StdRng::seed_from_u64(4);
    assert_eq!(foo_language().npc_name("ELF", &mut rng), Err(NameError::NoTranslation));
    assert_eq!(
        lang.name_from_pool(&strings(&["C"]), "DWARF", &mut rng),
        Err(NameError::NoTranslation)
    );
}

#[test]
fn missing_surface_form_is_an_error() {
    let lang = wide_language();
    let pool = ["A", "BARE", "GHOST"];
    assert_eq!(drawn(&lang, &pool, [0, 1, 0, 0, 0]), Err(NameError::NoSurfaceForm));
    assert_eq!(drawn(&lang, &pool, [0, 0, 1, 0, 0]), Err(NameError::NoSurfaceForm));
    assert_eq!(drawn(&lang, &pool, [0, 2, 0, 0, 0]), Err(NameError::NoSurfaceForm));
    assert_eq!(drawn(&lang, &pool, [1, 1, 1, 0, 0]), Err(NameError::NoSurfaceForm));
    let mut rng = StdRng::seed_from_u64(6);
    assert_eq!(
        lang.name_from_pool(&strings(&["BARE"]), "DWARF", &mut rng),
        Err(NameError::NoSurfaceForm)
    );
}

#[test]
fn random_names_are_among_the_drawn_ones() {
    let lang = wide_language();
    let pool = strings(&["A", "B"]);
    let mut all = std::collections::BTreeSet::new();
    for given in 0..2 {
        for s1 in 0..2 {
            for s2 in 0..2 {
                for f1 in 0..5 {
                    for f2 in 0..5 {
                        let d = draws(given, s1, s2, f1, f2);
                        all.insert(lang.name_from_draws(&pool, "DWARF", d).unwrap());
                    }
                }
            }
        }
    }
    let mut rng = StdRng::seed_from_u64(8);
    let mut seen = std::collections::BTreeSet::new();
    for _ in 0..300 {
        let name = lang.name_from_pool(&pool, "DWARF", &mut rng).unwrap();
        assert!(all.contains(&name));
        seen.insert(name);
    }
    assert!(seen.len() > 3);
}

#[test]
fn load_merges_the_three_files() {
    let lang = wide_language();
    assert_eq!(lang.words().len(), 6);
    assert_eq!(lang.symbols().len(), 5);
    assert_eq!(lang.word("B").unwrap().symbols, vec!["PLAIN", "NAME_PLACES"]);
    assert_eq!(lang.word("C").unwrap().symbols, vec!["PLAIN", "EVIL"]);
    assert_eq!(lang.word("C").unwrap().translation("DWARF"), None);
    assert_eq!(lang.word("BARE").unwrap().translation("DWARF"), Some(&"ber".to_string()));
    assert!(lang.word("GHOST").is_none());
    assert_eq!(lang.symbols().get("ODD"), Some(&strings(&["BARE", "GHOST"])));
}

#[test]
fn load_notes_both_files_in_order() {
    let mut log = Vec::new();
    let lang = Language::load(
        text_lines(&["odd", "[WORD:A]"]),
        text_lines(&["strange", "[SYMBOL:S]", "\t[S_WORD:A]"]),
        text_lines(&["not noted", "[T_WORD:A:a]"]),
        &mut log,
    );
    assert_eq!(lang.word("A").unwrap().symbols, vec!["S"]);
    assert_eq!(
        log,
        vec![
            Anomaly::UnexpectedHeader("odd".to_string()),
            Anomaly::UnexpectedHeader("strange".to_string()),
        ]
    );
}

#[test]
fn same_seed_gives_the_same_names() {
    let lang = wide_language();
    let pool = strings(&["A", "B"]);
    let mut one = StdRng::seed_from_u64(99);
    let mut two = StdRng::seed_from_u64(99);
    for _ in 0..50 {
        assert_eq!(
            lang.name_from_pool(&pool, "DWARF", &mut one),
            lang.name_from_pool(&pool, "DWARF", &mut two)
        );
    }
}
