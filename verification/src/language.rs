//! A language: its dictionary and its symbols, and the names drawn from them.

use crate::anomaly::Anomaly;
use crate::dictionary::distinct_languages;
use crate::dictionary::distinct_roots;
use crate::dictionary::lookup;
use crate::dictionary::Dictionary;
use crate::files::add_symbols;
use crate::files::add_translation;
use crate::files::load_symbols;
use crate::files::load_translations;
use crate::files::load_words;
use crate::files::read_lang_file;
use crate::files::symbols_notes;
use crate::files::words_notes;
use crate::names::compose_name;
use crate::names::drawn_name;
use crate::names::forms_of_root;
use crate::names::lemma_item_at;
use crate::names::name_view;
use crate::names::pick_one;
use crate::names::translation_of_root;
use crate::names::Draws;
use crate::names::NameError;
use crate::pool::blacklist;
use crate::pool::dwarven_preset;
use crate::pool::name_pool;
use crate::pool::raw_pool;
use crate::pool::repeated;
use crate::pool::stays;
use crate::pool::NamePreset;
use crate::scanner::LineScanner;
use crate::symbols::distinct_names;
use crate::symbols::SymbolIndex;
use crate::symbols::SymbolView;
use crate::text::starts_with;
use crate::word::Word;
use crate::word::WordView;
use rand::rngs::StdRng;
use vstd::prelude::*;
use vstd::string::StringExecFns;

verus! {

/// What a `Language` holds.
pub struct LanguageView {
    pub words: Seq<WordView>,
    pub symbols: Seq<SymbolView>,
}

/// The language that three files describe: the words of the dictionary,
/// with the symbols that list them and their translations into `DWARF`, and
/// the index of the symbols.
pub open spec fn loaded(
    word_lines: Seq<Seq<char>>,
    symbol_lines: Seq<Seq<char>>,
    translation_lines: Seq<Seq<char>>,
) -> LanguageView {
    let read = load_symbols(symbol_lines, Seq::empty(), load_words(word_lines, Seq::empty()));
    LanguageView { words: load_translations(translation_lines, "DWARF"@, read.1), symbols: read.0 }
}

/// Whether `list` holds a string of the characters of `s`.
fn listed(list: &Vec<String>, s: &String) -> (b: bool)
    ensures
        b == list.deep_view().contains(s@),
{
    let mut i: usize = 0;
    while i < list.len()
        invariant
            i <= list.len(),
            forall|j: int| 0 <= j < i ==> list.deep_view()[j] != s@,
        decreases list.len() - i,
    {
        if list[i] == *s {
            proof {
                assert(list.deep_view()[i as int] == s@);
            }
            return true;
        }
        i += 1;
    }
    false
}

/// Adds copies of the strings of `more` at the end of `list`.
fn append_all(list: &mut Vec<String>, more: &Vec<String>)
    ensures
        final(list).deep_view() == old(list).deep_view() + more.deep_view(),
{
    let mut i: usize = 0;
    proof {
        assert(list.deep_view() =~= old(list).deep_view() + more.deep_view().take(0));
    }
    while i < more.len()
        invariant
            i <= more.len(),
            list.deep_view() == old(list).deep_view() + more.deep_view().take(i as int),
        decreases more.len() - i,
    {
        let ghost before = list.deep_view();
        list.push(more[i].clone());
        proof {
            assert(list.deep_view() =~= before.push(more.deep_view()[i as int]));
            assert(list.deep_view() =~= old(list).deep_view() + more.deep_view().take(i + 1));
        }
        i += 1;
    }
    proof {
        assert(more.deep_view().take(more.len() as int) =~= more.deep_view());
    }
}

/// The dictionary and the symbols of a language. Once made, it is only read.
#[derive(Debug)]
pub struct Language {
    words: Dictionary,
    symbol_index: SymbolIndex,
}

impl View for Language {
    type V = LanguageView;

    closed spec fn view(&self) -> LanguageView {
        LanguageView { words: self.words@, symbols: self.symbol_index@ }
    }
}

impl Language {
    #[verifier::type_invariant]
    spec fn inv(self) -> bool {
        self.words.wf() && self.symbol_index.wf()
    }

    /// A language of the given words and symbols.
    pub fn new(words: Dictionary, symbol_index: SymbolIndex) -> (lang: Language)
        requires
            words.wf(),
            symbol_index.wf(),
        ensures
            lang@ == (LanguageView { words: words@, symbols: symbol_index@ }),
            distinct_roots(lang@.words),
            distinct_languages(lang@.words),
            distinct_names(lang@.symbols),
    {
        Language { words, symbol_index }
    }

    /// The language that three files describe, given by their lines: a
    /// dictionary, the symbols, and the translations into `DWARF`. What is
    /// passed over in the dictionary and then in the symbols is noted in
    /// `log`.
    pub fn load(
        word_lines: Vec<String>,
        symbol_lines: Vec<String>,
        translation_lines: Vec<String>,
        log: &mut Vec<Anomaly>,
    ) -> (lang: Language)
        ensures
            lang@ == loaded(
                word_lines.deep_view(),
                symbol_lines.deep_view(),
                translation_lines.deep_view(),
            ),
            final(log).deep_view() == old(log).deep_view() + words_notes(word_lines.deep_view())
                + symbols_notes(symbol_lines.deep_view()),
            distinct_roots(lang@.words),
            distinct_languages(lang@.words),
            distinct_names(lang@.symbols),
    {
        let mut scanner = LineScanner::new(word_lines);
        let mut words = read_lang_file(&mut scanner, log);
        let mut scanner = LineScanner::new(symbol_lines);
        let symbol_index = add_symbols(&mut scanner, &mut words, log);
        let mut scanner = LineScanner::new(translation_lines);
        add_translation(&mut scanner, &mut words, String::from_str("DWARF"));
        Language { words, symbol_index }
    }

    /// The dictionary. No two of its words have the same root, and none of
    /// them has two translations into the same language.
    pub fn words(&self) -> (d: &Dictionary)
        ensures
            d@ == self@.words,
            d.wf(),
            distinct_roots(self@.words),
            distinct_languages(self@.words),
    {
        proof {
            use_type_invariant(self);
        }
        &self.words
    }

    /// The symbol index. No two of its symbols have the same name.
    pub fn symbols(&self) -> (index: &SymbolIndex)
        ensures
            index@ == self@.symbols,
            index.wf(),
            distinct_names(self@.symbols),
    {
        proof {
            use_type_invariant(self);
        }
        &self.symbol_index
    }

    /// The word of root `w`, if the dictionary has one.
    pub fn word(&self, w: &str) -> (r: Option<&Word>)
        ensures
            match r {
                Some(word) => lookup(self@.words, w@) == Some(word@),
                None => lookup(self@.words, w@) is None,
            },
    {
        self.words.get(w)
    }

    /// The raw pool and the blacklist of `preset`.
    fn raw_pool(&self, preset: &NamePreset) -> (r: (Vec<String>, Vec<String>))
        ensures
            r.0.deep_view() == raw_pool(self@.symbols, preset@),
            r.1.deep_view() == blacklist(self@.symbols, preset@),
    {
        let mut pool: Vec<String> = Vec::new();
        let mut black: Vec<String> = Vec::new();
        let ghost index = self@.symbols;
        let n: usize = self.symbol_index.len();
        let mut i: usize = 0;
        proof {
            assert(pool.deep_view() =~= raw_pool(index.take(0), preset@));
            assert(black.deep_view() =~= blacklist(index.take(0), preset@));
        }
        while i < n
            invariant
                i <= n == index.len(),
                index == self@.symbols,
                pool.deep_view() == raw_pool(index.take(i as int), preset@),
                black.deep_view() == blacklist(index.take(i as int), preset@),
            decreases n - i,
        {
            let e = self.symbol_index.entry(i);
            proof {
                let now = index.take(i + 1);
                assert(now.drop_last() =~= index.take(i as int));
                assert(now.last() == index[i as int]);
                reveal_with_fuel(repeated, 4);
                assert(repeated(e@.roots, 0) =~= Seq::<Seq<char>>::empty());
                assert(repeated(e@.roots, 1) =~= e@.roots);
                assert(repeated(e@.roots, 3) =~= e@.roots + e@.roots + e@.roots);
            }
            let ghost pool_before = pool.deep_view();
            let ghost black_before = black.deep_view();
            if starts_with(e.name.as_str(), "NAME_") {
                proof {
                    assert(pool_before + Seq::<Seq<char>>::empty() =~= pool_before);
                }
            } else if listed(&preset.exclude_symbols, &e.name) {
                append_all(&mut black, &e.roots);
                proof {
                    assert(pool_before + Seq::<Seq<char>>::empty() =~= pool_before);
                }
            } else {
                if listed(&preset.favor_symbols, &e.name) {
                    append_all(&mut pool, &e.roots);
                    append_all(&mut pool, &e.roots);
                }
                append_all(&mut pool, &e.roots);
                proof {
                    assert(pool_before + e@.roots + e@.roots + e@.roots =~= pool_before + (
                    e@.roots + e@.roots + e@.roots));
                }
            }
            i += 1;
        }
        proof {
            assert(index.take(n as int) =~= index);
        }
        (pool, black)
    }

    /// The roots that a name is drawn from under `preset`.
    pub fn name_pool(&self, preset: &NamePreset) -> (pool: Vec<String>)
        ensures
            pool.deep_view() == name_pool(self@, preset@),
    {
        let (raw, black) = self.raw_pool(preset);
        let ghost keep = stays(self@.words, black.deep_view());
        let mut pool: Vec<String> = Vec::new();
        let mut i: usize = 0;
        proof {
            reveal(Seq::filter);
            assert(pool.deep_view() =~= raw.deep_view().take(0).filter(keep));
        }
        while i < raw.len()
            invariant
                i <= raw.len(),
                keep == stays(self@.words, black.deep_view()),
                pool.deep_view() == raw.deep_view().take(i as int).filter(keep),
            decreases raw.len() - i,
        {
            let ghost before = pool.deep_view();
            let root = &raw[i];
            proof {
                reveal(Seq::filter);
                let now = raw.deep_view().take(i + 1);
                assert(now.drop_last() =~= raw.deep_view().take(i as int));
                assert(now.last() == root@);
            }
            let bar = listed(&black, root) || match self.words.get(root.as_str()) {
                Some(w) => w.prefix.is_some(),
                None => false,
            };
            if !bar {
                pool.push(root.clone());
                proof {
                    assert(pool.deep_view() =~= before.push(root@));
                }
            }
            i += 1;
        }
        proof {
            assert(raw.deep_view().take(raw.len() as int) =~= raw.deep_view());
        }
        pool
    }
}

impl Language {
    /// The translation into `language` of the word of root `root`.
    fn given_name(&self, root: &str, language: &str) -> (r: Option<&String>)
        ensures
            match r {
                Some(text) => translation_of_root(self@.words, root@, language@) == Some(text@),
                None => translation_of_root(self@.words, root@, language@) is None,
            },
    {
        match self.words.get(root) {
            Some(w) => w.translation(language),
            None => None,
        }
    }

    /// The surface forms of the word of root `root`.
    fn forms_for(&self, root: &str) -> (forms: Vec<String>)
        ensures
            forms.deep_view() == forms_of_root(self@.words, root@),
    {
        match self.words.get(root) {
            Some(w) => w.surface_forms(),
            None => {
                let forms: Vec<String> = Vec::new();
                proof {
                    assert(forms.deep_view() =~= Seq::<Seq<char>>::empty());
                }
                forms
            },
        }
    }

    /// The name that `draws` give from `pool`, or why there is none.
    pub fn name_from_draws(&self, pool: &Vec<String>, language: &str, draws: Draws) -> (r: Result<
        String,
        NameError,
    >)
        ensures
            name_view(r) == drawn_name(self@, pool.deep_view(), language@, draws),
    {
        let n: usize = pool.len();
        if n == 0 {
            return Err(NameError::EmptyPool);
        }
        let given = match self.given_name(pool[draws.given % n].as_str(), language) {
            Some(text) => text,
            None => {
                return Err(NameError::NoTranslation);
            },
        };
        let forms_1 = self.forms_for(pool[draws.surname_1 % n].as_str());
        let forms_2 = self.forms_for(pool[draws.surname_2 % n].as_str());
        if forms_1.len() == 0 || forms_2.len() == 0 {
            return Err(NameError::NoSurfaceForm);
        }
        let sur_1 = &forms_1[draws.form_1 % forms_1.len()];
        let sur_2 = &forms_2[draws.form_2 % forms_2.len()];
        Ok(compose_name(given.as_str(), sur_1.as_str(), sur_2.as_str()))
    }

    /// Three roots of `pool`, each drawn with `rng` on its own: one for the
    /// given name and two for the surname. An error where `pool` is empty.
    pub fn pick_name_words(pool: &Vec<String>, rng: &mut StdRng) -> (r: Result<
        (String, String, String),
        NameError,
    >)
        ensures
            match r {
                Ok((given, sur_1, sur_2)) => {
                    &&& pool.deep_view().contains(given@)
                    &&& pool.deep_view().contains(sur_1@)
                    &&& pool.deep_view().contains(sur_2@)
                },
                Err(e) => e == NameError::EmptyPool && pool.len() == 0,
            },
    {
        let given = match pick_one(pool, rng) {
            Some(root) => root,
            None => {
                return Err(NameError::EmptyPool);
            },
        };
        let sur_1 = match pick_one(pool, rng) {
            Some(root) => root,
            None => {
                return Err(NameError::EmptyPool);
            },
        };
        let sur_2 = match pick_one(pool, rng) {
            Some(root) => root,
            None => {
                return Err(NameError::EmptyPool);
            },
        };
        Ok((given, sur_1, sur_2))
    }

    /// A name drawn from `pool` with `rng`, or why there is none: what
    /// `name_from_draws` gives for some draws.
    pub fn name_from_pool(&self, pool: &Vec<String>, language: &str, rng: &mut StdRng) -> (r:
        Result<String, NameError>)
        ensures
            exists|draws: Draws|
                name_view(r) == #[trigger] drawn_name(self@, pool.deep_view(), language@, draws),
    {
        let ghost roots = pool.deep_view();
        let ghost zero = Draws { given: 0, surname_1: 0, surname_2: 0, form_1: 0, form_2: 0 };
        let (given_root, root_1, root_2) = match Self::pick_name_words(pool, rng) {
            Ok(picked) => picked,
            Err(e) => {
                proof {
                    assert(name_view(Err(e)) == drawn_name(self@, roots, language@, zero));
                }
                return Err(e);
            },
        };
        let ghost g = choose|i: int| 0 <= i < roots.len() && roots[i] == given_root@;
        let ghost s1 = choose|i: int| 0 <= i < roots.len() && roots[i] == root_1@;
        let ghost s2 = choose|i: int| 0 <= i < roots.len() && roots[i] == root_2@;
        proof {
            assert(roots.contains(given_root@) && roots.contains(root_1@) && roots.contains(
                root_2@,
            ));
            assert(roots.len() == pool.len());
            lemma_item_at(roots, g);
            lemma_item_at(roots, s1);
            lemma_item_at(roots, s2);
        }
        let ghost at_roots = Draws {
            given: g as usize,
            surname_1: s1 as usize,
            surname_2: s2 as usize,
            form_1: 0,
            form_2: 0,
        };
        let given = match self.given_name(given_root.as_str(), language) {
            Some(text) => text,
            None => {
                proof {
                    assert(name_view(Err(NameError::NoTranslation)) == drawn_name(
                        self@,
                        roots,
                        language@,
                        at_roots,
                    ));
                }
                return Err(NameError::NoTranslation);
            },
        };
        let forms_1 = self.forms_for(root_1.as_str());
        let forms_2 = self.forms_for(root_2.as_str());
        let sur_1 = match pick_one(&forms_1, rng) {
            Some(form) => form,
            None => {
                proof {
                    assert(name_view(Err(NameError::NoSurfaceForm)) == drawn_name(
                        self@,
                        roots,
                        language@,
                        at_roots,
                    ));
                }
                return Err(NameError::NoSurfaceForm);
            },
        };
        let sur_2 = match pick_one(&forms_2, rng) {
            Some(form) => form,
            None => {
                proof {
                    assert(name_view(Err(NameError::NoSurfaceForm)) == drawn_name(
                        self@,
                        roots,
                        language@,
                        at_roots,
                    ));
                }
                return Err(NameError::NoSurfaceForm);
            },
        };
        let name = compose_name(given.as_str(), sur_1.as_str(), sur_2.as_str());
        proof {
            let f1 = choose|i: int|
                0 <= i < forms_1.deep_view().len() && forms_1.deep_view()[i] == sur_1@;
            let f2 = choose|i: int|
                0 <= i < forms_2.deep_view().len() && forms_2.deep_view()[i] == sur_2@;
            assert(forms_1.deep_view().contains(sur_1@) && forms_2.deep_view().contains(sur_2@));
            assert(forms_1.deep_view().len() == forms_1.len());
            assert(forms_2.deep_view().len() == forms_2.len());
            lemma_item_at(forms_1.deep_view(), f1);
            lemma_item_at(forms_2.deep_view(), f2);
            let draws = Draws {
                given: g as usize,
                surname_1: s1 as usize,
                surname_2: s2 as usize,
                form_1: f1 as usize,
                form_2: f2 as usize,
            };
            assert(name_view(Ok(name)) == drawn_name(self@, roots, language@, draws));
        }
        Ok(name)
    }

    /// The name of a dwarf, drawn with `rng`, with the given name in
    /// `preset_lang`; or why there is none.
    pub fn npc_name(&self, preset_lang: &str, rng: &mut StdRng) -> (r: Result<String, NameError>)
        ensures
            exists|draws: Draws|
                name_view(r) == #[trigger] drawn_name(
                    self@,
                    name_pool(self@, dwarven_preset()),
                    preset_lang@,
                    draws,
                ),
    {
        let preset = NamePreset::dwarven();
        let pool = self.name_pool(&preset);
        self.name_from_pool(&pool, preset_lang, rng)
    }
}

} // verus!
