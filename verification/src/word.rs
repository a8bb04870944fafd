//! Word records: a root, its grammatical roles, translations and symbols.

use crate::runs::leading;
use crate::runs::lemma_leading_agree;
use crate::runs::lemma_leading_is;
use crate::runs::lemma_leading_push;
use crate::runs::lemma_leading_run;
use crate::text::str_eq;
use crate::usage::Usage;
use vstd::prelude::*;
use vstd::string::StringExecFns;

verus! {

/// Why a form could not be made into a grammatical record.
#[derive(Debug, Clone, Copy, PartialEq, Eq)]
pub enum ParseError {
    /// The form lists fewer surface forms than its type needs.
    MissingForms { required: usize, found: usize },
    /// The form line has no field, and so no type.
    MissingType,
}

/// One form line of a dictionary block, with the usage lines under it.
#[derive(Debug, PartialEq, Eq)]
pub struct WordForm {
    pub form_type: String,
    pub forms: Vec<String>,
    pub usages: Vec<Usage>,
}

/// What a `WordForm` holds.
pub struct WordFormView {
    pub form_type: Seq<char>,
    pub forms: Seq<Seq<char>>,
    pub usages: Seq<Usage>,
}

impl View for WordForm {
    type V = WordFormView;

    open spec fn view(&self) -> WordFormView {
        WordFormView {
            form_type: self.form_type@,
            forms: self.forms.deep_view(),
            usages: self.usages@,
        }
    }
}

/// A noun: its singular and plural, and where it may be used.
#[derive(Debug, PartialEq, Eq)]
pub struct Noun {
    pub singular: String,
    pub plural: String,
    pub usages: Vec<Usage>,
}

/// What a `Noun` holds.
pub struct NounView {
    pub singular: Seq<char>,
    pub plural: Seq<char>,
    pub usages: Seq<Usage>,
}

impl View for Noun {
    type V = NounView;

    open spec fn view(&self) -> NounView {
        NounView { singular: self.singular@, plural: self.plural@, usages: self.usages@ }
    }
}

/// A verb: its five forms, and where it may be used.
#[derive(Debug, PartialEq, Eq)]
pub struct Verb {
    pub infinitive: String,
    pub third_person_sing: String,
    pub past_tense: String,
    pub past_participle: String,
    pub present_participle: String,
    pub usages: Vec<Usage>,
}

/// What a `Verb` holds.
pub struct VerbView {
    pub infinitive: Seq<char>,
    pub third_person_sing: Seq<char>,
    pub past_tense: Seq<char>,
    pub past_participle: Seq<char>,
    pub present_participle: Seq<char>,
    pub usages: Seq<Usage>,
}

impl View for Verb {
    type V = VerbView;

    open spec fn view(&self) -> VerbView {
        VerbView {
            infinitive: self.infinitive@,
            third_person_sing: self.third_person_sing@,
            past_tense: self.past_tense@,
            past_participle: self.past_participle@,
            present_participle: self.present_participle@,
            usages: self.usages@,
        }
    }
}

/// An adjective: its form, and where it may be used.
#[derive(Debug, PartialEq, Eq)]
pub struct Adjective {
    pub adj: String,
    pub usages: Vec<Usage>,
}

/// What an `Adjective` holds.
pub struct AdjectiveView {
    pub adj: Seq<char>,
    pub usages: Seq<Usage>,
}

impl View for Adjective {
    type V = AdjectiveView;

    open spec fn view(&self) -> AdjectiveView {
        AdjectiveView { adj: self.adj@, usages: self.usages@ }
    }
}

/// A prefix: its form, and where it may be used.
#[derive(Debug, PartialEq, Eq)]
pub struct Prefix {
    pub prefix: String,
    pub usages: Vec<Usage>,
}

/// What a `Prefix` holds.
pub struct PrefixView {
    pub prefix: Seq<char>,
    pub usages: Seq<Usage>,
}

impl View for Prefix {
    type V = PrefixView;

    open spec fn view(&self) -> PrefixView {
        PrefixView { prefix: self.prefix@, usages: self.usages@ }
    }
}

/// The plural of a noun whose form names none.
pub open spec fn no_plural() -> Seq<char> {
    "ERR_NO_PLURAL"@
}

/// The noun that a form describes: the first surface form is the singular,
/// the second the plural. A missing plural is `no_plural()`; a missing
/// singular is an error.
pub open spec fn noun_of(f: WordFormView) -> Result<NounView, ParseError> {
    if f.forms.len() >= 1 {
        Ok(
            NounView {
                singular: f.forms[0],
                plural: if f.forms.len() >= 2 {
                    f.forms[1]
                } else {
                    no_plural()
                },
                usages: f.usages,
            },
        )
    } else {
        Err(ParseError::MissingForms { required: 1, found: 0 })
    }
}

/// The verb that a form describes: infinitive, third person singular, past
/// tense, past participle and present participle, in this order. Fewer than
/// five surface forms are an error.
pub open spec fn verb_of(f: WordFormView) -> Result<VerbView, ParseError> {
    if f.forms.len() >= 5 {
        Ok(
            VerbView {
                infinitive: f.forms[0],
                third_person_sing: f.forms[1],
                past_tense: f.forms[2],
                past_participle: f.forms[3],
                present_participle: f.forms[4],
                usages: f.usages,
            },
        )
    } else {
        Err(ParseError::MissingForms { required: 5, found: f.forms.len() as usize })
    }
}

/// The adjective that a form describes: its first surface form.
pub open spec fn adjective_of(f: WordFormView) -> Result<AdjectiveView, ParseError> {
    if f.forms.len() >= 1 {
        Ok(AdjectiveView { adj: f.forms[0], usages: f.usages })
    } else {
        Err(ParseError::MissingForms { required: 1, found: 0 })
    }
}

/// The prefix that a form describes: its first surface form.
pub open spec fn prefix_of(f: WordFormView) -> Result<PrefixView, ParseError> {
    if f.forms.len() >= 1 {
        Ok(PrefixView { prefix: f.forms[0], usages: f.usages })
    } else {
        Err(ParseError::MissingForms { required: 1, found: 0 })
    }
}

impl Noun {
    /// The noun that `form` describes.
    pub fn from_form(form: WordForm) -> (r: Result<Noun, ParseError>)
        ensures
            match r {
                Ok(n) => noun_of(form@) == Ok::<NounView, ParseError>(n@),
                Err(e) => noun_of(form@) == Err::<NounView, ParseError>(e),
            },
            form.forms.len() == 1 ==> r is Ok && r->Ok_0.plural@ == no_plural(),
    {
        if form.forms.len() < 1 {
            return Err(ParseError::MissingForms { required: 1, found: 0 });
        }
        let singular = form.forms[0].clone();
        let plural = if form.forms.len() >= 2 {
            form.forms[1].clone()
        } else {
            String::from_str("ERR_NO_PLURAL")
        };
        Ok(Noun { singular, plural, usages: form.usages })
    }
}

impl Verb {
    /// The verb that `form` describes.
    pub fn from_form(form: WordForm) -> (r: Result<Verb, ParseError>)
        ensures
            match r {
                Ok(v) => verb_of(form@) == Ok::<VerbView, ParseError>(v@),
                Err(e) => verb_of(form@) == Err::<VerbView, ParseError>(e),
            },
    {
        if form.forms.len() < 5 {
            return Err(ParseError::MissingForms { required: 5, found: form.forms.len() });
        }
        let infinitive = form.forms[0].clone();
        let third_person_sing = form.forms[1].clone();
        let past_tense = form.forms[2].clone();
        let past_participle = form.forms[3].clone();
        let present_participle = form.forms[4].clone();
        Ok(
            Verb {
                infinitive,
                third_person_sing,
                past_tense,
                past_participle,
                present_participle,
                usages: form.usages,
            },
        )
    }
}

impl Adjective {
    /// The adjective that `form` describes.
    pub fn from_form(form: WordForm) -> (r: Result<Adjective, ParseError>)
        ensures
            match r {
                Ok(a) => adjective_of(form@) == Ok::<AdjectiveView, ParseError>(a@),
                Err(e) => adjective_of(form@) == Err::<AdjectiveView, ParseError>(e),
            },
    {
        if form.forms.len() < 1 {
            return Err(ParseError::MissingForms { required: 1, found: 0 });
        }
        let adj = form.forms[0].clone();
        Ok(Adjective { adj, usages: form.usages })
    }
}

impl Prefix {
    /// The prefix that `form` describes.
    pub fn from_form(form: WordForm) -> (r: Result<Prefix, ParseError>)
        ensures
            match r {
                Ok(p) => prefix_of(form@) == Ok::<PrefixView, ParseError>(p@),
                Err(e) => prefix_of(form@) == Err::<PrefixView, ParseError>(e),
            },
    {
        if form.forms.len() < 1 {
            return Err(ParseError::MissingForms { required: 1, found: 0 });
        }
        let prefix = form.forms[0].clone();
        Ok(Prefix { prefix, usages: form.usages })
    }
}

impl DeepView for Noun {
    type V = NounView;

    open spec fn deep_view(&self) -> NounView {
        self@
    }
}

impl DeepView for Verb {
    type V = VerbView;

    open spec fn deep_view(&self) -> VerbView {
        self@
    }
}

impl DeepView for Adjective {
    type V = AdjectiveView;

    open spec fn deep_view(&self) -> AdjectiveView {
        self@
    }
}

impl DeepView for Prefix {
    type V = PrefixView;

    open spec fn deep_view(&self) -> PrefixView {
        self@
    }
}

/// The text of a word in one language.
#[derive(Debug, PartialEq, Eq)]
pub struct Translation {
    pub language: String,
    pub text: String,
}

/// What a `Translation` holds.
pub struct TranslationView {
    pub language: Seq<char>,
    pub text: Seq<char>,
}

impl View for Translation {
    type V = TranslationView;

    open spec fn view(&self) -> TranslationView {
        TranslationView { language: self.language@, text: self.text@ }
    }
}

impl DeepView for Translation {
    type V = TranslationView;

    open spec fn deep_view(&self) -> TranslationView {
        self@
    }
}

/// A word of the dictionary: its root, the grammatical roles it can take
/// (any of them, or none), its translations and the symbols that list it.
#[derive(Debug, PartialEq, Eq)]
pub struct Word {
    pub root: String,
    pub noun: Option<Noun>,
    pub verb: Option<Verb>,
    pub adj: Option<Adjective>,
    pub prefix: Option<Prefix>,
    pub translations: Vec<Translation>,
    pub symbols: Vec<String>,
}

/// What a `Word` holds.
pub struct WordView {
    pub root: Seq<char>,
    pub noun: Option<NounView>,
    pub verb: Option<VerbView>,
    pub adj: Option<AdjectiveView>,
    pub prefix: Option<PrefixView>,
    pub translations: Seq<TranslationView>,
    pub symbols: Seq<Seq<char>>,
}

impl View for Word {
    type V = WordView;

    open spec fn view(&self) -> WordView {
        WordView {
            root: self.root@,
            noun: self.noun.deep_view(),
            verb: self.verb.deep_view(),
            adj: self.adj.deep_view(),
            prefix: self.prefix.deep_view(),
            translations: self.translations.deep_view(),
            symbols: self.symbols.deep_view(),
        }
    }
}

impl DeepView for Word {
    type V = WordView;

    open spec fn deep_view(&self) -> WordView {
        self@
    }
}

/// The predicate "has another language than `language`".
pub open spec fn other_language(language: Seq<char>) -> spec_fn(TranslationView) -> bool {
    |t: TranslationView| t.language != language
}

impl WordView {
    /// The word of root `root` with no role, no translation and no symbol.
    pub open spec fn blank(root: Seq<char>) -> WordView {
        WordView {
            root,
            noun: None,
            verb: None,
            adj: None,
            prefix: None,
            translations: Seq::empty(),
            symbols: Seq::empty(),
        }
    }

    /// The word after form `f` is entered: a form of type `NOUN`, `VERB`,
    /// `ADJ` or `PREFIX` that lists enough surface forms takes the place of
    /// the role of its type; any other form leaves the word as it is.
    pub open spec fn with_form(self, f: WordFormView) -> WordView {
        if f.form_type == "NOUN"@ {
            match noun_of(f) {
                Ok(n) => WordView { noun: Some(n), ..self },
                Err(_) => self,
            }
        } else if f.form_type == "VERB"@ {
            match verb_of(f) {
                Ok(v) => WordView { verb: Some(v), ..self },
                Err(_) => self,
            }
        } else if f.form_type == "ADJ"@ {
            match adjective_of(f) {
                Ok(a) => WordView { adj: Some(a), ..self },
                Err(_) => self,
            }
        } else if f.form_type == "PREFIX"@ {
            match prefix_of(f) {
                Ok(p) => WordView { prefix: Some(p), ..self },
                Err(_) => self,
            }
        } else {
            self
        }
    }

    /// The place of the translation into `language`, or the number of
    /// translations if there is none.
    pub open spec fn translation_index(self, language: Seq<char>) -> nat {
        leading(self.translations, other_language(language))
    }

    /// The text of the word in `language`, if it has one.
    pub open spec fn translation(self, language: Seq<char>) -> Option<Seq<char>> {
        if self.translation_index(language) < self.translations.len() {
            Some(self.translations[self.translation_index(language) as int].text)
        } else {
            None
        }
    }

    /// The word with `text` as its translation into `language`, in the place
    /// of the translation it had, or as a new one.
    pub open spec fn with_translation(self, language: Seq<char>, text: Seq<char>) -> WordView {
        let t = TranslationView { language, text };
        if self.translation_index(language) < self.translations.len() {
            WordView {
                translations: self.translations.update(
                    self.translation_index(language) as int,
                    t,
                ),
                ..self
            }
        } else {
            WordView { translations: self.translations.push(t), ..self }
        }
    }

    /// The word with `symbol` added at the end of its symbols.
    pub open spec fn with_symbol(self, symbol: Seq<char>) -> WordView {
        WordView { symbols: self.symbols.push(symbol), ..self }
    }

    /// Whether no two translations are into the same language.
    pub open spec fn distinct_languages(self) -> bool {
        forall|i: int, j: int|
            0 <= i < j < self.translations.len() ==> (#[trigger] self.translations[i]).language != (
            #[trigger] self.translations[j]).language
    }
}

/// Why form `f` cannot be entered into a word, if it cannot: a form of type
/// `NOUN`, `VERB`, `ADJ` or `PREFIX` that lists too few surface forms, or a
/// form without a type. A form of any other type is passed over without
/// error.
pub open spec fn entry_error(f: WordFormView) -> Option<ParseError> {
    if f.form_type == "NOUN"@ {
        match noun_of(f) {
            Ok(_) => None,
            Err(e) => Some(e),
        }
    } else if f.form_type == "VERB"@ {
        match verb_of(f) {
            Ok(_) => None,
            Err(e) => Some(e),
        }
    } else if f.form_type == "ADJ"@ {
        match adjective_of(f) {
            Ok(_) => None,
            Err(e) => Some(e),
        }
    } else if f.form_type == "PREFIX"@ {
        match prefix_of(f) {
            Ok(_) => None,
            Err(e) => Some(e),
        }
    } else if f.form_type.len() == 0 {
        Some(ParseError::MissingType)
    } else {
        None
    }
}

impl Word {
    /// A word of root `root` with no role, no translation and no symbol.
    pub fn new(root: String) -> (w: Word)
        ensures
            w@ == WordView::blank(root@),
    {
        let w = Word {
            root,
            noun: None,
            verb: None,
            adj: None,
            prefix: None,
            translations: Vec::new(),
            symbols: Vec::new(),
        };
        proof {
            assert(w.translations.deep_view() =~= Seq::<TranslationView>::empty());
            assert(w.symbols.deep_view() =~= Seq::<Seq<char>>::empty());
        }
        w
    }

    /// Enters `form` into the word: see `WordView::with_form`. Where the form
    /// cannot be entered, the word stays as it is and the result says why:
    /// see `entry_error`.
    pub fn enter(&mut self, form: WordForm) -> (r: Result<(), ParseError>)
        ensures
            final(self)@ == old(self)@.with_form(form@),
            match r {
                Ok(_) => entry_error(form@) is None,
                Err(e) => entry_error(form@) == Some(e),
            },
    {
        if str_eq(form.form_type.as_str(), "NOUN") {
            match Noun::from_form(form) {
                Ok(n) => {
                    self.noun = Some(n);
                    Ok(())
                },
                Err(e) => Err(e),
            }
        } else if str_eq(form.form_type.as_str(), "VERB") {
            match Verb::from_form(form) {
                Ok(v) => {
                    self.verb = Some(v);
                    Ok(())
                },
                Err(e) => Err(e),
            }
        } else if str_eq(form.form_type.as_str(), "ADJ") {
            match Adjective::from_form(form) {
                Ok(a) => {
                    self.adj = Some(a);
                    Ok(())
                },
                Err(e) => Err(e),
            }
        } else if str_eq(form.form_type.as_str(), "PREFIX") {
            match Prefix::from_form(form) {
                Ok(p) => {
                    self.prefix = Some(p);
                    Ok(())
                },
                Err(e) => Err(e),
            }
        } else if form.form_type.as_str().is_empty() {
            Err(ParseError::MissingType)
        } else {
            Ok(())
        }
    }


    /// The text of the word in `language`, if it has one.
    pub fn translation(&self, language: &str) -> (r: Option<&String>)
        ensures
            match r {
                Some(text) => self@.translation(language@) == Some(text@),
                None => self@.translation(language@) is None,
            },
    {
        let key = String::from_str(language);
        let mut i: usize = 0;
        while i < self.translations.len()
            invariant
                i <= self.translations.len(),
                key@ == language@,
                forall|j: int| 0 <= j < i ==> self.translations[j].language@ != language@,
            decreases self.translations.len() - i,
        {
            if self.translations[i].language == key {
                proof {
                    let ts = self@.translations;
                    assert forall|j: int| 0 <= j < i implies (other_language(language@))(
                        #[trigger] ts[j],
                    ) by {
                        assert(ts[j].language == self.translations[j].language@);
                    }
                    lemma_leading_is(ts, other_language(language@), i as int);
                }
                return Some(&self.translations[i].text);
            }
            i += 1;
        }
        proof {
            let ts = self@.translations;
            assert forall|j: int| 0 <= j < i implies (other_language(language@))(
                #[trigger] ts[j],
            ) by {
                assert(ts[j].language == self.translations[j].language@);
            }
            lemma_leading_is(ts, other_language(language@), i as int);
        }
        None
    }

    /// Makes `text` the translation of the word into `language`.
    pub fn set_translation(&mut self, language: String, text: String)
        ensures
            final(self)@ == old(self)@.with_translation(language@, text@),
    {
        let ghost before = self@;
        let mut i: usize = 0;
        while i < self.translations.len()
            invariant
                i <= self.translations.len(),
                self@ == before,
                before == old(self)@,
                forall|j: int| 0 <= j < i ==> self.translations[j].language@ != language@,
            decreases self.translations.len() - i,
        {
            if self.translations[i].language == language {
                proof {
                    let ts = before.translations;
                    assert forall|j: int| 0 <= j < i implies (other_language(language@))(
                        #[trigger] ts[j],
                    ) by {
                        assert(ts[j].language == self.translations[j].language@);
                    }
                    lemma_leading_is(ts, other_language(language@), i as int);
                }
                self.translations[i] = Translation { language, text };
                proof {
                    assert(self.translations.deep_view() =~= before.translations.update(
                        i as int,
                        TranslationView { language: language@, text: text@ },
                    ));
                }
                return;
            }
            i += 1;
        }
        proof {
            let ts = before.translations;
            assert forall|j: int| 0 <= j < i implies (other_language(language@))(
                #[trigger] ts[j],
            ) by {
                assert(ts[j].language == self.translations[j].language@);
            }
            lemma_leading_is(ts, other_language(language@), i as int);
        }
        self.translations.push(Translation { language, text });
        proof {
            assert(self.translations.deep_view() =~= before.translations.push(
                TranslationView { language: language@, text: text@ },
            ));
        }
    }

    /// The word as text: its root.
    pub fn to_string(&self) -> (r: String)
        ensures
            r@ == self@.root,
    {
        self.root.clone()
    }

    /// Adds `symbol` at the end of the word's symbols.
    pub fn add_symbol(&mut self, symbol: String)
        ensures
            final(self)@ == old(self)@.with_symbol(symbol@),
    {
        let ghost before = self@;
        self.symbols.push(symbol);
        proof {
            assert(self.symbols.deep_view() =~= before.symbols.push(symbol@));
        }
    }
}

impl WordView {
    /// After a translation into `language` is set, the word has that text in
    /// `language` and the texts it had in every other language.
    pub proof fn lemma_translation_set(self, language: Seq<char>, text: Seq<char>, other: Seq<char>)
        ensures
            self.with_translation(language, text).translation(other) == if other == language {
                Some(text)
            } else {
                self.translation(other)
            },
    {
        let p = other_language(other);
        let ts = self.translations;
        let t = TranslationView { language, text };
        let at = self.translation_index(language) as int;
        lemma_leading_run(ts, other_language(language));
        lemma_leading_run(ts, p);
        if at < ts.len() {
            let after = ts.update(at, t);
            assert forall|j: int| 0 <= j < ts.len() implies p(#[trigger] ts[j]) == p(after[j]) by {
                if j == at {
                    assert(ts[at].language == language);
                }
            }
            lemma_leading_agree(ts, after, p);
        } else {
            lemma_leading_push(ts, p, t);
            if other == language {
                assert(self.translation_index(other) == ts.len());
            }
        }
    }

    /// Setting a translation keeps the languages distinct.
    pub proof fn lemma_translation_distinct(self, language: Seq<char>, text: Seq<char>)
        requires
            self.distinct_languages(),
        ensures
            self.with_translation(language, text).distinct_languages(),
    {
        let ts = self.translations;
        let at = self.translation_index(language) as int;
        let after = self.with_translation(language, text).translations;
        lemma_leading_run(ts, other_language(language));
        if at < ts.len() {
            assert forall|a: int, b: int| 0 <= a < b < after.len() implies (
            #[trigger] after[a]).language != (#[trigger] after[b]).language by {
                assert(ts[at].language == language);
                assert(ts[a].language != ts[b].language);
            }
        } else {
            assert forall|a: int, b: int| 0 <= a < b < after.len() implies (
            #[trigger] after[a]).language != (#[trigger] after[b]).language by {
                if b < ts.len() {
                    assert(ts[a].language != ts[b].language);
                } else {
                    assert((other_language(language))(ts[a]));
                }
            }
        }
    }
}

} // verus!
