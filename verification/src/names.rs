//! Names: what is drawn for one, and how it is put together.

use crate::dictionary::lookup;
use crate::language::LanguageView;
use crate::trusted::char_to_uppercase;
use crate::trusted::choose_one;
use crate::trusted::lowercase_of;
use crate::trusted::str_to_lowercase;
use crate::trusted::uppercase_of;
use crate::word::Word;
use crate::word::WordView;
use rand::rngs::StdRng;
use vstd::arithmetic::div_mod::lemma_small_mod;
use vstd::prelude::*;
use vstd::string::StrSliceExecFns;
use vstd::string::StringExecFns;

verus! {

/// Why no name could be made.
#[derive(Debug, Clone, Copy, PartialEq, Eq)]
pub enum NameError {
    /// Nothing is left in the pool to draw from.
    EmptyPool,
    /// The root drawn for the given name has no translation into the
    /// language asked for.
    NoTranslation,
    /// A root drawn for the surname has no surface form.
    NoSurfaceForm,
}

/// The forms of a word that a surname can be made of: the singular of its
/// noun; the infinitive, the past tense and the two participles of its verb;
/// its adjective.
pub open spec fn surface_forms(w: WordView) -> Seq<Seq<char>> {
    (match w.noun {
        Some(n) => seq![n.singular],
        None => Seq::empty(),
    }) + (match w.verb {
        Some(v) => seq![v.infinitive, v.past_tense, v.past_participle, v.present_participle],
        None => Seq::empty(),
    }) + (match w.adj {
        Some(a) => seq![a.adj],
        None => Seq::empty(),
    })
}

/// The surface forms of the word of root `root`; none where there is no
/// such word.
pub open spec fn forms_of_root(ws: Seq<WordView>, root: Seq<char>) -> Seq<Seq<char>> {
    match lookup(ws, root) {
        Some(w) => surface_forms(w),
        None => Seq::empty(),
    }
}

/// The translation into `language` of the word of root `root`, if there is
/// such a word and it has one.
pub open spec fn translation_of_root(
    ws: Seq<WordView>,
    root: Seq<char>,
    language: Seq<char>,
) -> Option<Seq<char>> {
    match lookup(ws, root) {
        Some(w) => w.translation(language),
        None => None,
    }
}

/// `s` with its first character in upper case.
pub open spec fn capitalized(s: Seq<char>) -> Seq<char> {
    if s.len() == 0 {
        s
    } else {
        uppercase_of(s[0]) + s.skip(1)
    }
}

/// The name made of a given name and the two parts of a surname: the given
/// name capitalized, a space, and the two parts in lower case, joined, the
/// first of them capitalized.
pub open spec fn display_name(given: Seq<char>, sur_1: Seq<char>, sur_2: Seq<char>) -> Seq<char> {
    capitalized(given) + " "@ + capitalized(lowercase_of(sur_1)) + lowercase_of(sur_2)
}

/// `s` with its first character in upper case.
pub fn ucfirst(s: &str) -> (r: String)
    ensures
        r@ == capitalized(s@),
{
    if s.is_empty() {
        let r = String::new();
        proof {
            assert(r@ =~= s@);
        }
        r
    } else {
        let n = s.unicode_len();
        let first = s.get_char(0);
        char_to_uppercase(first).concat(s.substring_char(1, n))
    }
}

/// The name made of a given name and the two parts of a surname.
pub fn compose_name(given: &str, sur_1: &str, sur_2: &str) -> (r: String)
    ensures
        r@ == display_name(given@, sur_1@, sur_2@),
{
    let first = str_to_lowercase(sur_1);
    let second = str_to_lowercase(sur_2);
    let mut r = ucfirst(given);
    r.append(" ");
    r.append(ucfirst(first.as_str()).as_str());
    r.append(second.as_str());
    r
}

impl Word {
    /// The forms of the word that a surname can be made of.
    pub fn surface_forms(&self) -> (forms: Vec<String>)
        ensures
            forms.deep_view() == surface_forms(self@),
    {
        let mut forms: Vec<String> = Vec::new();
        match &self.noun {
            Some(noun) => {
                forms.push(noun.singular.clone());
            },
            None => {},
        }
        match &self.verb {
            Some(verb) => {
                forms.push(verb.infinitive.clone());
                forms.push(verb.past_tense.clone());
                forms.push(verb.past_participle.clone());
                forms.push(verb.present_participle.clone());
            },
            None => {},
        }
        match &self.adj {
            Some(adj) => {
                forms.push(adj.adj.clone());
            },
            None => {},
        }
        proof {
            assert(forms.deep_view() =~= surface_forms(self@));
        }
        forms
    }

    /// One of the surface forms of the word, drawn with `rng`; an error where
    /// it has none.
    pub fn pick_name(&self, rng: &mut StdRng) -> (r: Result<String, NameError>)
        ensures
            match r {
                Ok(form) => surface_forms(self@).contains(form@),
                Err(e) => e == NameError::NoSurfaceForm && surface_forms(self@).len() == 0,
            },
    {
        let forms = self.surface_forms();
        match pick_one(&forms, rng) {
            Some(form) => Ok(form),
            None => Err(NameError::NoSurfaceForm),
        }
    }
}

/// What is drawn for one name: a place in the pool for the given name and
/// for each part of the surname, and a place among the surface forms of each
/// part. A place past the end counts on from the start.
#[derive(Debug, Clone, Copy, PartialEq, Eq)]
pub struct Draws {
    pub given: usize,
    pub surname_1: usize,
    pub surname_2: usize,
    pub form_1: usize,
    pub form_2: usize,
}

/// The item of `s` at place `at`, counting on from the start past the end.
pub open spec fn item_at(s: Seq<Seq<char>>, at: usize) -> Seq<char> {
    s[(at as int) % (s.len() as int)]
}

/// A place within `s` is the place of its own item.
pub proof fn lemma_item_at(s: Seq<Seq<char>>, at: int)
    requires
        0 <= at < s.len() <= usize::MAX,
    ensures
        item_at(s, at as usize) == s[at],
{
    lemma_small_mod(at as nat, s.len());
}

/// The name that `draws` give from `pool`, or why there is none. The given
/// name is the translation into `language` of the root drawn for it; each
/// part of the surname is the surface form drawn of the root drawn for it.
pub open spec fn drawn_name(
    lang: LanguageView,
    pool: Seq<Seq<char>>,
    language: Seq<char>,
    draws: Draws,
) -> Result<Seq<char>, NameError> {
    if pool.len() == 0 {
        Err(NameError::EmptyPool)
    } else {
        match translation_of_root(lang.words, item_at(pool, draws.given), language) {
            None => Err(NameError::NoTranslation),
            Some(given) => {
                let forms_1 = forms_of_root(lang.words, item_at(pool, draws.surname_1));
                let forms_2 = forms_of_root(lang.words, item_at(pool, draws.surname_2));
                if forms_1.len() == 0 || forms_2.len() == 0 {
                    Err(NameError::NoSurfaceForm)
                } else {
                    Ok(
                        display_name(
                            given,
                            item_at(forms_1, draws.form_1),
                            item_at(forms_2, draws.form_2),
                        ),
                    )
                }
            },
        }
    }
}

/// The characters of a name, or the error in its place.
pub open spec fn name_view(r: Result<String, NameError>) -> Result<Seq<char>, NameError> {
    match r {
        Ok(name) => Ok(name@),
        Err(e) => Err(e),
    }
}

/// One of `items`, drawn with `rng`; `None` where there is none.
pub(crate) fn pick_one(items: &Vec<String>, rng: &mut StdRng) -> (r: Option<String>)
    ensures
        match r {
            Some(item) => items.deep_view().contains(item@),
            None => items.len() == 0,
        },
{
    match choose_one(items, rng) {
        Some(item) => {
            proof {
                let i = choose|i: int| 0 <= i < items@.len() && items@[i] == *item;
                assert(items.deep_view()[i] == item@);
            }
            Some(item.clone())
        },
        None => None,
    }
}

} // verus!
