//! The dictionary: the words of a language, each found by its root.

use crate::runs::leading;
use crate::runs::lemma_leading_agree;
use crate::runs::lemma_leading_is;
use crate::runs::lemma_leading_push;
use crate::runs::lemma_leading_run;
use crate::word::Word;
use crate::word::WordView;
use vstd::prelude::*;
use vstd::string::StringExecFns;

verus! {

/// The predicate "has another root than `root`".
pub open spec fn other_root(root: Seq<char>) -> spec_fn(WordView) -> bool {
    |w: WordView| w.root != root
}

/// The place of the word of root `root` in `ws`, or the length of `ws` if
/// there is none.
pub open spec fn position(ws: Seq<WordView>, root: Seq<char>) -> nat {
    leading(ws, other_root(root))
}

/// The word of root `root` in `ws`, if there is one.
pub open spec fn lookup(ws: Seq<WordView>, root: Seq<char>) -> Option<WordView> {
    if position(ws, root) < ws.len() {
        Some(ws[position(ws, root) as int])
    } else {
        None
    }
}

/// `ws` with `w` in the place of the word of the same root, or as a new word.
pub open spec fn put(ws: Seq<WordView>, w: WordView) -> Seq<WordView> {
    if position(ws, w.root) < ws.len() {
        ws.update(position(ws, w.root) as int, w)
    } else {
        ws.push(w)
    }
}

/// `ws` with `symbol` added to the word of root `root`; `ws` itself where
/// there is no such word.
pub open spec fn tag_one(ws: Seq<WordView>, root: Seq<char>, symbol: Seq<char>) -> Seq<WordView> {
    if position(ws, root) < ws.len() {
        ws.update(position(ws, root) as int, ws[position(ws, root) as int].with_symbol(symbol))
    } else {
        ws
    }
}

/// `ws` with `text` as the translation into `language` of the word of root
/// `root`; `ws` itself where there is no such word.
pub open spec fn translate_one(
    ws: Seq<WordView>,
    root: Seq<char>,
    language: Seq<char>,
    text: Seq<char>,
) -> Seq<WordView> {
    if position(ws, root) < ws.len() {
        ws.update(
            position(ws, root) as int,
            ws[position(ws, root) as int].with_translation(language, text),
        )
    } else {
        ws
    }
}

/// Whether no two words of `ws` have the same root.
pub open spec fn distinct_roots(ws: Seq<WordView>) -> bool {
    forall|i: int, j: int|
        0 <= i < j < ws.len() ==> (#[trigger] ws[i]).root != (#[trigger] ws[j]).root
}

/// Whether no word of `ws` has two translations into the same language.
pub open spec fn distinct_languages(ws: Seq<WordView>) -> bool {
    forall|i: int| 0 <= i < ws.len() ==> (#[trigger] ws[i]).distinct_languages()
}

/// The words of a language. No two of them have the same root, and none of
/// them has two translations into the same language.
#[derive(Debug)]
pub struct Dictionary {
    words: Vec<Word>,
}

impl View for Dictionary {
    type V = Seq<WordView>;

    closed spec fn view(&self) -> Seq<WordView> {
        self.words.deep_view()
    }
}

impl Dictionary {
    /// The invariant of the type: no two words have the same root, and no
    /// word has two translations into the same language.
    pub open spec fn wf(&self) -> bool {
        distinct_roots(self@) && distinct_languages(self@)
    }

    /// A dictionary without words.
    pub fn new() -> (d: Dictionary)
        ensures
            d.wf(),
            d@ == Seq::<WordView>::empty(),
    {
        let d = Dictionary { words: Vec::new() };
        proof {
            assert(d@ =~= Seq::<WordView>::empty());
        }
        d
    }

    /// The number of words.
    pub fn len(&self) -> (n: usize)
        ensures
            n == self@.len(),
    {
        self.words.len()
    }

    /// The place of the word of root `root`, if there is one.
    fn find(&self, root: &str) -> (r: Option<usize>)
        ensures
            match r {
                Some(i) => i == position(self@, root@) && i < self.words.len(),
                None => position(self@, root@) == self.words.len(),
            },
            self@.len() == self.words.len(),
    {
        let key = String::from_str(root);
        let mut i: usize = 0;
        while i < self.words.len()
            invariant
                i <= self.words.len(),
                key@ == root@,
                forall|j: int| 0 <= j < i ==> self.words[j].root@ != root@,
            decreases self.words.len() - i,
        {
            if self.words[i].root == key {
                proof {
                    assert forall|j: int| 0 <= j < i implies (other_root(root@))(
                        #[trigger] self@[j],
                    ) by {
                        assert(self@[j].root == self.words[j].root@);
                    }
                    lemma_leading_is(self@, other_root(root@), i as int);
                }
                return Some(i);
            }
            i += 1;
        }
        proof {
            assert forall|j: int| 0 <= j < i implies (other_root(root@))(#[trigger] self@[j]) by {
                assert(self@[j].root == self.words[j].root@);
            }
            lemma_leading_is(self@, other_root(root@), i as int);
        }
        None
    }

    /// The word of root `root`, if there is one.
    pub fn get(&self, root: &str) -> (r: Option<&Word>)
        ensures
            match r {
                Some(w) => lookup(self@, root@) == Some(w@),
                None => lookup(self@, root@) is None,
            },
    {
        match self.find(root) {
            Some(i) => Some(&self.words[i]),
            None => None,
        }
    }

    /// Enters `word`, in the place of the word of the same root if there is one.
    pub fn insert(&mut self, word: Word)
        requires
            old(self).wf(),
            word@.distinct_languages(),
        ensures
            final(self).wf(),
            final(self)@ == put(old(self)@, word@),
    {
        let ghost before = self@;
        let ghost w = word@;
        proof {
            lemma_put_distinct(before, w);
        }
        match self.find(word.root.as_str()) {
            Some(i) => {
                self.words[i] = word;
                proof {
                    assert(self@ =~= before.update(i as int, w));
                }
            },
            None => {
                self.words.push(word);
                proof {
                    assert(self@ =~= before.push(w));
                }
            },
        }
    }

    /// Adds `symbol` to the symbols of the word of root `root`, if there is one.
    pub fn tag(&mut self, root: &str, symbol: &str)
        requires
            old(self).wf(),
        ensures
            final(self).wf(),
            final(self)@ == tag_one(old(self)@, root@, symbol@),
    {
        let ghost before = self@;
        match self.find(root) {
            Some(i) => {
                self.words[i].add_symbol(String::from_str(symbol));
                proof {
                    assert(self@ =~= before.update(
                        i as int,
                        before[i as int].with_symbol(symbol@),
                    ));
                }
            },
            None => {},
        }
    }

    /// Makes `text` the translation into `language` of the word of root
    /// `root`, if there is one.
    pub fn translate(&mut self, root: &str, language: &str, text: String)
        requires
            old(self).wf(),
        ensures
            final(self).wf(),
            final(self)@ == translate_one(old(self)@, root@, language@, text@),
    {
        let ghost before = self@;
        proof {
            lemma_leading_run(before, other_root(root@));
            if position(before, root@) < before.len() {
                before[position(before, root@) as int].lemma_translation_distinct(language@, text@);
            }
        }
        match self.find(root) {
            Some(i) => {
                self.words[i].set_translation(String::from_str(language), text);
                proof {
                    assert(self@ =~= before.update(
                        i as int,
                        before[i as int].with_translation(language@, text@),
                    ));
                }
            },
            None => {},
        }
    }
}

/// Entering a word keeps the roots distinct.
pub proof fn lemma_put_distinct(ws: Seq<WordView>, w: WordView)
    requires
        distinct_roots(ws),
    ensures
        distinct_roots(put(ws, w)),
{
    lemma_leading_run(ws, other_root(w.root));
    let i = position(ws, w.root) as int;
    let after = put(ws, w);
    if i < ws.len() {
        assert forall|a: int, b: int| 0 <= a < b < after.len() implies (#[trigger] after[a]).root
            != (#[trigger] after[b]).root by {
            assert(ws[i].root == w.root);
            assert(ws[a].root != ws[b].root);
        }
    } else {
        assert forall|a: int, b: int| 0 <= a < b < after.len() implies (#[trigger] after[a]).root
            != (#[trigger] after[b]).root by {
            if b < ws.len() {
                assert(ws[a].root != ws[b].root);
            } else {
                assert((other_root(w.root))(ws[a]));
            }
        }
    }
}

/// After `w` is entered, a lookup by its root finds it, and a lookup by any
/// other root finds what it found before.
pub proof fn lemma_lookup_put(ws: Seq<WordView>, w: WordView, root: Seq<char>)
    ensures
        lookup(put(ws, w), root) == if root == w.root {
            Some(w)
        } else {
            lookup(ws, root)
        },
{
    let p = other_root(root);
    let at = position(ws, w.root) as int;
    lemma_leading_run(ws, other_root(w.root));
    lemma_leading_run(ws, p);
    if at < ws.len() {
        let after = ws.update(at, w);
        assert forall|j: int| 0 <= j < ws.len() implies p(#[trigger] ws[j]) == p(after[j]) by {
            if j == at {
                assert(ws[at].root == w.root);
            }
        }
        lemma_leading_agree(ws, after, p);
    } else {
        lemma_leading_push(ws, p, w);
        if root == w.root {
            assert(position(ws, root) == ws.len());
        }
    }
}

/// Adding a symbol to a word changes no root: a lookup by the word's root
/// finds the word with the symbol added, and a lookup by any other root
/// finds what it found before.
pub proof fn lemma_lookup_tag_one(
    ws: Seq<WordView>,
    root: Seq<char>,
    symbol: Seq<char>,
    other: Seq<char>,
)
    ensures
        lookup(tag_one(ws, root, symbol), other) == match lookup(ws, other) {
            Some(w) => if other == root {
                Some(w.with_symbol(symbol))
            } else {
                Some(w)
            },
            None => None::<WordView>,
        },
{
    let p = other_root(other);
    let at = position(ws, root) as int;
    lemma_leading_run(ws, other_root(root));
    lemma_leading_run(ws, p);
    if at < ws.len() {
        let after = ws.update(at, ws[at].with_symbol(symbol));
        assert forall|j: int| 0 <= j < ws.len() implies p(#[trigger] ws[j]) == p(after[j]) by {}
        lemma_leading_agree(ws, after, p);
        if other != root && position(ws, other) < ws.len() {
            assert(ws[position(ws, other) as int].root == other);
        }
    } else if other == root {
        assert(position(ws, other) == ws.len());
    }
}

/// Setting a translation does for a translated word what `translate_one`
/// says: a lookup by the word's root finds the word with the translation
/// set, and a lookup by any other root finds what it found before.
pub proof fn lemma_lookup_translate_one(
    ws: Seq<WordView>,
    root: Seq<char>,
    language: Seq<char>,
    text: Seq<char>,
    other: Seq<char>,
)
    ensures
        lookup(translate_one(ws, root, language, text), other) == match lookup(ws, other) {
            Some(w) => if other == root {
                Some(w.with_translation(language, text))
            } else {
                Some(w)
            },
            None => None::<WordView>,
        },
{
    let p = other_root(other);
    let at = position(ws, root) as int;
    lemma_leading_run(ws, other_root(root));
    lemma_leading_run(ws, p);
    if at < ws.len() {
        let after = ws.update(at, ws[at].with_translation(language, text));
        assert forall|j: int| 0 <= j < ws.len() implies p(#[trigger] ws[j]) == p(after[j]) by {}
        lemma_leading_agree(ws, after, p);
        if other != root && position(ws, other) < ws.len() {
            assert(ws[position(ws, other) as int].root == other);
        }
    } else if other == root {
        assert(position(ws, other) == ws.len());
    }
}

} // verus!
