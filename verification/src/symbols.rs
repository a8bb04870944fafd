//! The symbol index: for each symbol, the roots it lists.

use crate::runs::leading;
use crate::runs::lemma_leading_agree;
use crate::runs::lemma_leading_is;
use crate::runs::lemma_leading_push;
use crate::runs::lemma_leading_run;
use vstd::prelude::*;
use vstd::string::StringExecFns;

verus! {

/// A symbol and the roots it lists, in the order of the file.
#[derive(Debug, PartialEq, Eq)]
pub struct SymbolEntry {
    pub name: String,
    pub roots: Vec<String>,
}

/// What a `SymbolEntry` holds.
pub struct SymbolView {
    pub name: Seq<char>,
    pub roots: Seq<Seq<char>>,
}

impl View for SymbolEntry {
    type V = SymbolView;

    open spec fn view(&self) -> SymbolView {
        SymbolView { name: self.name@, roots: self.roots.deep_view() }
    }
}

impl DeepView for SymbolEntry {
    type V = SymbolView;

    open spec fn deep_view(&self) -> SymbolView {
        self@
    }
}

/// The predicate "has another name than `name`".
pub open spec fn other_name(name: Seq<char>) -> spec_fn(SymbolView) -> bool {
    |e: SymbolView| e.name != name
}

/// The place of symbol `name` in `index`, or the length of `index` if there
/// is none.
pub open spec fn symbol_position(index: Seq<SymbolView>, name: Seq<char>) -> nat {
    leading(index, other_name(name))
}

/// The roots that symbol `name` lists in `index`, if it is there.
pub open spec fn symbol_roots(index: Seq<SymbolView>, name: Seq<char>) -> Option<Seq<Seq<char>>> {
    if symbol_position(index, name) < index.len() {
        Some(index[symbol_position(index, name) as int].roots)
    } else {
        None
    }
}

/// `index` with `roots` as the list of symbol `name`, in the place of the
/// list it had, or as a new symbol at the end.
pub open spec fn put_symbol(
    index: Seq<SymbolView>,
    name: Seq<char>,
    roots: Seq<Seq<char>>,
) -> Seq<SymbolView> {
    if symbol_position(index, name) < index.len() {
        index.update(symbol_position(index, name) as int, SymbolView { name, roots })
    } else {
        index.push(SymbolView { name, roots })
    }
}

/// Whether no two symbols of `index` have the same name.
pub open spec fn distinct_names(index: Seq<SymbolView>) -> bool {
    forall|i: int, j: int|
        0 <= i < j < index.len() ==> (#[trigger] index[i]).name != (#[trigger] index[j]).name
}

/// Entering a symbol keeps the names distinct.
pub proof fn lemma_put_symbol_distinct(
    index: Seq<SymbolView>,
    name: Seq<char>,
    roots: Seq<Seq<char>>,
)
    requires
        distinct_names(index),
    ensures
        distinct_names(put_symbol(index, name, roots)),
{
    lemma_leading_run(index, other_name(name));
    let i = symbol_position(index, name) as int;
    let after = put_symbol(index, name, roots);
    if i < index.len() {
        assert forall|a: int, b: int| 0 <= a < b < after.len() implies (#[trigger] after[a]).name
            != (#[trigger] after[b]).name by {
            assert(index[i].name == name);
            assert(index[a].name != index[b].name);
        }
    } else {
        assert forall|a: int, b: int| 0 <= a < b < after.len() implies (#[trigger] after[a]).name
            != (#[trigger] after[b]).name by {
            if b < index.len() {
                assert(index[a].name != index[b].name);
            } else {
                assert((other_name(name))(index[a]));
            }
        }
    }
}

/// The symbols of a language, in the order in which they were first entered.
/// No two of them have the same name.
#[derive(Debug)]
pub struct SymbolIndex {
    entries: Vec<SymbolEntry>,
}

impl View for SymbolIndex {
    type V = Seq<SymbolView>;

    closed spec fn view(&self) -> Seq<SymbolView> {
        self.entries.deep_view()
    }
}

impl SymbolIndex {
    /// The invariant of the type: no two symbols have the same name.
    pub open spec fn wf(&self) -> bool {
        distinct_names(self@)
    }

    /// An index without symbols.
    pub fn new() -> (index: SymbolIndex)
        ensures
            index.wf(),
            index@ == Seq::<SymbolView>::empty(),
    {
        let index = SymbolIndex { entries: Vec::new() };
        proof {
            assert(index@ =~= Seq::<SymbolView>::empty());
        }
        index
    }

    /// The number of symbols.
    pub fn len(&self) -> (n: usize)
        ensures
            n == self@.len(),
    {
        self.entries.len()
    }

    /// The symbol at place `i`.
    pub fn entry(&self, i: usize) -> (e: &SymbolEntry)
        requires
            i < self@.len(),
        ensures
            e@ == self@[i as int],
    {
        &self.entries[i]
    }

    /// The place of symbol `name`, if it is there.
    fn find(&self, name: &str) -> (r: Option<usize>)
        ensures
            match r {
                Some(i) => i == symbol_position(self@, name@) && i < self.entries.len(),
                None => symbol_position(self@, name@) == self.entries.len(),
            },
            self@.len() == self.entries.len(),
    {
        let key = String::from_str(name);
        let mut i: usize = 0;
        while i < self.entries.len()
            invariant
                i <= self.entries.len(),
                key@ == name@,
                forall|j: int| 0 <= j < i ==> self.entries[j].name@ != name@,
            decreases self.entries.len() - i,
        {
            if self.entries[i].name == key {
                proof {
                    assert forall|j: int| 0 <= j < i implies (other_name(name@))(
                        #[trigger] self@[j],
                    ) by {
                        assert(self@[j].name == self.entries[j].name@);
                    }
                    lemma_leading_is(self@, other_name(name@), i as int);
                }
                return Some(i);
            }
            i += 1;
        }
        proof {
            assert forall|j: int| 0 <= j < i implies (other_name(name@))(#[trigger] self@[j]) by {
                assert(self@[j].name == self.entries[j].name@);
            }
            lemma_leading_is(self@, other_name(name@), i as int);
        }
        None
    }

    /// The roots that symbol `name` lists, if it is there.
    pub fn get(&self, name: &str) -> (r: Option<&Vec<String>>)
        ensures
            match r {
                Some(roots) => symbol_roots(self@, name@) == Some(roots.deep_view()),
                None => symbol_roots(self@, name@) is None,
            },
    {
        match self.find(name) {
            Some(i) => Some(&self.entries[i].roots),
            None => None,
        }
    }

    /// Makes `roots` the list of symbol `name`.
    pub fn insert(&mut self, name: String, roots: Vec<String>)
        requires
            old(self).wf(),
        ensures
            final(self).wf(),
            final(self)@ == put_symbol(old(self)@, name@, roots.deep_view()),
    {
        let ghost before = self@;
        let ghost e = SymbolView { name: name@, roots: roots.deep_view() };
        proof {
            lemma_put_symbol_distinct(before, name@, roots.deep_view());
        }
        match self.find(name.as_str()) {
            Some(i) => {
                self.entries[i] = SymbolEntry { name, roots };
                proof {
                    assert(self@ =~= before.update(i as int, e));
                }
            },
            None => {
                self.entries.push(SymbolEntry { name, roots });
                proof {
                    assert(self@ =~= before.push(e));
                }
            },
        }
    }
}

/// After a symbol is entered, a lookup by its name finds its roots, and a
/// lookup by any other name finds what it found before.
pub proof fn lemma_symbol_put(
    index: Seq<SymbolView>,
    name: Seq<char>,
    roots: Seq<Seq<char>>,
    other: Seq<char>,
)
    ensures
        symbol_roots(put_symbol(index, name, roots), other) == if other == name {
            Some(roots)
        } else {
            symbol_roots(index, other)
        },
{
    let p = other_name(other);
    let e = SymbolView { name, roots };
    let at = symbol_position(index, name) as int;
    lemma_leading_run(index, other_name(name));
    lemma_leading_run(index, p);
    if at < index.len() {
        let after = index.update(at, e);
        assert forall|j: int| 0 <= j < index.len() implies p(#[trigger] index[j]) == p(
            after[j],
        ) by {
            if j == at {
                assert(index[at].name == name);
            }
        }
        lemma_leading_agree(index, after, p);
    } else {
        lemma_leading_push(index, p, e);
        if other == name {
            assert(symbol_position(index, other) == index.len());
        }
    }
}

} // verus!
