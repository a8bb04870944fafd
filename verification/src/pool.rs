//! The pool of roots that names are drawn from.

use crate::counting::lemma_occurrences_add;
use crate::counting::lemma_occurrences_empty;
use crate::counting::lemma_occurrences_filter;
use crate::counting::occurrences;
use crate::dictionary::lookup;
use crate::language::LanguageView;
use crate::symbols::SymbolView;
use crate::word::WordView;
use vstd::prelude::*;
use vstd::string::StringExecFns;

verus! {

/// Which symbols a name is drawn from: the roots of a favored symbol count
/// three times, the roots of an excluded symbol are never drawn.
#[derive(Debug, PartialEq, Eq)]
pub struct NamePreset {
    pub favor_symbols: Vec<String>,
    pub exclude_symbols: Vec<String>,
}

/// What a `NamePreset` holds.
pub struct PresetView {
    pub favor: Seq<Seq<char>>,
    pub exclude: Seq<Seq<char>>,
}

impl View for NamePreset {
    type V = PresetView;

    open spec fn view(&self) -> PresetView {
        PresetView {
            favor: self.favor_symbols.deep_view(),
            exclude: self.exclude_symbols.deep_view(),
        }
    }
}

/// Whether `name` is the name of a symbol for places and structures, which
/// no character's name is drawn from.
pub open spec fn reserved(name: Seq<char>) -> bool {
    "NAME_"@.is_prefix_of(name)
}

/// Whether the roots of symbol `e` are barred from the pool.
pub open spec fn banned(e: SymbolView, preset: PresetView) -> bool {
    !reserved(e.name) && preset.exclude.contains(e.name)
}

/// How many times the roots of symbol `e` enter the raw pool.
pub open spec fn weight(e: SymbolView, preset: PresetView) -> nat {
    if reserved(e.name) || preset.exclude.contains(e.name) {
        0
    } else if preset.favor.contains(e.name) {
        3
    } else {
        1
    }
}

/// `roots`, `n` times in a row.
pub open spec fn repeated(roots: Seq<Seq<char>>, n: nat) -> Seq<Seq<char>>
    decreases n,
{
    if n == 0 {
        Seq::empty()
    } else {
        repeated(roots, (n - 1) as nat) + roots
    }
}

/// The pool before anything is removed from it: for each symbol in order,
/// its roots, as many times as its weight says.
pub open spec fn raw_pool(index: Seq<SymbolView>, preset: PresetView) -> Seq<Seq<char>>
    decreases index.len(),
{
    if index.len() == 0 {
        Seq::empty()
    } else {
        raw_pool(index.drop_last(), preset) + repeated(
            index.last().roots,
            weight(index.last(), preset),
        )
    }
}

/// The roots of all banned symbols.
pub open spec fn blacklist(index: Seq<SymbolView>, preset: PresetView) -> Seq<Seq<char>>
    decreases index.len(),
{
    if index.len() == 0 {
        Seq::empty()
    } else if banned(index.last(), preset) {
        blacklist(index.drop_last(), preset) + index.last().roots
    } else {
        blacklist(index.drop_last(), preset)
    }
}

/// Whether `root` is the root of a word that can be a prefix.
pub open spec fn is_prefix_word(ws: Seq<WordView>, root: Seq<char>) -> bool {
    match lookup(ws, root) {
        Some(w) => w.prefix is Some,
        None => false,
    }
}

/// The predicate "stays in the pool": not on the blacklist, and not the root
/// of a word that can be a prefix.
pub open spec fn stays(ws: Seq<WordView>, black: Seq<Seq<char>>) -> spec_fn(Seq<char>) -> bool {
    |root: Seq<char>| !black.contains(root) && !is_prefix_word(ws, root)
}

/// The roots that a name is drawn from: the raw pool without the roots on
/// the blacklist and without the roots of words that can be a prefix.
pub open spec fn name_pool(lang: LanguageView, preset: PresetView) -> Seq<Seq<char>> {
    raw_pool(lang.symbols, preset).filter(stays(lang.words, blacklist(lang.symbols, preset)))
}

/// The symbols that a dwarf's name favors and those it leaves out.
pub open spec fn dwarven_preset() -> PresetView {
    PresetView {
        favor: seq!["ARTIFICE"@, "EARTH"@],
        exclude: seq![
            "DOMESTIC"@,
            "SUBORDINATE"@,
            "EVIL"@,
            "FLOWERY"@,
            "NEGATIVE"@,
            "UGLY"@,
            "NEGATOR"@,
        ],
    }
}

impl NamePreset {
    /// The preset of a dwarf's name.
    pub fn dwarven() -> (preset: NamePreset)
        ensures
            preset@ == dwarven_preset(),
    {
        let mut favor_symbols: Vec<String> = Vec::new();
        favor_symbols.push(String::from_str("ARTIFICE"));
        favor_symbols.push(String::from_str("EARTH"));
        let mut exclude_symbols: Vec<String> = Vec::new();
        exclude_symbols.push(String::from_str("DOMESTIC"));
        exclude_symbols.push(String::from_str("SUBORDINATE"));
        exclude_symbols.push(String::from_str("EVIL"));
        exclude_symbols.push(String::from_str("FLOWERY"));
        exclude_symbols.push(String::from_str("NEGATIVE"));
        exclude_symbols.push(String::from_str("UGLY"));
        exclude_symbols.push(String::from_str("NEGATOR"));
        proof {
            assert(favor_symbols.deep_view() =~= dwarven_preset().favor);
            assert(exclude_symbols.deep_view() =~= dwarven_preset().exclude);
        }
        NamePreset { favor_symbols, exclude_symbols }
    }
}

/// How many times `root` enters the raw pool: for each symbol, as often as
/// the symbol lists it, times the symbol's weight.
pub open spec fn raw_count(index: Seq<SymbolView>, preset: PresetView, root: Seq<char>) -> nat
    decreases index.len(),
{
    if index.len() == 0 {
        0
    } else {
        raw_count(index.drop_last(), preset, root) + weight(index.last(), preset) * occurrences(
            index.last().roots,
            root,
        )
    }
}

/// A root occurs in `roots` repeated `n` times `n` times as often as in `roots`.
pub proof fn lemma_repeated_count(roots: Seq<Seq<char>>, n: nat, root: Seq<char>)
    ensures
        occurrences(repeated(roots, n), root) == n * occurrences(roots, root),
    decreases n,
{
    if n == 0 {
        lemma_occurrences_empty(root);
    } else {
        lemma_repeated_count(roots, (n - 1) as nat, root);
        lemma_occurrences_add(repeated(roots, (n - 1) as nat), roots, root);
        assert(n * occurrences(roots, root) == (n - 1) * occurrences(roots, root) + occurrences(
            roots,
            root,
        )) by (nonlinear_arith);
    }
}

/// The raw pool holds each root `raw_count` times: three times for each
/// listing by a favored symbol, once for each listing by a symbol that is
/// neither favored nor left out, and not at all for the others.
pub proof fn lemma_raw_pool_count(index: Seq<SymbolView>, preset: PresetView, root: Seq<char>)
    ensures
        occurrences(raw_pool(index, preset), root) == raw_count(index, preset, root),
    decreases index.len(),
{
    if index.len() == 0 {
        lemma_occurrences_empty(root);
    } else {
        lemma_raw_pool_count(index.drop_last(), preset, root);
        lemma_repeated_count(index.last().roots, weight(index.last(), preset), root);
        lemma_occurrences_add(
            raw_pool(index.drop_last(), preset),
            repeated(index.last().roots, weight(index.last(), preset)),
            root,
        );
    }
}

/// With nothing left out, a favored symbol and another symbol, neither of
/// them for places, give a raw pool that holds the roots of the first three
/// times and the roots of the second once.
pub proof fn lemma_favored_thrice(favored: SymbolView, neutral: SymbolView, preset: PresetView)
    requires
        preset.exclude.len() == 0,
        preset.favor.contains(favored.name),
        !preset.favor.contains(neutral.name),
        !reserved(favored.name),
        !reserved(neutral.name),
    ensures
        raw_pool(seq![favored, neutral], preset) == favored.roots + favored.roots + favored.roots
            + neutral.roots,
        raw_pool(seq![neutral, favored], preset) == neutral.roots + favored.roots + favored.roots
            + favored.roots,
        forall|root: Seq<char>|
            #![trigger occurrences(favored.roots, root)]
            #![trigger occurrences(neutral.roots, root)]
            occurrences(raw_pool(seq![favored, neutral], preset), root) == 3 * occurrences(
                favored.roots,
                root,
            ) + occurrences(neutral.roots, root),
{
    let thrice = favored.roots + favored.roots + favored.roots;
    let index = seq![favored, neutral];
    let swapped = seq![neutral, favored];
    reveal_with_fuel(repeated, 4);
    reveal_with_fuel(raw_pool, 3);
    assert(repeated(favored.roots, 3) =~= thrice);
    assert(repeated(neutral.roots, 1) =~= neutral.roots);
    assert(index.drop_last() =~= seq![favored]);
    assert(swapped.drop_last() =~= seq![neutral]);
    assert(seq![favored].drop_last() =~= Seq::<SymbolView>::empty());
    assert(seq![neutral].drop_last() =~= Seq::<SymbolView>::empty());
    assert(raw_pool(seq![favored], preset) =~= thrice);
    assert(raw_pool(seq![neutral], preset) =~= neutral.roots);
    assert(raw_pool(index, preset) =~= thrice + neutral.roots);
    assert(raw_pool(swapped, preset) =~= neutral.roots + thrice);
    assert(neutral.roots + thrice =~= neutral.roots + favored.roots + favored.roots
        + favored.roots);
    assert forall|root: Seq<char>|
        #![trigger occurrences(favored.roots, root)]
        #![trigger occurrences(neutral.roots, root)]
        occurrences(raw_pool(index, preset), root) == 3 * occurrences(favored.roots, root)
            + occurrences(neutral.roots, root) by {
        lemma_occurrences_add(favored.roots, favored.roots, root);
        lemma_occurrences_add(favored.roots + favored.roots, favored.roots, root);
        lemma_occurrences_add(thrice, neutral.roots, root);
    }
}

/// The blacklist holds the roots of every banned symbol.
pub proof fn lemma_blacklist_holds(
    index: Seq<SymbolView>,
    preset: PresetView,
    at: int,
    root: Seq<char>,
)
    requires
        0 <= at < index.len(),
        banned(index[at], preset),
        index[at].roots.contains(root),
    ensures
        blacklist(index, preset).contains(root),
    decreases index.len(),
{
    let earlier = blacklist(index.drop_last(), preset);
    if at == index.len() - 1 {
        let k = choose|k: int| 0 <= k < index[at].roots.len() && index[at].roots[k] == root;
        assert((earlier + index.last().roots)[earlier.len() + k] == root);
    } else {
        assert(index.drop_last()[at] == index[at]);
        lemma_blacklist_holds(index.drop_last(), preset, at, root);
        let k = choose|k: int| 0 <= k < earlier.len() && earlier[k] == root;
        if banned(index.last(), preset) {
            assert((earlier + index.last().roots)[k] == root);
        }
    }
}

/// A root that a symbol left out lists is not in the pool, whatever other
/// symbols list it. (A symbol for places is not left out: it is passed over
/// before the preset is asked.)
pub proof fn lemma_excluded_never_drawn(
    lang: LanguageView,
    preset: PresetView,
    at: int,
    root: Seq<char>,
)
    requires
        0 <= at < lang.symbols.len(),
        preset.exclude.contains(lang.symbols[at].name),
        !reserved(lang.symbols[at].name),
        lang.symbols[at].roots.contains(root),
    ensures
        !name_pool(lang, preset).contains(root),
{
    let black = blacklist(lang.symbols, preset);
    let keep = stays(lang.words, black);
    let raw = raw_pool(lang.symbols, preset);
    lemma_blacklist_holds(lang.symbols, preset, at, root);
    if raw.filter(keep).contains(root) {
        let k = choose|k: int| 0 <= k < raw.filter(keep).len() && raw.filter(keep)[k] == root;
        raw.lemma_filter_pred(keep, k);
        assert(keep(root));
    }
}

/// The root of a word that can be a prefix is not in the pool.
pub proof fn lemma_prefix_never_drawn(lang: LanguageView, preset: PresetView, root: Seq<char>)
    requires
        is_prefix_word(lang.words, root),
    ensures
        !name_pool(lang, preset).contains(root),
{
    let keep = stays(lang.words, blacklist(lang.symbols, preset));
    let raw = raw_pool(lang.symbols, preset);
    if raw.filter(keep).contains(root) {
        let k = choose|k: int| 0 <= k < raw.filter(keep).len() && raw.filter(keep)[k] == root;
        raw.lemma_filter_pred(keep, k);
        assert(keep(root));
    }
}

/// The pool holds a root as often as the raw pool does, or not at all where
/// the root is on the blacklist or is the root of a word that can be a
/// prefix.
pub proof fn lemma_pool_count(lang: LanguageView, preset: PresetView, root: Seq<char>)
    ensures
        occurrences(name_pool(lang, preset), root) == if blacklist(lang.symbols, preset).contains(
            root,
        ) || is_prefix_word(lang.words, root) {
            0
        } else {
            raw_count(lang.symbols, preset, root)
        },
{
    lemma_occurrences_filter(
        raw_pool(lang.symbols, preset),
        stays(lang.words, blacklist(lang.symbols, preset)),
        root,
    );
    lemma_raw_pool_count(lang.symbols, preset, root);
}

/// The blacklist holds nothing but the roots of banned symbols.
pub proof fn lemma_blacklist_only(index: Seq<SymbolView>, preset: PresetView, root: Seq<char>)
    requires
        blacklist(index, preset).contains(root),
    ensures
        exists|at: int|
            0 <= at < index.len() && banned(#[trigger] index[at], preset)
                && index[at].roots.contains(root),
    decreases index.len(),
{
    if index.len() > 0 {
        let earlier = blacklist(index.drop_last(), preset);
        let last = index.last();
        let k = choose|k: int|
            0 <= k < blacklist(index, preset).len() && blacklist(index, preset)[k] == root;
        if banned(last, preset) && k >= earlier.len() {
            assert(last.roots[k - earlier.len()] == root);
            assert(banned(index[index.len() - 1], preset));
        } else {
            assert(earlier[k] == root);
            lemma_blacklist_only(index.drop_last(), preset, root);
            let at = choose|at: int|
                0 <= at < index.drop_last().len() && banned(
                    #[trigger] index.drop_last()[at],
                    preset,
                ) && index.drop_last()[at].roots.contains(root);
            assert(index[at] == index.drop_last()[at]);
        }
    }
}

} // verus!
