//! The key of a goal does not depend on how its universes are numbered.

use vstd::prelude::*;
use crate::symbol::Head;
use crate::term::SpecTerm;
use crate::term::leaves;
use crate::fold::compose;
use crate::fold::fold;
use crate::fold::lemma_fold_compose;
use crate::fold::lemma_fold_ext;
use crate::fold::lemma_leaves_of_fold;
use crate::fold::map_leaves;
use crate::infer::CanonicalVarKind;
use crate::infer::SpecCanonical;
use crate::unify::universe_of;
use crate::canonicalize::Selector;
use crate::canonicalize::binder_marks;
use crate::canonicalize::distinct;
use crate::canonicalize::key_of;
use crate::canonicalize::position_upto;
use crate::canonicalize::rank;
use crate::canonicalize::rank_upto;
use crate::canonicalize::renumber_binders;
use crate::canonicalize::renumbering;
use crate::canonicalize::u_canonicalize_model;
use crate::canonicalize::universe_leaves;
use crate::canonicalize::universe_mark;
use crate::canonicalize::universes_of;
use crate::round_trip::lemma_leaves_are_leaves;

verus! {

/// Whether a renaming of universes keeps the order between universe `u`
/// and the universes of the symbols.
pub open spec fn keeps_order(m: spec_fn(usize) -> usize, hs: Seq<Head>, u: usize) -> bool {
    forall|i: int|
        0 <= i < hs.len() ==> match universe_of(#[trigger] hs[i]) {
            Some(a) => (a < u ==> m(a) < m(u)) && (u < a ==> m(u) < m(a)),
            None => true,
        }
}

/// Whether a renaming of universes keeps the root and the order of the
/// universes that the leaves speak of.
pub open spec fn order_preserving(m: spec_fn(usize) -> usize, ls: Seq<(Head, u32)>) -> bool {
    &&& m(0) == 0
    &&& forall|i: int, j: int|
        0 <= i < ls.len() && 0 <= j < ls.len() ==> match (
            universe_of((#[trigger] ls[i]).0),
            universe_of((#[trigger] ls[j]).0),
        ) {
            (Some(a), Some(b)) => a < b ==> m(a) < m(b),
            _ => true,
        }
}

/// A symbol with its universe renamed.
pub open spec fn rename_head(m: spec_fn(usize) -> usize, head: Head) -> Head {
    match head {
        Head::Placeholder { kind, universe, index } => Head::Placeholder { kind, universe: m(universe), index },
        _ => head,
    }
}

/// Renaming of universes as a leaf rewriting.
pub open spec fn renaming(m: spec_fn(usize) -> usize) -> spec_fn(Head, u32) -> SpecTerm {
    |head: Head, depth: u32| SpecTerm::atom(rename_head(m, head))
}

/// A canonical value with its universes renamed.
pub open spec fn renamed_canonical(c: SpecCanonical, m: spec_fn(usize) -> usize) -> SpecCanonical {
    SpecCanonical {
        binders: Seq::new(
            c.binders.len(),
            |i: int| CanonicalVarKind { kind: c.binders[i].kind, universe: m(c.binders[i].universe) },
        ),
        value: fold(c.value, renaming(m), 0),
    }
}

/// Symbols with their universes renamed.
pub open spec fn renamed_heads(hs: Seq<Head>, m: spec_fn(usize) -> usize) -> Seq<Head> {
    Seq::new(hs.len(), |i: int| rename_head(m, hs[i]))
}

/// A key is found among renamed universes where it was found before the renaming.
proof fn lemma_position_renamed(hs: Seq<Head>, m: spec_fn(usize) -> usize, u: usize, n: nat)
    requires
        keeps_order(m, hs, u),
        n <= hs.len(),
    ensures
        position_upto(renamed_heads(hs, m), Selector::Universe, (m(u), 0usize), n) == position_upto(
            hs,
            Selector::Universe,
            (u, 0usize),
            n,
        ),
    decreases n,
{
    if n > 0 {
        lemma_position_renamed(hs, m, u, (n - 1) as nat);
        match hs[n - 1] {
            Head::Placeholder { kind, universe, index } => {
                assert(universe_of(hs[n - 1]) == Some(universe));
            },
            _ => {},
        }
    }
}

/// A renamed universe has as many renamed universes further out as it had before.
proof fn lemma_rank_renamed(hs: Seq<Head>, m: spec_fn(usize) -> usize, u: usize, n: nat)
    requires
        keeps_order(m, hs, u),
        n <= hs.len(),
    ensures
        rank_upto(renamed_heads(hs, m), m(u), n) == rank_upto(hs, u, n),
    decreases n,
{
    if n > 0 {
        lemma_rank_renamed(hs, m, u, (n - 1) as nat);
        match hs[n - 1] {
            Head::Placeholder { kind, universe, index } => {
                assert(universe_of(hs[n - 1]) == Some(universe));
            },
            _ => {},
        }
    }
}

/// Every symbol told apart is the symbol of a leaf.
pub proof fn lemma_distinct_from_leaves(ls: Seq<(Head, u32)>, sel: Selector, n: nat, j: int)
    requires
        n <= ls.len(),
        0 <= j < distinct(ls, sel, n).len(),
    ensures
        exists|i: int| 0 <= i < n && (#[trigger] ls[i]).0 == distinct(ls, sel, n)[j],
        key_of(sel, distinct(ls, sel, n)[j]) is Some,
    decreases n,
{
    if n > 0 {
        let before = distinct(ls, sel, (n - 1) as nat);
        if j < before.len() {
            lemma_distinct_from_leaves(ls, sel, (n - 1) as nat, j);
            let i = choose|i: int| 0 <= i < n - 1 && (#[trigger] ls[i]).0 == before[j];
            assert(ls[i].0 == distinct(ls, sel, n)[j]);
        } else {
            assert(ls[n - 1].0 == distinct(ls, sel, n)[j]);
        }
    }
}

/// A renaming that keeps the order of the universes of the leaves keeps
/// the order between the universe of any leaf and those told apart.
pub proof fn lemma_keeps_order(ls: Seq<(Head, u32)>, m: spec_fn(usize) -> usize, n: nat, k: int)
    requires
        order_preserving(m, ls),
        n <= ls.len(),
        0 <= k < ls.len(),
        universe_of(ls[k].0) is Some,
    ensures
        keeps_order(m, distinct(ls, Selector::Universe, n), universe_of(ls[k].0)->0),
{
    let hs = distinct(ls, Selector::Universe, n);
    let u = universe_of(ls[k].0)->0;
    assert forall|j: int| 0 <= j < hs.len() implies match universe_of(#[trigger] hs[j]) {
        Some(a) => (a < u ==> m(a) < m(u)) && (u < a ==> m(u) < m(a)),
        None => true,
    } by {
        lemma_distinct_from_leaves(ls, Selector::Universe, n, j);
        let i = choose|i: int| 0 <= i < n && (#[trigger] ls[i]).0 == hs[j];
        assert(universe_of(ls[i].0) == universe_of(hs[j]));
        let x = ls[i];
        let y = ls[k];
    }
}

/// The universes told apart among renamed leaves are the renamed
/// universes told apart among the leaves.
pub proof fn lemma_distinct_universes_renamed(
    ls: Seq<(Head, u32)>,
    ls2: Seq<(Head, u32)>,
    m: spec_fn(usize) -> usize,
    n: nat,
)
    requires
        order_preserving(m, ls),
        n <= ls.len(),
        ls2.len() == ls.len(),
        forall|i: int| 0 <= i < ls.len() ==> (#[trigger] ls2[i]).0 == rename_head(m, ls[i].0),
    ensures
        distinct(ls2, Selector::Universe, n) == renamed_heads(distinct(ls, Selector::Universe, n), m),
    decreases n,
{
    let sel = Selector::Universe;
    if n == 0 {
        assert(distinct(ls2, sel, n) =~= renamed_heads(distinct(ls, sel, n), m));
    } else {
        lemma_distinct_universes_renamed(ls, ls2, m, (n - 1) as nat);
        let before = distinct(ls, sel, (n - 1) as nat);
        let h = ls[n - 1].0;
        assert(ls2[n - 1].0 == rename_head(m, h));
        match h {
            Head::Placeholder { kind, universe, index } => {
                lemma_keeps_order(ls, m, (n - 1) as nat, n - 1);
                lemma_position_renamed(before, m, universe, before.len());
                assert(distinct(ls2, sel, n) =~= renamed_heads(distinct(ls, sel, n), m));
            },
            _ => {},
        }
    }
}

/// Goals that differ only in how their universes are numbered have one
/// key: a renaming of universes that keeps the root and the order of the
/// universes of a canonical value does not change the canonical form with
/// renumbered universes.
pub proof fn lemma_key_ignores_universe_numbers(c: SpecCanonical, m: spec_fn(usize) -> usize)
    requires
        order_preserving(m, universe_leaves(c)),
    ensures
        u_canonicalize_model(renamed_canonical(c, m)).quantified == u_canonicalize_model(c).quantified,
{
    let sel = Selector::Universe;
    let c2 = renamed_canonical(c, m);
    let ls = universe_leaves(c);
    let ls2 = universe_leaves(c2);
    assert forall|h: Head, d: u32| #[trigger] leaves(c.value, 0).contains((h, d)) implies renaming(m)(
        h,
        d,
    ).is_leaf() by {
        lemma_leaves_are_leaves(c.value, 0, (h, d));
    }
    lemma_leaves_of_fold(c.value, renaming(m), 0);
    assert(leaves(c2.value, 0) == map_leaves(leaves(c.value, 0), renaming(m)));
    assert(ls2.len() == ls.len());
    assert forall|i: int| 0 <= i < ls.len() implies (#[trigger] ls2[i]).0 == rename_head(m, ls[i].0) by {
        let marks = binder_marks(c.binders);
        let marks2 = binder_marks(c2.binders);
        if i == 0 {
        } else if i < 1 + marks.len() {
            assert(ls[i] == marks[i - 1]);
            assert(ls2[i] == marks2[i - 1]);
        } else {
            let j = i - 1 - marks.len();
            assert(ls[i] == leaves(c.value, 0)[j]);
            assert(ls2[i] == leaves(c2.value, 0)[j]);
        }
    }
    lemma_distinct_universes_renamed(ls, ls2, m, ls.len());
    let us = universes_of(c);
    let us2 = universes_of(c2);
    assert(us2 == renamed_heads(us, m));
    assert forall|k: int| 0 <= k < ls.len() && universe_of(ls[k].0) is Some implies rank(
        us2,
        m(universe_of((#[trigger] ls[k]).0)->0),
    ) == rank(us, universe_of(ls[k].0)->0) by {
        lemma_keeps_order(ls, m, ls.len(), k);
        lemma_rank_renamed(us, m, universe_of(ls[k].0)->0, us.len());
    }
    lemma_fold_compose(c.value, renaming(m), renumbering(us2), 0);
    assert forall|h: Head, d: u32| #[trigger] leaves(c.value, 0).contains((h, d)) implies compose(
        renaming(m),
        renumbering(us2),
    )(h, d) == renumbering(us)(h, d) by {
        lemma_leaves_are_leaves(c.value, 0, (h, d));
        assert(SpecTerm::atom(rename_head(m, h)).is_leaf());
        match h {
            Head::Placeholder { kind, universe, index } => {
                let j = choose|j: int| 0 <= j < leaves(c.value, 0).len() && leaves(c.value, 0)[j] == (h, d);
                let k = 1 + binder_marks(c.binders).len() + j;
                assert(ls[k] == (h, d));
                assert(rank(us2, m(universe)) == rank(us, universe));
            },
            _ => {},
        }
    }
    lemma_fold_ext(c.value, compose(renaming(m), renumbering(us2)), renumbering(us), 0);
    assert(renumber_binders(us2, c2.binders) =~= renumber_binders(us, c.binders)) by {
        assert forall|i: int| 0 <= i < c.binders.len() implies #[trigger] renumber_binders(us2, c2.binders)[i]
            == renumber_binders(us, c.binders)[i] by {
            assert(ls[1 + i] == universe_mark(c.binders[i].kind, c.binders[i].universe));
            assert(rank(us2, m(c.binders[i].universe)) == rank(us, c.binders[i].universe));
        }
    }
}

} // verus!
