//! The canonical form of a term does not depend on the names of its
//! inference variables.

use vstd::prelude::*;
use crate::symbol::Head;
use crate::term::SpecTerm;
use crate::term::leaves;
use crate::fold::compose;
use crate::fold::fold;
use crate::fold::lemma_fold_compose;
use crate::fold::lemma_fold_ext;
use crate::fold::lemma_leaves_of_fold;
use crate::fold::map_leaves;
use crate::infer::SpecTable;
use crate::unify::var_of;
use crate::canonicalize::Selector;
use crate::canonicalize::abstraction;
use crate::canonicalize::binders_of;
use crate::canonicalize::canonicalize_model;
use crate::canonicalize::distinct;
use crate::canonicalize::free_vars;
use crate::canonicalize::lemma_position_bounds;
use crate::canonicalize::position_upto;
use crate::canonicalize::var_universe;
use crate::round_trip::lemma_distinct_covers;
use crate::round_trip::lemma_leaves_are_leaves;
use crate::soundness::lemma_normalize_idempotent;
use crate::universes::lemma_distinct_from_leaves;
use crate::wellformed::term_free;

verus! {

/// A symbol with its inference variable renamed.
pub open spec fn rename_var(r: spec_fn(usize) -> usize, head: Head) -> Head {
    match head {
        Head::InferenceVar { kind, var } => Head::InferenceVar { kind, var: r(var) },
        _ => head,
    }
}

/// Renaming of inference variables as a leaf rewriting.
pub open spec fn var_renaming(r: spec_fn(usize) -> usize) -> spec_fn(Head, u32) -> SpecTerm {
    |head: Head, depth: u32| SpecTerm::atom(rename_var(r, head))
}

/// A term with its inference variables renamed.
pub open spec fn renamed(t: SpecTerm, r: spec_fn(usize) -> usize) -> SpecTerm {
    fold(t, var_renaming(r), 0)
}

/// Whether a renaming gives different variables among the leaves
/// different names.
pub open spec fn one_to_one(r: spec_fn(usize) -> usize, ls: Seq<(Head, u32)>) -> bool {
    forall|i: int, j: int|
        0 <= i < ls.len() && 0 <= j < ls.len() ==> match (
            var_of((#[trigger] ls[i]).0),
            var_of((#[trigger] ls[j]).0),
        ) {
            (Some(a), Some(b)) => a != b ==> r(a) != r(b),
            _ => true,
        }
}

/// Whether a renaming gives `v` a name that none of the other variables
/// of the symbols gets.
pub open spec fn apart(r: spec_fn(usize) -> usize, hs: Seq<Head>, v: usize) -> bool {
    forall|i: int|
        0 <= i < hs.len() ==> match var_of(#[trigger] hs[i]) {
            Some(a) => a != v ==> r(a) != r(v),
            None => true,
        }
}

/// Symbols with their inference variables renamed.
pub open spec fn renamed_vars(hs: Seq<Head>, r: spec_fn(usize) -> usize) -> Seq<Head> {
    Seq::new(hs.len(), |i: int| rename_var(r, hs[i]))
}

/// A variable is found among renamed symbols where it was found before.
proof fn lemma_position_var_renamed(hs: Seq<Head>, r: spec_fn(usize) -> usize, v: usize, n: nat)
    requires
        apart(r, hs, v),
        n <= hs.len(),
    ensures
        position_upto(renamed_vars(hs, r), Selector::Var, (r(v), 0usize), n) == position_upto(
            hs,
            Selector::Var,
            (v, 0usize),
            n,
        ),
    decreases n,
{
    if n > 0 {
        lemma_position_var_renamed(hs, r, v, (n - 1) as nat);
        match hs[n - 1] {
            Head::InferenceVar { kind, var } => {
                assert(var_of(hs[n - 1]) == Some(var));
            },
            _ => {},
        }
    }
}

/// A renaming that is one to one on the leaves keeps the variable of any
/// leaf apart from those told apart.
proof fn lemma_apart(ls: Seq<(Head, u32)>, r: spec_fn(usize) -> usize, n: nat, k: int)
    requires
        one_to_one(r, ls),
        n <= ls.len(),
        0 <= k < ls.len(),
        var_of(ls[k].0) is Some,
    ensures
        apart(r, distinct(ls, Selector::Var, n), var_of(ls[k].0)->0),
{
    let hs = distinct(ls, Selector::Var, n);
    let v = var_of(ls[k].0)->0;
    assert forall|j: int| 0 <= j < hs.len() implies match var_of(#[trigger] hs[j]) {
        Some(a) => a != v ==> r(a) != r(v),
        None => true,
    } by {
        lemma_distinct_from_leaves(ls, Selector::Var, n, j);
        let i = choose|i: int| 0 <= i < n && (#[trigger] ls[i]).0 == hs[j];
        let x = ls[i];
        let y = ls[k];
    }
}

/// The variables told apart among renamed leaves are the renamed
/// variables told apart among the leaves.
proof fn lemma_distinct_vars_renamed(ls: Seq<(Head, u32)>, ls2: Seq<(Head, u32)>, r: spec_fn(usize) -> usize, n: nat)
    requires
        one_to_one(r, ls),
        n <= ls.len(),
        ls2.len() == ls.len(),
        forall|i: int| 0 <= i < ls.len() ==> (#[trigger] ls2[i]).0 == rename_var(r, ls[i].0),
    ensures
        distinct(ls2, Selector::Var, n) == renamed_vars(distinct(ls, Selector::Var, n), r),
    decreases n,
{
    let sel = Selector::Var;
    if n == 0 {
        assert(distinct(ls2, sel, n) =~= renamed_vars(distinct(ls, sel, n), r));
    } else {
        lemma_distinct_vars_renamed(ls, ls2, r, (n - 1) as nat);
        let before = distinct(ls, sel, (n - 1) as nat);
        let h = ls[n - 1].0;
        assert(ls2[n - 1].0 == rename_var(r, h));
        match h {
            Head::InferenceVar { kind, var } => {
                lemma_apart(ls, r, (n - 1) as nat, n - 1);
                lemma_position_var_renamed(before, r, var, before.len());
                assert(distinct(ls2, sel, n) =~= renamed_vars(distinct(ls, sel, n), r));
            },
            _ => {},
        }
    }
}

/// Terms that differ only in the names of their inference variables have
/// one canonical form: renaming the unbound variables of a term one to one,
/// into unbound variables of the same universes, does not change the
/// canonical form of the term.
pub proof fn lemma_canonical_form_ignores_names(
    table: SpecTable,
    t: SpecTerm,
    other: SpecTable,
    r: spec_fn(usize) -> usize,
)
    requires
        term_free(table, t),
        term_free(other, renamed(t, r)),
        one_to_one(r, leaves(t, 0)),
        forall|i: int|
            0 <= i < leaves(t, 0).len() ==> match var_of((#[trigger] leaves(t, 0)[i]).0) {
                Some(v) => var_universe(other, r(v)) == var_universe(table, v),
                None => true,
            },
    ensures
        canonicalize_model(other, renamed(t, r)).quantified == canonicalize_model(table, t).quantified,
{
    let sel = Selector::Var;
    let t2 = renamed(t, r);
    lemma_normalize_idempotent(table, t);
    lemma_normalize_idempotent(other, t2);
    let ls = leaves(t, 0);
    assert forall|h: Head, d: u32| #[trigger] ls.contains((h, d)) implies var_renaming(r)(h, d).is_leaf() by {
        lemma_leaves_are_leaves(t, 0, (h, d));
    }
    lemma_leaves_of_fold(t, var_renaming(r), 0);
    let ls2 = leaves(t2, 0);
    assert(ls2 == map_leaves(ls, var_renaming(r)));
    lemma_distinct_vars_renamed(ls, ls2, r, ls.len());
    let fv = free_vars(table, t);
    let fv2 = free_vars(other, t2);
    assert(fv2 == renamed_vars(fv, r));
    lemma_fold_compose(t, var_renaming(r), abstraction(fv2), 0);
    assert forall|h: Head, d: u32| #[trigger] ls.contains((h, d)) implies compose(
        var_renaming(r),
        abstraction(fv2),
    )(h, d) == abstraction(fv)(h, d) by {
        lemma_leaves_are_leaves(t, 0, (h, d));
        assert(SpecTerm::atom(rename_var(r, h)).is_leaf());
        match h {
            Head::InferenceVar { kind, var } => {
                let k = choose|k: int| 0 <= k < ls.len() && ls[k] == (h, d);
                lemma_apart(ls, r, ls.len(), k);
                lemma_position_var_renamed(fv, r, var, fv.len());
                lemma_distinct_covers(ls, sel, ls.len(), k, (var, 0usize));
                lemma_position_bounds(fv, sel, (var, 0usize), fv.len());
            },
            _ => {},
        }
    }
    lemma_fold_ext(t, compose(var_renaming(r), abstraction(fv2)), abstraction(fv), 0);
    assert(binders_of(other, fv2) =~= binders_of(table, fv)) by {
        assert forall|j: int| 0 <= j < fv.len() implies #[trigger] binders_of(other, fv2)[j] == binders_of(
            table,
            fv,
        )[j] by {
            lemma_distinct_from_leaves(ls, sel, ls.len(), j);
            let i = choose|i: int| 0 <= i < ls.len() && (#[trigger] ls[i]).0 == fv[j];
            assert(fv2[j] == rename_var(r, fv[j]));
            assert(var_of(leaves(t, 0)[i].0) is Some);
        }
    }
}

} // verus!
