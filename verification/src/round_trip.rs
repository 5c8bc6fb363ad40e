//! Canonical forms are stable: opening a canonical form with fresh
//! variables and canonicalizing again gives the same canonical form.

use vstd::prelude::*;
use crate::symbol::Head;
use crate::term::SpecTerm;
use crate::term::leaves;
use crate::term::leaves_prefix;
use crate::fold::compose;
use crate::fold::fold;
use crate::fold::lemma_contains_concat;
use crate::fold::lemma_fold_compose;
use crate::fold::lemma_fold_ext;
use crate::fold::lemma_leaves_of_fold;
use crate::fold::map_leaves;
use crate::infer::CanonicalVarKind;
use crate::infer::SpecTable;
use crate::infer::SpecVar;
use crate::infer::fresh_params;
use crate::infer::instantiate;
use crate::infer::normalize;
use crate::infer::resolve;
use crate::unify::var_of;
use crate::canonicalize::Selector;
use crate::canonicalize::abstraction;
use crate::canonicalize::binders_of;
use crate::canonicalize::canonicalize_model;
use crate::canonicalize::distinct;
use crate::canonicalize::free_vars;
use crate::canonicalize::key_of;
use crate::canonicalize::kind_of;
use crate::canonicalize::lemma_position_bounds;
use crate::canonicalize::position;
use crate::canonicalize::position_upto;

verus! {

/// Every leaf is headed by a variable symbol.
pub proof fn lemma_leaves_are_leaves(t: SpecTerm, depth: u32, x: (Head, u32))
    requires
        leaves(t, depth).contains(x),
    ensures
        x.0.is_leaf(),
    decreases t, 0nat,
{
    if t.is_leaf() {
        assert(leaves(t, depth) =~= seq![(t.head, depth)]);
    } else {
        lemma_leaves_prefix_are_leaves(t.args, t.args.len(), crate::symbol::child_depth(t.head, depth), x);
    }
}

/// Every leaf of a list of terms is headed by a variable symbol.
proof fn lemma_leaves_prefix_are_leaves(ts: Seq<SpecTerm>, n: nat, depth: u32, x: (Head, u32))
    requires
        leaves_prefix(ts, n, depth).contains(x),
    ensures
        x.0.is_leaf(),
    decreases ts, n,
{
    if n == 0 || n > ts.len() {
        assert(leaves_prefix(ts, n, depth).len() == 0);
    } else {
        lemma_contains_concat(leaves_prefix(ts, (n - 1) as nat, depth), leaves(ts[n - 1], depth), x);
        if leaves_prefix(ts, (n - 1) as nat, depth).contains(x) {
            lemma_leaves_prefix_are_leaves(ts, (n - 1) as nat, depth, x);
        } else {
            lemma_leaves_are_leaves(ts[n - 1], depth, x);
        }
    }
}

/// Lists that agree on their first symbols agree on the position of a key among them.
proof fn lemma_position_agrees(
    a: Seq<Head>,
    b: Seq<Head>,
    sel: Selector,
    key: (usize, usize),
    n: nat,
)
    requires
        n <= a.len(),
        n <= b.len(),
        forall|i: int| 0 <= i < n ==> a[i] == b[i],
    ensures
        position_upto(a, sel, key, n) == position_upto(b, sel, key, n),
    decreases n,
{
    if n > 0 {
        lemma_position_agrees(a, b, sel, key, (n - 1) as nat);
    }
}

/// The first position of a key in a list with one more symbol.
pub proof fn lemma_position_push(hs: Seq<Head>, sel: Selector, key: (usize, usize), x: Head)
    ensures
        position(hs.push(x), sel, key) == match position(hs, sel, key) {
            Some(i) => Some(i),
            None => if key_of(sel, x) == Some(key) {
                Some(hs.len() as int)
            } else {
                None
            },
        },
{
    lemma_position_agrees(hs.push(x), hs, sel, key, hs.len());
}

/// The symbols told apart so far stay where they are as more leaves are read.
pub proof fn lemma_distinct_extends(ls: Seq<(Head, u32)>, sel: Selector, k: nat, n: nat)
    requires
        k <= n <= ls.len(),
    ensures
        distinct(ls, sel, k).len() <= distinct(ls, sel, n).len(),
        forall|j: int| 0 <= j < distinct(ls, sel, k).len() ==> distinct(ls, sel, n)[j] == distinct(ls, sel, k)[j],
    decreases n,
{
    if n > k {
        lemma_distinct_extends(ls, sel, k, (n - 1) as nat);
    }
}

/// A key found among the symbols told apart so far stays at its position.
pub proof fn lemma_distinct_stable(ls: Seq<(Head, u32)>, sel: Selector, k: nat, n: nat, key: (usize, usize))
    requires
        k <= n <= ls.len(),
        position(distinct(ls, sel, k), sel, key) is Some,
    ensures
        position(distinct(ls, sel, n), sel, key) == position(distinct(ls, sel, k), sel, key),
    decreases n,
{
    if n > k {
        lemma_distinct_stable(ls, sel, k, (n - 1) as nat, key);
        let before = distinct(ls, sel, (n - 1) as nat);
        lemma_position_push(before, sel, key, ls[n - 1].0);
    }
}

/// Every key among the leaves read is among the symbols told apart.
pub proof fn lemma_distinct_covers(ls: Seq<(Head, u32)>, sel: Selector, n: nat, i: int, key: (usize, usize))
    requires
        0 <= i < n <= ls.len(),
        key_of(sel, ls[i].0) == Some(key),
    ensures
        position(distinct(ls, sel, n), sel, key) is Some,
    decreases n,
{
    let before = distinct(ls, sel, (n - 1) as nat);
    lemma_position_push(before, sel, key, ls[n - 1].0);
    if i < n - 1 {
        lemma_distinct_covers(ls, sel, (n - 1) as nat, i, key);
        match key_of(sel, ls[n - 1].0) {
            Some(other) => {
                lemma_position_push(before, sel, other, ls[n - 1].0);
            },
            None => {},
        }
    }
}

/// The fresh variables that stand for the symbols `hs`: the `j`-th is
/// numbered `base + j` and has the sort of the `j`-th symbol.
pub open spec fn renamed(hs: Seq<Head>, base: nat) -> Seq<Head> {
    Seq::new(hs.len(), |j: int| Head::InferenceVar { kind: kind_of(hs[j]), var: (base + j) as usize })
}

/// The fresh variable numbered `base + p` stands at position `p` among the fresh variables.
proof fn lemma_renamed_position(hs: Seq<Head>, base: nat, p: nat, n: nat)
    requires
        base + hs.len() <= usize::MAX,
        base + p <= usize::MAX,
        n <= hs.len(),
    ensures
        position_upto(renamed(hs, base), Selector::Var, ((base + p) as usize, 0usize), n) == if p < n {
            Some(p as int)
        } else {
            None
        },
    decreases n,
{
    if n > 0 {
        lemma_renamed_position(hs, base, p, (n - 1) as nat);
    }
}

/// How the leaves `ls2` rename the leaves `ls`: an inference variable
/// becomes the fresh variable of its position among `fv`, and no other leaf
/// becomes an inference variable.
pub open spec fn renames(ls: Seq<(Head, u32)>, ls2: Seq<(Head, u32)>, fv: Seq<Head>, base: nat) -> bool {
    &&& ls2.len() == ls.len()
    &&& forall|i: int|
        0 <= i < ls.len() ==> match var_of(#[trigger] ls[i].0) {
            Some(v) => {
                &&& position(fv, Selector::Var, (v, 0usize)) is Some
                &&& ls2[i].0 == Head::InferenceVar {
                    kind: kind_of(fv[position(fv, Selector::Var, (v, 0usize))->0]),
                    var: (base + position(fv, Selector::Var, (v, 0usize))->0) as usize,
                }
            },
            None => var_of(ls2[i].0) is None,
        }
}

/// The variables told apart among renamed leaves are the renamed
/// variables told apart among the leaves.
pub proof fn lemma_distinct_renamed(ls: Seq<(Head, u32)>, ls2: Seq<(Head, u32)>, base: nat, k: nat)
    requires
        k <= ls.len(),
        base + distinct(ls, Selector::Var, ls.len()).len() <= usize::MAX,
        renames(ls, ls2, distinct(ls, Selector::Var, ls.len()), base),
    ensures
        distinct(ls2, Selector::Var, k) == renamed(distinct(ls, Selector::Var, k), base),
    decreases k,
{
    let sel = Selector::Var;
    let fv = distinct(ls, sel, ls.len());
    if k == 0 {
        assert(distinct(ls2, sel, k) =~= renamed(distinct(ls, sel, k), base));
    } else {
        lemma_distinct_renamed(ls, ls2, base, (k - 1) as nat);
        let before = distinct(ls, sel, (k - 1) as nat);
        let before2 = distinct(ls2, sel, (k - 1) as nat);
        let h = ls[k - 1].0;
        lemma_distinct_extends(ls, sel, (k - 1) as nat, ls.len());
        lemma_distinct_extends(ls, sel, k, ls.len());
        match var_of(h) {
            None => {
                assert(key_of(sel, h) is None);
                assert(key_of(sel, ls2[k - 1].0) is None);
            },
            Some(v) => {
                let key = (v, 0usize);
                assert(key_of(sel, h) == Some(key));
                let p = position(fv, sel, key)->0;
                lemma_position_bounds(fv, sel, key, fv.len());
                let key2 = ((base + p) as usize, 0usize);
                assert(key_of(sel, ls2[k - 1].0) == Some(key2));
                lemma_position_push(before, sel, key, h);
                lemma_renamed_position(before, base, p as nat, before.len());
                if position(before, sel, key) is Some {
                    lemma_distinct_stable(ls, sel, (k - 1) as nat, ls.len(), key);
                    lemma_position_bounds(before, sel, key, before.len());
                } else {
                    lemma_distinct_stable(ls, sel, k, ls.len(), key);
                    assert(p == before.len());
                    assert(fv[p] == distinct(ls, sel, k)[p]);
                    assert(distinct(ls2, sel, k) =~= renamed(distinct(ls, sel, k), base));
                }
            },
        }
    }
}

/// Fresh variables come behind the variables of the table, unbound, each in its universe.
proof fn lemma_with_variables(table: SpecTable, binders: Seq<CanonicalVarKind>, k: nat)
    requires
        k <= binders.len(),
    ensures
        table.with_variables(binders, k).vars.len() == table.vars.len() + k,
        table.with_variables(binders, k).max_universe == table.max_universe,
        forall|i: int| 0 <= i < table.vars.len() ==> table.with_variables(binders, k).vars[i] == table.vars[i],
        forall|j: int|
            0 <= j < k ==> table.with_variables(binders, k).vars[table.vars.len() + j] == (SpecVar {
                universe: binders[j].universe,
                value: None,
            }),
    decreases k,
{
    if k > 0 {
        lemma_with_variables(table, binders, (k - 1) as nat);
    }
}

/// Whether no bound variable among the leaves stands at the largest depth.
pub open spec fn below_largest_depth(ls: Seq<(Head, u32)>) -> bool {
    forall|i: int|
        0 <= i < ls.len() ==> match (#[trigger] ls[i]).0 {
            Head::BoundVar { kind, depth, index } => depth < u32::MAX,
            _ => true,
        }
}

/// Canonicalization round trip: the canonical form of a term, opened with
/// fresh inference variables and canonicalized again in the table that
/// holds them, is the same canonical form, with the same binders.
///
/// The term may hold any variables; the table must have room for the fresh
/// ones, and no bound variable may stand at the largest depth there is.
pub proof fn lemma_canonicalize_round_trip(table: SpecTable, t: SpecTerm)
    requires
        table.vars.len() + free_vars(table, t).len() <= usize::MAX,
        below_largest_depth(leaves(normalize(table, t), 0)),
    ensures
        ({
            let c = canonicalize_model(table, t).quantified;
            canonicalize_model(
                table.with_variables(c.binders, c.binders.len()),
                fold(c.value, instantiate(fresh_params(c.binders, table.vars.len())), 0),
            ).quantified == c
        }),
{
    let sel = Selector::Var;
    let n = normalize(table, t);
    let ls = leaves(n, 0);
    let fv = distinct(ls, sel, ls.len());
    let base = table.vars.len();
    let binders = binders_of(table, fv);
    let params = fresh_params(binders, base);
    let opened = table.with_variables(binders, binders.len());
    let f = abstraction(fv);
    let g = instantiate(params);
    let r = resolve(opened);
    let m = compose(compose(f, g), r);
    let c = canonicalize_model(table, t).quantified;
    assert(c.value == fold(n, f, 0));
    assert(c.binders == binders);
    let t2 = fold(c.value, g, 0);
    let n2 = normalize(opened, t2);
    lemma_fold_compose(n, f, g, 0);
    lemma_fold_compose(n, compose(f, g), r, 0);
    assert(n2 == fold(n, m, 0));
    lemma_with_variables(table, binders, binders.len());

    // what the renaming makes of each leaf
    assert forall|h: Head, d: u32| #[trigger] ls.contains((h, d)) implies m(h, d).is_leaf() && match var_of(h) {
        Some(v) => {
            &&& position(fv, sel, (v, 0usize)) is Some
            &&& m(h, d) == SpecTerm::atom(
                Head::InferenceVar {
                    kind: kind_of(fv[position(fv, sel, (v, 0usize))->0]),
                    var: (base + position(fv, sel, (v, 0usize))->0) as usize,
                },
            )
        },
        None => var_of(m(h, d).head) is None,
    } by {
        lemma_leaves_are_leaves(n, 0, (h, d));
        let i = choose|i: int| 0 <= i < ls.len() && ls[i] == (h, d);
        match h {
            Head::InferenceVar { kind, var } => {
                lemma_distinct_covers(ls, sel, ls.len(), i, (var, 0usize));
                lemma_position_bounds(fv, sel, (var, 0usize), fv.len());
                let p = position(fv, sel, (var, 0usize))->0;
                let bound = Head::BoundVar { kind: kind_of(fv[p]), depth: d, index: p as usize };
                assert(f(h, d) == SpecTerm::atom(bound));
                assert(compose(f, g)(h, d) == g(bound, d));
                assert(g(bound, d) == params[p]);
                let fresh = Head::InferenceVar { kind: kind_of(fv[p]), var: (base + p) as usize };
                assert(params[p] == SpecTerm::atom(fresh));
                assert(m(h, d) == r(fresh, d));
                assert(opened.vars[base + p].value is None);
            },
            Head::Placeholder { kind, universe, index } => {
                assert(f(h, d) == SpecTerm::atom(h));
                assert(compose(f, g)(h, d) == g(h, d));
                assert(m(h, d) == r(h, d));
            },
            Head::BoundVar { kind, depth, index } => {
                assert(depth < u32::MAX);
                if depth >= d {
                    let up = Head::BoundVar { kind, depth: (depth + 1) as u32, index };
                    assert(f(h, d) == SpecTerm::atom(up));
                    assert(compose(f, g)(h, d) == g(up, d));
                    assert(g(up, d) == SpecTerm::atom(h));
                    assert(m(h, d) == r(h, d));
                } else {
                    assert(f(h, d) == SpecTerm::atom(h));
                    assert(compose(f, g)(h, d) == g(h, d));
                    assert(m(h, d) == r(h, d));
                }
            },
            _ => {},
        }
    }
    lemma_leaves_of_fold(n, m, 0);
    let ls2 = leaves(n2, 0);
    assert(ls2 == map_leaves(ls, m));
    assert(renames(ls, ls2, fv, base)) by {
        assert forall|i: int| 0 <= i < ls.len() implies match var_of(#[trigger] ls[i].0) {
            Some(v) => {
                &&& position(fv, sel, (v, 0usize)) is Some
                &&& ls2[i].0 == Head::InferenceVar {
                    kind: kind_of(fv[position(fv, sel, (v, 0usize))->0]),
                    var: (base + position(fv, sel, (v, 0usize))->0) as usize,
                }
            },
            None => var_of(ls2[i].0) is None,
        } by {
            assert(ls.contains((ls[i].0, ls[i].1)));
        }
    }
    lemma_distinct_renamed(ls, ls2, base, ls.len());
    let fv2 = distinct(ls2, sel, ls2.len());
    assert(fv2 == renamed(fv, base));
    let a2 = abstraction(fv2);
    let c2 = canonicalize_model(opened, t2).quantified;
    assert(c2.value == fold(n2, a2, 0));
    lemma_fold_compose(n, m, a2, 0);
    assert forall|h: Head, d: u32| #[trigger] ls.contains((h, d)) implies compose(m, a2)(h, d) == f(h, d) by {
        lemma_leaves_are_leaves(n, 0, (h, d));
        assert(m(h, d).is_leaf());
        assert(compose(m, a2)(h, d) == a2(m(h, d).head, d));
        match h {
            Head::InferenceVar { kind, var } => {
                lemma_position_bounds(fv, sel, (var, 0usize), fv.len());
                let p = position(fv, sel, (var, 0usize))->0;
                lemma_renamed_position(fv, base, p as nat, fv.len());
                assert(kind_of(fv2[p]) == kind_of(fv[p]));
            },
            Head::Placeholder { kind, universe, index } => {
                assert(f(h, d) == SpecTerm::atom(h));
                assert(compose(f, g)(h, d) == g(h, d));
                assert(m(h, d) == r(h, d));
            },
            Head::BoundVar { kind, depth, index } => {
                let i = choose|i: int| 0 <= i < ls.len() && ls[i] == (h, d);
                assert(depth < u32::MAX);
                if depth >= d {
                    let up = Head::BoundVar { kind, depth: (depth + 1) as u32, index };
                    assert(f(h, d) == SpecTerm::atom(up));
                    assert(compose(f, g)(h, d) == g(up, d));
                    assert(g(up, d) == SpecTerm::atom(h));
                    assert(m(h, d) == r(h, d));
                } else {
                    assert(f(h, d) == SpecTerm::atom(h));
                    assert(compose(f, g)(h, d) == g(h, d));
                    assert(m(h, d) == r(h, d));
                }
            },
            _ => {},
        }
    }
    lemma_fold_ext(n, compose(m, a2), f, 0);
    assert(c2.value == c.value);
    assert(c2.binders =~= c.binders) by {
        assert forall|j: int| 0 <= j < fv.len() implies #[trigger] binders_of(opened, fv2)[j] == binders[j] by {
            assert(fv2[j] == Head::InferenceVar { kind: kind_of(fv[j]), var: (base + j) as usize });
            assert(opened.vars[base + j].universe == binders[j].universe);
        }
    }
}

} // verus!
