//! Unification is complete on terms without binders: where any
//! substitution makes two terms equal, unification does not fail.

use vstd::prelude::*;
use crate::symbol::Head;
use crate::symbol::Kind;
use crate::symbol::child_depth;
use crate::term::SpecTerm;
use crate::term::leaves;
use crate::term::leaves_prefix;
use crate::term::size;
use crate::term::size_prefix;
use crate::fold::compose;
use crate::fold::fold;
use crate::fold::fold_all;
use crate::fold::lemma_contains_concat;
use crate::fold::lemma_fold_args;
use crate::fold::lemma_fold_compose;
use crate::fold::lemma_fold_ext;
use crate::fold::lemma_fold_leaves;
use crate::fold::lemma_leaves_deeper;
use crate::fold::lemma_leaves_prefix_contains;
use crate::infer::SpecTable;
use crate::infer::normalize;
use crate::infer::resolve;
use crate::unify::SpecUnifier;
use crate::unify::Step;
use crate::unify::Work;
use crate::unify::bind;
use crate::unify::bind_step;
use crate::unify::bind_table;
use crate::unify::bind_work;
use crate::unify::lemma_step_decreases;
use crate::unify::pairs;
use crate::unify::unbound;
use crate::unify::unify_model;
use crate::unify::unify_run;
use crate::unify::unify_step;
use crate::unify::work_size;
use crate::wellformed::in_table;
use crate::wellformed::lemma_bind_table_wf;
use crate::wellformed::lemma_bind_work_free;
use crate::wellformed::lemma_normalize_free;
use crate::wellformed::lemma_step_preserves;
use crate::wellformed::table_wf;
use crate::wellformed::term_free;
use crate::wellformed::work_free;
use crate::unify::closed;
use crate::unify::has_var;
use crate::unify::occurs;
use crate::unify::sort_of;
use crate::unify::universe_of;
use crate::unify::var_of;
use crate::unify::within_universe;
use crate::round_trip::lemma_leaves_are_leaves;
use crate::soundness::lemma_fold_any_depth;

verus! {

/// A substitution: the term that stands for each inference variable.
pub type Subst = spec_fn(usize) -> SpecTerm;

/// A substitution as a leaf rewriting.
pub open spec fn substitution(s: Subst) -> spec_fn(Head, u32) -> SpecTerm {
    |head: Head, depth: u32|
        match var_of(head) {
            Some(v) => s(v),
            None => SpecTerm::atom(head),
        }
}

/// A term under a substitution.
pub open spec fn apply(s: Subst, t: SpecTerm) -> SpecTerm {
    fold(t, substitution(s), 0)
}

/// Whether no node of a term binds.
pub open spec fn no_binders(t: SpecTerm) -> bool
    decreases t, 0nat,
{
    !t.head.binds() && no_binders_prefix(t.args, t.args.len())
}

/// Whether no node of the first `n` terms binds.
pub open spec fn no_binders_prefix(ts: Seq<SpecTerm>, n: nat) -> bool
    decreases ts, n,
{
    if n == 0 || n > ts.len() {
        true
    } else {
        no_binders_prefix(ts, (n - 1) as nat) && no_binders(ts[n - 1])
    }
}

/// Whether a substitution gives every inference variable of a term a
/// value of the sort of the variable.
pub open spec fn agrees(s: Subst, t: SpecTerm) -> bool {
    forall|x: (Head, u32)| #[trigger]
        leaves(t, 0).contains(x) ==> match x.0 {
            Head::InferenceVar { kind, var } => sort_of(s(var).head) == Some(kind),
            _ => true,
        }
}

/// The sub-terms of a term without binders are without binders.
pub proof fn lemma_no_binders_arg(t: SpecTerm, i: int)
    requires
        no_binders(t),
        0 <= i < t.args.len(),
    ensures
        no_binders(t.args[i]),
{
    lemma_no_binders_prefix(t.args, t.args.len(), i);
}

/// Each of the first terms of a list without binders is without binders.
proof fn lemma_no_binders_prefix(ts: Seq<SpecTerm>, n: nat, i: int)
    requires
        no_binders_prefix(ts, n),
        0 <= i < n <= ts.len(),
    ensures
        no_binders(ts[i]),
    decreases n,
{
    if i < n - 1 {
        lemma_no_binders_prefix(ts, (n - 1) as nat, i);
    }
}

/// A list whose terms are without binders is without binders.
proof fn lemma_no_binders_all(ts: Seq<SpecTerm>, n: nat)
    requires
        n <= ts.len(),
        forall|i: int| 0 <= i < n ==> no_binders(#[trigger] ts[i]),
    ensures
        no_binders_prefix(ts, n),
    decreases n,
{
    if n > 0 {
        lemma_no_binders_all(ts, (n - 1) as nat);
    }
}

/// Folding a term without binders by a rewriting whose images are without
/// binders gives a term without binders.
pub proof fn lemma_fold_no_binders(t: SpecTerm, f: spec_fn(Head, u32) -> SpecTerm, depth: u32)
    requires
        no_binders(t),
        forall|h: Head, d: u32| #[trigger] leaves(t, depth).contains((h, d)) ==> no_binders(f(h, d)),
    ensures
        no_binders(fold(t, f, depth)),
    decreases t,
{
    if t.is_leaf() {
        assert(leaves(t, depth)[0] == (t.head, depth));
        assert(leaves(t, depth).contains((t.head, depth)));
    } else {
        let cd = child_depth(t.head, depth);
        lemma_fold_args(t, f, depth);
        let folded = fold_all(t.args, f, cd);
        assert forall|i: int| 0 <= i < folded.len() implies no_binders(#[trigger] folded[i]) by {
            lemma_no_binders_arg(t, i);
            assert forall|h: Head, d: u32| #[trigger]
                leaves(t.args[i], cd).contains((h, d)) implies no_binders(f(h, d)) by {
                lemma_leaves_prefix_contains(t.args, t.args.len(), cd, i, (h, d));
                assert(leaves(t, depth).contains((h, d)));
            }
            lemma_fold_no_binders(t.args[i], f, cd);
        }
        lemma_no_binders_all(folded, folded.len());
    }
}

/// The leaves of the image of a leaf of a term are leaves of the folded term.
pub proof fn lemma_fold_keeps(
    t: SpecTerm,
    f: spec_fn(Head, u32) -> SpecTerm,
    depth: u32,
    h: Head,
    d: u32,
    y: (Head, u32),
)
    requires
        leaves(t, depth).contains((h, d)),
        leaves(f(h, d), d).contains(y),
    ensures
        leaves(fold(t, f, depth), depth).contains(y),
    decreases t, 0nat,
{
    if t.is_leaf() {
        assert(leaves(t, depth) =~= seq![(t.head, depth)]);
    } else {
        let cd = child_depth(t.head, depth);
        lemma_fold_args(t, f, depth);
        lemma_fold_keeps_prefix(t.args, t.args.len(), f, cd, h, d, y);
    }
}

/// The leaves of the image of a leaf of a list are leaves of the folded list.
proof fn lemma_fold_keeps_prefix(
    ts: Seq<SpecTerm>,
    n: nat,
    f: spec_fn(Head, u32) -> SpecTerm,
    depth: u32,
    h: Head,
    d: u32,
    y: (Head, u32),
)
    requires
        n <= ts.len(),
        leaves_prefix(ts, n, depth).contains((h, d)),
        leaves(f(h, d), d).contains(y),
    ensures
        leaves_prefix(fold_all(ts, f, depth), n, depth).contains(y),
    decreases ts, n,
{
    if n == 0 {
        assert(leaves_prefix(ts, n, depth).len() == 0);
    } else {
        let folded = fold_all(ts, f, depth);
        assert(folded[n - 1] == fold(ts[n - 1], f, depth));
        let before = leaves_prefix(ts, (n - 1) as nat, depth);
        let last = leaves(ts[n - 1], depth);
        lemma_contains_concat(before, last, (h, d));
        lemma_contains_concat(leaves_prefix(folded, (n - 1) as nat, depth), leaves(folded[n - 1], depth), y);
        if before.contains((h, d)) {
            lemma_fold_keeps_prefix(ts, (n - 1) as nat, f, depth, h, d, y);
        } else {
            lemma_fold_keeps(ts[n - 1], f, depth, h, d, y);
        }
    }
}

/// The size of a list is at least the size of each of its terms.
proof fn lemma_size_prefix_covers(ts: Seq<SpecTerm>, n: nat, i: int)
    requires
        0 <= i < n <= ts.len(),
    ensures
        size_prefix(ts, n) >= size(ts[i]),
    decreases n,
{
    if i < n - 1 {
        lemma_size_prefix_covers(ts, (n - 1) as nat, i);
    }
}

/// A variable among the leaves of a list is among the leaves of one of its terms.
proof fn lemma_has_var_in_arg(ts: Seq<SpecTerm>, n: nat, depth: u32, var: usize)
    requires
        n <= ts.len(),
        has_var(leaves_prefix(ts, n, depth), var),
    ensures
        exists|i: int| 0 <= i < n && has_var(#[trigger] leaves(ts[i], depth), var),
    decreases n,
{
    if n == 0 {
        assert(leaves_prefix(ts, n, depth).len() == 0);
    } else {
        let before = leaves_prefix(ts, (n - 1) as nat, depth);
        let last = leaves(ts[n - 1], depth);
        let k = choose|k: int| 0 <= k < (before + last).len() && var_of(#[trigger] (before + last)[k].0) == Some(var);
        if k < before.len() {
            assert(var_of(before[k].0) == Some(var));
            lemma_has_var_in_arg(ts, (n - 1) as nat, depth, var);
            let i = choose|i: int| 0 <= i < n - 1 && has_var(#[trigger] leaves(ts[i], depth), var);
            assert(has_var(leaves(ts[i], depth), var));
        } else {
            assert(var_of(last[k - before.len()].0) == Some(var));
            assert(has_var(leaves(ts[n - 1], depth), var));
        }
    }
}

/// A term under a substitution is at least as large as the value of each
/// of its variables, and larger if the term is not the variable.
pub proof fn lemma_apply_size(s: Subst, t: SpecTerm, depth: u32, var: usize)
    requires
        has_var(leaves(t, depth), var),
    ensures
        size(fold(t, substitution(s), depth)) >= size(s(var)),
        !t.is_leaf() ==> size(fold(t, substitution(s), depth)) > size(s(var)),
    decreases t,
{
    if t.is_leaf() {
        assert(leaves(t, depth) =~= seq![(t.head, depth)]);
    } else {
        let cd = child_depth(t.head, depth);
        lemma_fold_args(t, substitution(s), depth);
        lemma_has_var_in_arg(t.args, t.args.len(), cd, var);
        let i = choose|i: int| 0 <= i < t.args.len() && has_var(#[trigger] leaves(t.args[i], cd), var);
        lemma_apply_size(s, t.args[i], cd, var);
        let folded = fold_all(t.args, substitution(s), cd);
        assert(folded[i] == fold(t.args[i], substitution(s), cd));
        lemma_size_prefix_covers(folded, folded.len(), i);
    }
}

/// Where a substitution gives `var` the value that it gives `b`, putting
/// `b` in place of `var` makes no difference under the substitution.
pub proof fn lemma_apply_absorbs_bind(s: Subst, var: usize, b: SpecTerm, x: SpecTerm)
    requires
        s(var) == apply(s, b),
    ensures
        apply(s, fold(x, bind(var, b), 0)) == apply(s, x),
{
    lemma_fold_compose(x, bind(var, b), substitution(s), 0);
    assert forall|h: Head, d: u32| #[trigger] leaves(x, 0).contains((h, d)) implies compose(
        bind(var, b),
        substitution(s),
    )(h, d) == substitution(s)(h, d) by {
        lemma_leaves_are_leaves(x, 0, (h, d));
        if var_of(h) == Some(var) {
            lemma_fold_any_depth(b, substitution(s), d, 0);
        } else {
            assert(SpecTerm::atom(h).is_leaf());
        }
    }
    lemma_fold_ext(x, compose(bind(var, b), substitution(s)), substitution(s), 0);
}

/// Whether a substitution gives every bound variable of a table the value
/// that it gives the value of the variable.
pub open spec fn respects(s: Subst, table: SpecTable) -> bool {
    forall|v: int|
        0 <= v < table.vars.len() && (#[trigger] table.vars[v]).value is Some ==> s(v as usize) == apply(
            s,
            table.vars[v].value->0,
        )
}

/// Where a substitution respects a table, normalizing a term makes no
/// difference under the substitution.
pub proof fn lemma_apply_absorbs_normalize(s: Subst, table: SpecTable, x: SpecTerm)
    requires
        table.vars.len() <= usize::MAX,
        respects(s, table),
    ensures
        apply(s, normalize(table, x)) == apply(s, x),
{
    lemma_fold_compose(x, resolve(table), substitution(s), 0);
    assert forall|h: Head, d: u32| #[trigger] leaves(x, 0).contains((h, d)) implies compose(
        resolve(table),
        substitution(s),
    )(h, d) == substitution(s)(h, d) by {
        lemma_leaves_are_leaves(x, 0, (h, d));
        match h {
            Head::InferenceVar { kind, var } => {
                if table.is_bound(var) {
                    assert(table.vars[var as int].value is Some);
                    lemma_fold_any_depth(table.value(var), substitution(s), d, 0);
                } else {
                    assert(SpecTerm::atom(h).is_leaf());
                }
            },
            _ => {
                assert(SpecTerm::atom(h).is_leaf());
            },
        }
    }
    lemma_fold_ext(x, compose(resolve(table), substitution(s)), substitution(s), 0);
}

/// Whether a substitution gives every variable of a table a value that
/// may stand for it: one without a bound variable that points out of it
/// and without a placeholder of a universe further in than the variable's.
pub open spec fn proper(s: Subst, table: SpecTable) -> bool {
    forall|v: int|
        0 <= v < table.vars.len() ==> closed(s(v as usize)) && within_universe(
            s(v as usize),
            (#[trigger] table.vars[v]).universe,
        )
}

/// Whether a term is one that a substitution can be asked about: without
/// binders, and with variables of the sorts that the substitution gives them.
pub open spec fn plain(s: Subst, t: SpecTerm) -> bool {
    agrees(s, t) && no_binders(t)
}

/// Whether a substitution solves what is left of a unification: it
/// respects the table, and it makes the two terms of every pair of the
/// work equal.
pub open spec fn solves(s: Subst, table: SpecTable, work: Work) -> bool {
    &&& table_wf(table)
    &&& work_free(table, work)
    &&& respects(s, table)
    &&& proper(s, table)
    &&& forall|v: int|
        0 <= v < table.vars.len() && (#[trigger] table.vars[v]).value is Some ==> plain(s, table.vars[v].value->0)
    &&& forall|i: int|
        0 <= i < work.len() ==> apply(s, (#[trigger] work[i]).0) == apply(s, work[i].1) && plain(s, work[i].0)
            && plain(s, work[i].1)
}

/// A term made by putting a plain term in place of a variable of a plain
/// term is plain.
proof fn lemma_bind_plain(s: Subst, x: SpecTerm, var: usize, b: SpecTerm)
    requires
        plain(s, x),
        plain(s, b),
    ensures
        plain(s, fold(x, bind(var, b), 0)),
{
    assert forall|h: Head, d: u32| #[trigger] leaves(x, 0).contains((h, d)) implies no_binders(
        bind(var, b)(h, d),
    ) by {
        lemma_leaves_are_leaves(x, 0, (h, d));
        assert(SpecTerm::atom(h).args.len() == 0);
    }
    lemma_fold_no_binders(x, bind(var, b), 0);
    assert forall|y: (Head, u32)| #[trigger] leaves(fold(x, bind(var, b), 0), 0).contains(y) implies match y.0 {
        Head::InferenceVar { kind, var: w } => sort_of(s(w).head) == Some(kind),
        _ => true,
    } by {
        lemma_fold_leaves(x, bind(var, b), 0, y);
        let (h, d) = choose|h: Head, d: u32| #[trigger]
            leaves(x, 0).contains((h, d)) && leaves(bind(var, b)(h, d), d).contains(y);
        lemma_leaves_are_leaves(x, 0, (h, d));
        if var_of(h) == Some(var) {
            lemma_leaves_deeper(b, 0, d);
            let i = choose|i: int| 0 <= i < leaves(b, d).len() && leaves(b, d)[i] == y;
            assert(leaves(b, 0).contains(leaves(b, 0)[i]));
        } else {
            assert(SpecTerm::atom(h).is_leaf());
            assert(leaves(SpecTerm::atom(h), d) =~= seq![(h, d)]);
        }
    }
}

/// The value of a variable of a term holds no placeholder that the term
/// under the substitution does not hold.
proof fn lemma_value_within(s: Subst, t: SpecTerm, w: usize, u: usize)
    requires
        has_var(leaves(t, 0), w),
        within_universe(apply(s, t), u),
    ensures
        within_universe(s(w), u),
{
    let k = choose|k: int| 0 <= k < leaves(t, 0).len() && var_of(#[trigger] leaves(t, 0)[k].0) == Some(w);
    let (h, d) = leaves(t, 0)[k];
    assert(leaves(t, 0).contains((h, d)));
    lemma_leaves_deeper(s(w), 0, d);
    assert forall|i: int| 0 <= i < leaves(s(w), 0).len() implies match universe_of(
        (#[trigger] leaves(s(w), 0)[i]).0,
    ) {
        Some(v) => v <= u,
        None => true,
    } by {
        let y = leaves(s(w), d)[i];
        assert(leaves(s(w), d).contains(y));
        lemma_fold_keeps(t, substitution(s), 0, h, d, y);
        let j = choose|j: int| 0 <= j < leaves(apply(s, t), 0).len() && leaves(apply(s, t), 0)[j] == y;
        assert(universe_of(leaves(apply(s, t), 0)[j].0) == universe_of(leaves(s(w), 0)[i].0));
    }
}

/// Where a substitution solves what is left and makes a variable equal to
/// a term that is not the variable, the variable is bound to the term and
/// the substitution solves what is left then.
proof fn lemma_bind_complete(
    environment: Seq<SpecTerm>,
    s: Subst,
    st: SpecUnifier,
    rest: Work,
    var: usize,
    kind: Kind,
    t: SpecTerm,
)
    requires
        solves(s, st.table, rest),
        st.table.is_unbound(var),
        term_free(st.table, t),
        plain(s, t),
        s(var) == apply(s, t),
        sort_of(s(var).head) == Some(kind),
        !(t.is_leaf() && var_of(t.head) == Some(var)),
    ensures
        bind_step(environment, st, rest, var, kind, t) is Next,
        solves(
            s,
            bind_step(environment, st, rest, var, kind, t)->Next_0.table,
            bind_step(environment, st, rest, var, kind, t)->Next_1,
        ),
{
    let table = st.table;
    let u = table.vars[var as int].universe;
    // the sort
    if t.is_leaf() {
        assert(leaves(t, 0) =~= seq![(t.head, 0u32)]);
        assert(leaves(t, 0)[0] == (t.head, 0u32));
        assert(leaves(t, 0).contains((t.head, 0u32)));
        assert(t.args =~= Seq::empty());
    } else {
        lemma_fold_args(t, substitution(s), 0);
    }
    assert(sort_of(t.head) == Some(kind));
    // the occurs check
    if occurs(var, t) {
        lemma_apply_size(s, t, 0, var);
        if t.is_leaf() {
            assert(leaves(t, 0)[0] == (t.head, 0u32));
            let k = choose|k: int| 0 <= k < leaves(t, 0).len() && var_of(#[trigger] leaves(t, 0)[k].0) == Some(var);
            assert(k == 0);
        }
        assert(false);
    }
    // no bound variable points out of the term
    assert(closed(s(var)));
    if !closed(t) {
        let k = choose|k: int|
            0 <= k < leaves(t, 0).len() && !(match (#[trigger] leaves(t, 0)[k]).0 {
                Head::BoundVar { kind, depth, index } => depth < leaves(t, 0)[k].1,
                _ => true,
            });
        let (h, d) = leaves(t, 0)[k];
        assert(leaves(t, 0).contains((h, d)));
        assert(leaves(substitution(s)(h, d), d) =~= seq![(h, d)]);
        assert(leaves(substitution(s)(h, d), d)[0] == (h, d));
        assert(leaves(substitution(s)(h, d), d).contains((h, d)));
        lemma_fold_keeps(t, substitution(s), 0, h, d, (h, d));
        let j = choose|j: int| 0 <= j < leaves(apply(s, t), 0).len() && leaves(apply(s, t), 0)[j] == (h, d);
        assert(false);
    }
    // no placeholder is of a universe further in
    assert(within_universe(s(var), u));
    if !within_universe(t, u) {
        let k = choose|k: int|
            0 <= k < leaves(t, 0).len() && !(match universe_of((#[trigger] leaves(t, 0)[k]).0) {
                Some(v) => v <= u,
                None => true,
            });
        let (h, d) = leaves(t, 0)[k];
        assert(leaves(t, 0).contains((h, d)));
        assert(leaves(substitution(s)(h, d), d) =~= seq![(h, d)]);
        assert(leaves(substitution(s)(h, d), d)[0] == (h, d));
        assert(leaves(substitution(s)(h, d), d).contains((h, d)));
        lemma_fold_keeps(t, substitution(s), 0, h, d, (h, d));
        let j = choose|j: int| 0 <= j < leaves(apply(s, t), 0).len() && leaves(apply(s, t), 0)[j] == (h, d);
        assert(false);
    }
    let t2 = bind_table(table, var, t);
    let w2 = bind_work(rest, var, t);
    assert(bind_step(environment, st, rest, var, kind, t)->Next_0.table == t2);
    assert(bind_step(environment, st, rest, var, kind, t)->Next_1 == w2);
    lemma_bind_table_wf(table, var, t);
    lemma_bind_work_free(table, rest, var, t);
    assert(respects(s, t2)) by {
        assert forall|v: int| 0 <= v < t2.vars.len() && (#[trigger] t2.vars[v]).value is Some implies s(
            v as usize,
        ) == apply(s, t2.vars[v].value->0) by {
            if v != var {
                assert(table.vars[v].value is Some);
                lemma_apply_absorbs_bind(s, var, t, table.vars[v].value->0);
            }
        }
    }
    assert(proper(s, t2)) by {
        assert forall|v: int| 0 <= v < t2.vars.len() implies closed(s(v as usize)) && within_universe(
            s(v as usize),
            (#[trigger] t2.vars[v]).universe,
        ) by {
            assert(closed(s(v as usize)) && within_universe(s(v as usize), table.vars[v].universe));
            if v != var && has_var(leaves(t, 0), v as usize) {
                lemma_value_within(s, t, v as usize, u);
            }
        }
    }
    assert forall|v: int| 0 <= v < t2.vars.len() && (#[trigger] t2.vars[v]).value is Some implies plain(
        s,
        t2.vars[v].value->0,
    ) by {
        if v != var {
            assert(table.vars[v].value is Some);
            lemma_bind_plain(s, table.vars[v].value->0, var, t);
        }
    }
    assert forall|i: int| 0 <= i < w2.len() implies apply(s, (#[trigger] w2[i]).0) == apply(s, w2[i].1) && plain(
        s,
        w2[i].0,
    ) && plain(s, w2[i].1) by {
        assert(apply(s, rest[i].0) == apply(s, rest[i].1));
        lemma_apply_absorbs_bind(s, var, t, rest[i].0);
        lemma_apply_absorbs_bind(s, var, t, rest[i].1);
        lemma_bind_plain(s, rest[i].0, var, t);
        lemma_bind_plain(s, rest[i].1, var, t);
    }
}

/// The sub-terms of a plain term are plain.
proof fn lemma_arg_plain(s: Subst, t: SpecTerm, i: int)
    requires
        plain(s, t),
        0 <= i < t.args.len(),
    ensures
        plain(s, t.args[i]),
{
    lemma_no_binders_arg(t, i);
    assert(!t.is_leaf());
    assert forall|y: (Head, u32)| #[trigger] leaves(t.args[i], 0).contains(y) implies match y.0 {
        Head::InferenceVar { kind, var } => sort_of(s(var).head) == Some(kind),
        _ => true,
    } by {
        lemma_leaves_prefix_contains(t.args, t.args.len(), child_depth(t.head, 0), i, y);
        assert(leaves(t, 0).contains(y));
    }
}

/// A term that is no inference variable keeps its symbol and the number
/// of its sub-terms under a substitution.
proof fn lemma_apply_shape(s: Subst, t: SpecTerm)
    requires
        !(t.is_leaf() && t.head is InferenceVar),
    ensures
        apply(s, t).head == t.head,
        apply(s, t).args.len() == t.args.len(),
{
    if !t.is_leaf() {
        lemma_fold_args(t, substitution(s), 0);
    }
}

/// Where a substitution solves what is left of a unification, the next
/// step does not fail, and the substitution solves what is left then.
proof fn lemma_step_complete(environment: Seq<SpecTerm>, s: Subst, st: SpecUnifier, work: Work)
    requires
        work.len() > 0,
        solves(s, st.table, work),
    ensures
        unify_step(environment, st, work) is Next,
        solves(s, unify_step(environment, st, work)->Next_0.table, unify_step(environment, st, work)->Next_1),
{
    let (a, b) = work.last();
    let rest = work.drop_last();
    let last = work[work.len() - 1];
    assert(apply(s, a) == apply(s, b) && plain(s, a) && plain(s, b));
    assert(term_free(st.table, last.0) && term_free(st.table, last.1));
    assert(solves(s, st.table, rest)) by {
        assert forall|i: int| 0 <= i < rest.len() implies term_free(st.table, (#[trigger] rest[i]).0)
            && term_free(st.table, rest[i].1) by {
            assert(rest[i] == work[i]);
        }
        assert forall|i: int| 0 <= i < rest.len() implies apply(s, (#[trigger] rest[i]).0) == apply(
            s,
            rest[i].1,
        ) && plain(s, rest[i].0) && plain(s, rest[i].1) by {
            assert(rest[i] == work[i]);
        }
    }
    if a == b {
    } else if sort_of(a.head) == Some(Kind::Ty) && sort_of(b.head) == Some(Kind::Ty) && a.head.is_alias()
        && a.args.len() == 1 {
    } else if sort_of(a.head) == Some(Kind::Ty) && sort_of(b.head) == Some(Kind::Ty) && b.head.is_alias()
        && b.args.len() == 1 {
    } else if a.is_leaf() && a.head is InferenceVar {
        let var = var_of(a.head)->0;
        let kind = sort_of(a.head)->0;
        assert(leaves(a, 0) =~= seq![(a.head, 0u32)]);
        assert(leaves(a, 0)[0] == (a.head, 0u32));
        assert(leaves(a, 0).contains((a.head, 0u32)));
        if b.is_leaf() && var_of(b.head) == Some(var) {
            assert(leaves(b, 0) =~= seq![(b.head, 0u32)]);
            assert(leaves(b, 0)[0] == (b.head, 0u32));
            assert(leaves(b, 0).contains((b.head, 0u32)));
            assert(a.args =~= b.args);
            assert(false);
        }
        lemma_bind_complete(environment, s, st, rest, var, kind, b);
    } else if b.is_leaf() && b.head is InferenceVar {
        let var = var_of(b.head)->0;
        let kind = sort_of(b.head)->0;
        assert(leaves(b, 0) =~= seq![(b.head, 0u32)]);
        assert(leaves(b, 0)[0] == (b.head, 0u32));
        assert(leaves(b, 0).contains((b.head, 0u32)));
        lemma_bind_complete(environment, s, st, rest, var, kind, a);
    } else if sort_of(a.head) == Some(Kind::Lifetime) && sort_of(b.head) == Some(Kind::Lifetime) {
    } else {
        lemma_apply_shape(s, a);
        lemma_apply_shape(s, b);
        assert(a.head == b.head && a.args.len() == b.args.len() && !a.head.binds());
        lemma_step_preserves(environment, st, work);
        let w2 = rest + pairs(a.args, b.args);
        assert forall|i: int| 0 <= i < w2.len() implies apply(s, (#[trigger] w2[i]).0) == apply(s, w2[i].1)
            && plain(s, w2[i].0) && plain(s, w2[i].1) by {
            if i < rest.len() {
                assert(w2[i] == rest[i]);
            } else {
                let j = i - rest.len();
                assert(w2[i] == (a.args[j], b.args[j]));
                lemma_fold_args(a, substitution(s), 0);
                lemma_fold_args(b, substitution(s), 0);
                assert(apply(s, a).args[j] == apply(s, a.args[j]));
                assert(apply(s, b).args[j] == apply(s, b.args[j]));
                lemma_arg_plain(s, a, j);
                lemma_arg_plain(s, b, j);
            }
        }
    }
}

/// Where a substitution solves what is left of a unification, the
/// unification does not fail.
proof fn lemma_run_complete(environment: Seq<SpecTerm>, s: Subst, st: SpecUnifier, work: Work)
    requires
        solves(s, st.table, work),
    ensures
        unify_run(environment, st, work) is Some,
    decreases unbound(st.table), work_size(work, work.len()),
{
    if work.len() > 0 {
        lemma_step_complete(environment, s, st, work);
        lemma_step_decreases(environment, st, work);
        match unify_step(environment, st, work) {
            Step::Fail => {},
            Step::Next(st2, work2) => {
                lemma_run_complete(environment, s, st2, work2);
            },
        }
    }
}

/// A normalized plain term is plain, in a table whose values are plain.
proof fn lemma_normalize_plain(s: Subst, table: SpecTable, x: SpecTerm)
    requires
        plain(s, x),
        forall|v: int|
            0 <= v < table.vars.len() && (#[trigger] table.vars[v]).value is Some ==> plain(
                s,
                table.vars[v].value->0,
            ),
    ensures
        plain(s, normalize(table, x)),
{
    assert forall|h: Head, d: u32| #[trigger] leaves(x, 0).contains((h, d)) implies no_binders(
        resolve(table)(h, d),
    ) by {
        lemma_leaves_are_leaves(x, 0, (h, d));
        assert(SpecTerm::atom(h).args.len() == 0);
        match h {
            Head::InferenceVar { kind, var } => {
                if table.is_bound(var) {
                    assert(table.vars[var as int].value is Some);
                }
            },
            _ => {},
        }
    }
    lemma_fold_no_binders(x, resolve(table), 0);
    assert forall|y: (Head, u32)| #[trigger] leaves(normalize(table, x), 0).contains(y) implies match y.0 {
        Head::InferenceVar { kind, var } => sort_of(s(var).head) == Some(kind),
        _ => true,
    } by {
        lemma_fold_leaves(x, resolve(table), 0, y);
        let (h, d) = choose|h: Head, d: u32| #[trigger]
            leaves(x, 0).contains((h, d)) && leaves(resolve(table)(h, d), d).contains(y);
        lemma_leaves_are_leaves(x, 0, (h, d));
        match h {
            Head::InferenceVar { kind, var } => {
                if table.is_bound(var) {
                    let val = table.value(var);
                    assert(table.vars[var as int].value is Some);
                    lemma_leaves_deeper(val, 0, d);
                    let i = choose|i: int| 0 <= i < leaves(val, d).len() && leaves(val, d)[i] == y;
                    assert(leaves(val, 0).contains(leaves(val, 0)[i]));
                } else {
                    assert(leaves(SpecTerm::atom(h), d) =~= seq![(h, d)]);
                }
            },
            _ => {
                assert(SpecTerm::atom(h).is_leaf());
                assert(leaves(SpecTerm::atom(h), d) =~= seq![(h, d)]);
            },
        }
    }
}

/// Unification is complete on terms without binders: where a substitution
/// makes two terms over the variables of a well-formed table equal,
/// unification succeeds. The substitution is one that respects the
/// bindings of the table, gives every variable a value of its sort that a
/// variable of its universe may have, and the terms and the values of the
/// table are without binders.
pub proof fn lemma_unify_complete(
    environment: Seq<SpecTerm>,
    table: SpecTable,
    a: SpecTerm,
    b: SpecTerm,
    s: Subst,
)
    requires
        table_wf(table),
        in_table(table, a),
        in_table(table, b),
        respects(s, table),
        proper(s, table),
        forall|v: int|
            0 <= v < table.vars.len() && (#[trigger] table.vars[v]).value is Some ==> plain(
                s,
                table.vars[v].value->0,
            ),
        plain(s, a),
        plain(s, b),
        apply(s, a) == apply(s, b),
    ensures
        unify_model(environment, table, a, b) is Some,
{
    let st = SpecUnifier { table, goals: Seq::empty(), constraints: Seq::empty() };
    let work: Work = seq![(normalize(table, a), normalize(table, b))];
    lemma_normalize_free(table, a);
    lemma_normalize_free(table, b);
    lemma_apply_absorbs_normalize(s, table, a);
    lemma_apply_absorbs_normalize(s, table, b);
    lemma_normalize_plain(s, table, a);
    lemma_normalize_plain(s, table, b);
    assert(solves(s, table, work));
    lemma_run_complete(environment, s, st, work);
}

} // verus!
