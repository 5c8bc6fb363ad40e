//! Well-formed tables: what holds of every table that is made from an
//! empty one by fresh variables, new universes and unification.

use vstd::prelude::*;
use crate::symbol::Head;
use crate::symbol::child_depth;
use crate::term::SpecTerm;
use crate::term::leaves;
use crate::fold::fold;
use crate::fold::lemma_fold_leaves;
use crate::fold::lemma_leaves_deeper;
use crate::fold::lemma_leaves_prefix_contains;
use crate::infer::SpecTable;
use crate::infer::normalize;
use crate::infer::resolve;
use crate::unify::SpecUnifier;
use crate::unify::Step;
use crate::unify::Work;
use crate::unify::bind;
use crate::unify::bind_table;
use crate::unify::bind_work;
use crate::unify::closed;
use crate::unify::has_var;
use crate::unify::lemma_step_decreases;
use crate::unify::occurs;
use crate::unify::pairs;
use crate::unify::unbound;
use crate::unify::unify_model;
use crate::unify::unify_run;
use crate::unify::unify_step;
use crate::unify::var_of;
use crate::unify::within_universe;
use crate::unify::work_size;
use crate::round_trip::lemma_leaves_are_leaves;

verus! {

/// Whether a leaf may stand in the value of a variable of universe `u`:
/// an inference variable is one of the table, not bound and of universe
/// `u` or one further out, a placeholder is of universe `u` or one further out, and a bound
/// variable is bound within the value.
pub open spec fn leaf_ok(table: SpecTable, u: usize, x: (Head, u32)) -> bool {
    match x.0 {
        Head::InferenceVar { kind, var } => table.is_unbound(var) && table.vars[var as int].universe <= u,
        Head::Placeholder { kind, universe, index } => universe <= u,
        Head::BoundVar { kind, depth, index } => depth < x.1,
        _ => true,
    }
}

/// Whether a term may be the value of a variable of universe `u`.
pub open spec fn value_ok(table: SpecTable, u: usize, t: SpecTerm) -> bool {
    forall|x: (Head, u32)| #[trigger] leaves(t, 0).contains(x) ==> leaf_ok(table, u, x)
}

/// Whether a table is well-formed: the value of every bound variable
/// holds no bound variable of the table, no variable and no placeholder of
/// a universe further in than that of the variable, and no bound variable
/// that points out of it.
pub open spec fn table_wf(table: SpecTable) -> bool {
    &&& table.vars.len() <= usize::MAX
    &&& forall|v: int|
        0 <= v < table.vars.len() && (#[trigger] table.vars[v]).value is Some ==> value_ok(
            table,
            table.vars[v].universe,
            table.vars[v].value->0,
        )
}

/// Whether every inference variable of a term is an unbound variable of
/// the table.
pub open spec fn term_free(table: SpecTable, t: SpecTerm) -> bool {
    forall|x: (Head, u32)| #[trigger]
        leaves(t, 0).contains(x) ==> match var_of(x.0) {
            Some(w) => table.is_unbound(w),
            None => true,
        }
}

/// Whether every inference variable of a term is a variable of the table.
pub open spec fn in_table(table: SpecTable, t: SpecTerm) -> bool {
    forall|x: (Head, u32)| #[trigger]
        leaves(t, 0).contains(x) ==> match var_of(x.0) {
            Some(w) => w < table.vars.len(),
            None => true,
        }
}

/// Whether every inference variable of the work is an unbound variable of
/// the table.
pub open spec fn work_free(table: SpecTable, work: Work) -> bool {
    forall|i: int| 0 <= i < work.len() ==> term_free(table, (#[trigger] work[i]).0) && term_free(table, work[i].1)
}

/// A table without variables is well-formed.
pub proof fn lemma_empty_table_wf(table: SpecTable)
    requires
        table.vars.len() == 0,
    ensures
        table_wf(table),
{
}

/// A fresh variable keeps a table well-formed.
pub proof fn lemma_with_variable_wf(table: SpecTable, universe: usize)
    requires
        table_wf(table),
        table.vars.len() < usize::MAX,
    ensures
        table_wf(table.with_variable(universe)),
{
    let t2 = table.with_variable(universe);
    assert forall|v: int| 0 <= v < t2.vars.len() && (#[trigger] t2.vars[v]).value is Some implies value_ok(
        t2,
        t2.vars[v].universe,
        t2.vars[v].value->0,
    ) by {
        assert(t2.vars[v] == table.vars[v]);
        let val = table.vars[v].value->0;
        assert forall|x: (Head, u32)| #[trigger] leaves(val, 0).contains(x) implies leaf_ok(
            t2,
            t2.vars[v].universe,
            x,
        ) by {
            assert(leaf_ok(table, table.vars[v].universe, x));
            match x.0 {
                Head::InferenceVar { kind, var } => {
                    assert(t2.vars[var as int] == table.vars[var as int]);
                },
                _ => {},
            }
        }
    }
}

/// Whether a table is well-formed does not depend on its largest universe.
pub proof fn lemma_wf_ignores_universes(table: SpecTable, other: SpecTable)
    requires
        table_wf(table),
        other.vars == table.vars,
    ensures
        table_wf(other),
{
    assert forall|v: int| 0 <= v < other.vars.len() && (#[trigger] other.vars[v]).value is Some implies value_ok(
        other,
        other.vars[v].universe,
        other.vars[v].value->0,
    ) by {
        let val = table.vars[v].value->0;
        assert forall|x: (Head, u32)| #[trigger] leaves(val, 0).contains(x) implies leaf_ok(
            other,
            other.vars[v].universe,
            x,
        ) by {
            assert(leaf_ok(table, table.vars[v].universe, x));
        }
    }
}

/// A new universe keeps a table well-formed.
pub proof fn lemma_with_universe_wf(table: SpecTable)
    requires
        table_wf(table),
    ensures
        table_wf(table.with_universe()),
{
    let t2 = table.with_universe();
    assert forall|v: int| 0 <= v < t2.vars.len() && (#[trigger] t2.vars[v]).value is Some implies value_ok(
        t2,
        t2.vars[v].universe,
        t2.vars[v].value->0,
    ) by {
        assert(t2.vars[v] == table.vars[v]);
        let val = table.vars[v].value->0;
        assert forall|x: (Head, u32)| #[trigger] leaves(val, 0).contains(x) implies leaf_ok(
            t2,
            t2.vars[v].universe,
            x,
        ) by {
            assert(leaf_ok(table, table.vars[v].universe, x));
        }
    }
}

/// The leaves of a value that is bound to `var`, wherever the value stands.
pub proof fn lemma_bound_value_leaf(table: SpecTable, var: usize, b: SpecTerm, d: u32, y: (Head, u32))
    requires
        table.is_unbound(var),
        !occurs(var, b),
        closed(b),
        within_universe(b, table.vars[var as int].universe),
        term_free(table, b),
        leaves(b, d).contains(y),
    ensures
        leaf_ok(bind_table(table, var, b), table.vars[var as int].universe, y),
        var_of(y.0) != Some(var),
{
    let t2 = bind_table(table, var, b);
    lemma_leaves_deeper(b, 0, d);
    let i = choose|i: int| 0 <= i < leaves(b, d).len() && leaves(b, d)[i] == y;
    let base = leaves(b, 0)[i];
    assert(leaves(b, 0).contains(base));
    assert(base.0 == y.0 && y.1 >= base.1);
    match y.0 {
        Head::InferenceVar { kind, var: w } => {
            assert(var_of(leaves(b, 0)[i].0) == Some(w));
            assert(has_var(leaves(b, 0), w));
            assert(w != var);
            assert(table.is_unbound(w));
        },
        _ => {},
    }
}

/// Binding a variable keeps a table well-formed.
pub proof fn lemma_bind_table_wf(table: SpecTable, var: usize, b: SpecTerm)
    requires
        table_wf(table),
        table.is_unbound(var),
        !occurs(var, b),
        closed(b),
        within_universe(b, table.vars[var as int].universe),
        term_free(table, b),
    ensures
        table_wf(bind_table(table, var, b)),
{
    let t2 = bind_table(table, var, b);
    let u = table.vars[var as int].universe;
    assert forall|v: int| 0 <= v < t2.vars.len() && (#[trigger] t2.vars[v]).value is Some implies value_ok(
        t2,
        t2.vars[v].universe,
        t2.vars[v].value->0,
    ) by {
        if v == var {
            assert forall|y: (Head, u32)| #[trigger] leaves(b, 0).contains(y) implies leaf_ok(t2, u, y) by {
                lemma_bound_value_leaf(table, var, b, 0, y);
            }
        } else {
            let val = table.vars[v].value->0;
            let uv = table.vars[v].universe;
            assert(table.is_bound(v as usize));
            // a bound variable is none of the value, so its universe stays
            if has_var(leaves(b, 0), v as usize) {
                let i = choose|i: int| 0 <= i < leaves(b, 0).len() && var_of(#[trigger] leaves(b, 0)[i].0) == Some(
                    v as usize,
                );
                assert(leaves(b, 0).contains(leaves(b, 0)[i]));
            }
            assert(t2.vars[v].universe == uv);
            assert forall|y: (Head, u32)| #[trigger]
                leaves(fold(val, bind(var, b), 0), 0).contains(y) implies leaf_ok(t2, uv, y) by {
                lemma_fold_leaves(val, bind(var, b), 0, y);
                let (h, d) = choose|h: Head, d: u32| #[trigger]
                    leaves(val, 0).contains((h, d)) && leaves(bind(var, b)(h, d), d).contains(y);
                assert(leaf_ok(table, uv, (h, d)));
                lemma_leaves_are_leaves(val, 0, (h, d));
                if var_of(h) == Some(var) {
                    lemma_bound_value_leaf(table, var, b, d, y);
                    assert(u <= uv);
                } else {
                    assert(SpecTerm::atom(h).is_leaf());
                    assert(leaves(SpecTerm::atom(h), d) =~= seq![(h, d)]);
                    assert(y == (h, d));
                }
            }
        }
    }
}

/// Binding a variable in the work leaves no bound variable in it.
pub proof fn lemma_bind_work_free(table: SpecTable, work: Work, var: usize, b: SpecTerm)
    requires
        work_free(table, work),
        table.is_unbound(var),
        !occurs(var, b),
        closed(b),
        within_universe(b, table.vars[var as int].universe),
        term_free(table, b),
    ensures
        work_free(bind_table(table, var, b), bind_work(work, var, b)),
{
    let t2 = bind_table(table, var, b);
    let w2 = bind_work(work, var, b);
    assert forall|i: int| 0 <= i < w2.len() implies term_free(t2, (#[trigger] w2[i]).0) && term_free(
        t2,
        w2[i].1,
    ) by {
        assert(term_free(table, work[i].0) && term_free(table, work[i].1));
        lemma_bind_term_free(table, work[i].0, var, b);
        lemma_bind_term_free(table, work[i].1, var, b);
    }
}

/// Binding a variable in a term leaves no bound variable in it.
proof fn lemma_bind_term_free(table: SpecTable, t: SpecTerm, var: usize, b: SpecTerm)
    requires
        term_free(table, t),
        table.is_unbound(var),
        !occurs(var, b),
        closed(b),
        within_universe(b, table.vars[var as int].universe),
        term_free(table, b),
    ensures
        term_free(bind_table(table, var, b), fold(t, bind(var, b), 0)),
{
    let t2 = bind_table(table, var, b);
    assert forall|y: (Head, u32)| #[trigger] leaves(fold(t, bind(var, b), 0), 0).contains(y) implies match var_of(
        y.0,
    ) {
        Some(w) => t2.is_unbound(w),
        None => true,
    } by {
        lemma_fold_leaves(t, bind(var, b), 0, y);
        let (h, d) = choose|h: Head, d: u32| #[trigger]
            leaves(t, 0).contains((h, d)) && leaves(bind(var, b)(h, d), d).contains(y);
        lemma_leaves_are_leaves(t, 0, (h, d));
        if var_of(h) == Some(var) {
            lemma_bound_value_leaf(table, var, b, d, y);
        } else {
            assert(SpecTerm::atom(h).is_leaf());
            assert(leaves(SpecTerm::atom(h), d) =~= seq![(h, d)]);
            assert(y == (h, d));
        }
    }
}

/// The arguments of a term hold no variable that the term does not hold.
pub proof fn lemma_args_free(table: SpecTable, t: SpecTerm, i: int)
    requires
        term_free(table, t),
        !t.head.binds(),
        0 <= i < t.args.len(),
    ensures
        term_free(table, t.args[i]),
{
    assert(!t.is_leaf());
    assert forall|y: (Head, u32)| #[trigger] leaves(t.args[i], 0).contains(y) implies match var_of(y.0) {
        Some(w) => table.is_unbound(w),
        None => true,
    } by {
        lemma_leaves_prefix_contains(t.args, t.args.len(), child_depth(t.head, 0), i, y);
        assert(leaves(t, 0).contains(y));
    }
}

/// A step of unification keeps the table well-formed and the work free of
/// bound variables.
pub proof fn lemma_step_preserves(environment: Seq<SpecTerm>, st: SpecUnifier, work: Work)
    requires
        work.len() > 0,
        table_wf(st.table),
        work_free(st.table, work),
        unify_step(environment, st, work) is Next,
    ensures
        table_wf(unify_step(environment, st, work)->Next_0.table),
        work_free(unify_step(environment, st, work)->Next_0.table, unify_step(environment, st, work)->Next_1),
{
    let (a, b) = work.last();
    let rest = work.drop_last();
    let st2 = unify_step(environment, st, work)->Next_0;
    let w2 = unify_step(environment, st, work)->Next_1;
    assert(term_free(st.table, work[work.len() - 1].0) && term_free(st.table, work[work.len() - 1].1));
    assert(work_free(st.table, rest)) by {
        assert forall|i: int| 0 <= i < rest.len() implies term_free(st.table, (#[trigger] rest[i]).0)
            && term_free(st.table, rest[i].1) by {
            assert(rest[i] == work[i]);
        }
    }
    if st2.table != st.table {
        let (var, t) = if a.is_leaf() && a.head is InferenceVar {
            (var_of(a.head)->0, b)
        } else {
            (var_of(b.head)->0, a)
        };
        assert(st2.table == bind_table(st.table, var, t));
        assert(w2 == bind_work(rest, var, t));
        lemma_bind_table_wf(st.table, var, t);
        lemma_bind_work_free(st.table, rest, var, t);
    } else if w2 == rest {
    } else if w2 == rest + pairs(a.args, b.args) && a.head == b.head && a.args.len() == b.args.len()
        && !a.head.binds() {
        assert forall|i: int| 0 <= i < w2.len() implies term_free(st.table, (#[trigger] w2[i]).0) && term_free(
            st.table,
            w2[i].1,
        ) by {
            if i < rest.len() {
                assert(w2[i] == rest[i]);
            } else {
                let j = i - rest.len();
                assert(w2[i] == (a.args[j], b.args[j]));
                lemma_args_free(st.table, a, j);
                lemma_args_free(st.table, b, j);
            }
        }
    } else {
        let (var, t) = if a.is_leaf() && a.head is InferenceVar {
            (var_of(a.head)->0, b)
        } else {
            (var_of(b.head)->0, a)
        };
        assert(st2.table == bind_table(st.table, var, t));
        assert(bind_table(st.table, var, t).vars[var as int].value is Some);
        assert(st.table.vars[var as int].value is None);
    }
}

/// A unification that starts well-formed ends well-formed.
pub proof fn lemma_run_preserves(environment: Seq<SpecTerm>, st: SpecUnifier, work: Work)
    requires
        table_wf(st.table),
        work_free(st.table, work),
        unify_run(environment, st, work) is Some,
    ensures
        table_wf(unify_run(environment, st, work)->0.table),
    decreases unbound(st.table), work_size(work, work.len()),
{
    if work.len() > 0 {
        match unify_step(environment, st, work) {
            Step::Fail => {},
            Step::Next(st2, work2) => {
                lemma_step_decreases(environment, st, work);
                lemma_step_preserves(environment, st, work);
                lemma_run_preserves(environment, st2, work2);
            },
        }
    }
}

/// In a well-formed table a normalized term holds no bound variable.
pub proof fn lemma_normalize_free(table: SpecTable, t: SpecTerm)
    requires
        table_wf(table),
        in_table(table, t),
    ensures
        term_free(table, normalize(table, t)),
{
    assert forall|y: (Head, u32)| #[trigger] leaves(normalize(table, t), 0).contains(y) implies match var_of(
        y.0,
    ) {
        Some(w) => table.is_unbound(w),
        None => true,
    } by {
        lemma_fold_leaves(t, resolve(table), 0, y);
        let (h, d) = choose|h: Head, d: u32| #[trigger]
            leaves(t, 0).contains((h, d)) && leaves(resolve(table)(h, d), d).contains(y);
        lemma_leaves_are_leaves(t, 0, (h, d));
        match h {
            Head::InferenceVar { kind, var } => {
                if table.is_bound(var) {
                    let val = table.value(var);
                    lemma_leaves_deeper(val, 0, d);
                    let i = choose|i: int| 0 <= i < leaves(val, d).len() && leaves(val, d)[i] == y;
                    let base = leaves(val, 0)[i];
                    assert(leaves(val, 0).contains(base));
                    assert(table.vars[var as int].value is Some);
                    assert(leaf_ok(table, table.vars[var as int].universe, base));
                } else {
                    assert(leaves(SpecTerm::atom(h), d) =~= seq![(h, d)]);
                }
            },
            _ => {
                assert(SpecTerm::atom(h).is_leaf());
                assert(leaves(SpecTerm::atom(h), d) =~= seq![(h, d)]);
            },
        }
    }
}

/// Unification of terms over the variables of a table keeps the table
/// well-formed.
pub proof fn lemma_unify_preserves_wf(environment: Seq<SpecTerm>, table: SpecTable, a: SpecTerm, b: SpecTerm)
    requires
        table_wf(table),
        in_table(table, a),
        in_table(table, b),
    ensures
        match unify_model(environment, table, a, b) {
            Some(u) => table_wf(u.table),
            None => true,
        },
{
    let st = SpecUnifier { table, goals: Seq::empty(), constraints: Seq::empty() };
    let work: Work = seq![(normalize(table, a), normalize(table, b))];
    lemma_normalize_free(table, a);
    lemma_normalize_free(table, b);
    assert(work_free(table, work));
    if unify_run(environment, st, work) is Some {
        lemma_run_preserves(environment, st, work);
    }
}

/// Universe monotonicity: in a well-formed table the value of a variable
/// holds no placeholder of a universe further in than that of the variable,
/// and no inference variable of one. Unification keeps it so.
pub proof fn lemma_universe_invariant(
    environment: Seq<SpecTerm>,
    table: SpecTable,
    a: SpecTerm,
    b: SpecTerm,
    var: usize,
)
    requires
        table_wf(table),
        in_table(table, a),
        in_table(table, b),
        unify_model(environment, table, a, b) is Some,
        unify_model(environment, table, a, b)->0.table.is_bound(var),
    ensures
        within_universe(
            unify_model(environment, table, a, b)->0.table.value(var),
            unify_model(environment, table, a, b)->0.table.vars[var as int].universe,
        ),
        closed(unify_model(environment, table, a, b)->0.table.value(var)),
        term_free(
            unify_model(environment, table, a, b)->0.table,
            unify_model(environment, table, a, b)->0.table.value(var),
        ),
{
    lemma_unify_preserves_wf(environment, table, a, b);
    let t2 = unify_model(environment, table, a, b)->0.table;
    let val = t2.value(var);
    assert(t2.vars[var as int].value is Some);
    assert(value_ok(t2, t2.vars[var as int].universe, val));
    assert forall|i: int| 0 <= i < leaves(val, 0).len() implies leaf_ok(
        t2,
        t2.vars[var as int].universe,
        #[trigger] leaves(val, 0)[i],
    ) by {
        assert(leaves(val, 0).contains(leaves(val, 0)[i]));
    }
}

} // verus!
