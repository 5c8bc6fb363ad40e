//! Unification is reflexive and sound: a term unifies with itself, and
//! where two terms unify and nothing is put off, the two are equal under
//! the bindings of the table.

use vstd::prelude::*;
use crate::symbol::Head;
use crate::symbol::child_depth;
use crate::term::SpecTerm;
use crate::term::leaves;
use crate::fold::compose;
use crate::fold::fold;
use crate::fold::fold_all;
use crate::fold::lemma_fold_args;
use crate::fold::lemma_fold_compose;
use crate::fold::lemma_fold_ext;
use crate::infer::SpecTable;
use crate::infer::normalize;
use crate::infer::resolve;
use crate::unify::SpecUnifier;
use crate::unify::Step;
use crate::unify::Work;
use crate::unify::within_universe;
use crate::unify::SpecUnification;
use crate::unify::normalize_all;
use crate::symbol::Kind;
use crate::unify::bind;
use crate::unify::bind_table;
use crate::unify::bind_work;
use crate::unify::lemma_step_decreases;
use crate::unify::pairs;
use crate::unify::unbound;
use crate::unify::unify_model;
use crate::unify::unify_run;
use crate::unify::unify_step;
use crate::unify::var_of;
use crate::unify::work_size;
use crate::round_trip::lemma_leaves_are_leaves;
use crate::wellformed::in_table;
use crate::wellformed::leaf_ok;
use crate::wellformed::lemma_normalize_free;
use crate::wellformed::lemma_step_preserves;
use crate::wellformed::table_wf;
use crate::wellformed::term_free;
use crate::wellformed::work_free;

verus! {

/// A rewriting that does not look at the depth folds a term alike at every depth.
pub proof fn lemma_fold_any_depth(t: SpecTerm, f: spec_fn(Head, u32) -> SpecTerm, d1: u32, d2: u32)
    requires
        forall|h: Head, a: u32, b: u32| #[trigger] f(h, a) == #[trigger] f(h, b),
    ensures
        fold(t, f, d1) == fold(t, f, d2),
    decreases t,
{
    if !t.is_leaf() {
        lemma_fold_args(t, f, d1);
        lemma_fold_args(t, f, d2);
        assert forall|i: int| 0 <= i < t.args.len() implies fold(t.args[i], f, child_depth(t.head, d1)) == fold(
            t.args[i],
            f,
            child_depth(t.head, d2),
        ) by {
            lemma_fold_any_depth(t.args[i], f, child_depth(t.head, d1), child_depth(t.head, d2));
        }
        assert(fold(t, f, d1).args =~= fold(t, f, d2).args);
    }
}

/// Normalizing in the table that binds `var` is putting the value in
/// place of `var`, for a term whose variables were unbound before.
pub proof fn lemma_normalize_after_bind(table: SpecTable, var: usize, b: SpecTerm, t: SpecTerm, depth: u32)
    requires
        table.is_unbound(var),
        term_free(table, t),
    ensures
        fold(t, resolve(bind_table(table, var, b)), depth) == fold(t, bind(var, b), 0),
{
    let t2 = bind_table(table, var, b);
    assert forall|h: Head, d: u32| #[trigger] leaves(t, 0).contains((h, d)) implies resolve(t2)(h, d) == bind(
        var,
        b,
    )(h, d) by {
        match h {
            Head::InferenceVar { kind, var: w } => {
                assert(table.is_unbound(w));
                if w != var {
                    assert(t2.vars[w as int].value is None);
                }
            },
            _ => {},
        }
    }
    lemma_fold_ext(t, resolve(t2), bind(var, b), 0);
    lemma_fold_any_depth(t, resolve(t2), depth, 0);
}

/// The table that binds `var` normalizes further than the table before:
/// normalizing first in the old table makes no difference.
pub proof fn lemma_bind_extends(table: SpecTable, var: usize, b: SpecTerm, x: SpecTerm)
    requires
        table_wf(table),
        table.is_unbound(var),
        in_table(table, x),
    ensures
        normalize(bind_table(table, var, b), normalize(table, x)) == normalize(bind_table(table, var, b), x),
{
    let t2 = bind_table(table, var, b);
    lemma_fold_compose(x, resolve(table), resolve(t2), 0);
    assert forall|h: Head, d: u32| #[trigger] leaves(x, 0).contains((h, d)) implies compose(
        resolve(table),
        resolve(t2),
    )(h, d) == resolve(t2)(h, d) by {
        lemma_leaves_are_leaves(x, 0, (h, d));
        match h {
            Head::InferenceVar { kind, var: w } => {
                if table.is_bound(w) {
                    let val = table.value(w);
                    assert(table.vars[w as int].value is Some);
                    assert(term_free(table, val)) by {
                        assert forall|y: (Head, u32)| #[trigger] leaves(val, 0).contains(y) implies match var_of(
                            y.0,
                        ) {
                            Some(z) => table.is_unbound(z),
                            None => true,
                        } by {
                            assert(leaf_ok(table, table.vars[w as int].universe, y));
                        }
                    }
                    lemma_normalize_after_bind(table, var, b, val, d);
                    assert(t2.vars[w as int].value == Some(fold(val, bind(var, b), 0)));
                } else {
                    assert(SpecTerm::atom(h).is_leaf());
                }
            },
            _ => {
                assert(SpecTerm::atom(h).is_leaf());
            },
        }
    }
    lemma_fold_ext(x, compose(resolve(table), resolve(t2)), resolve(t2), 0);
}

/// A unification never takes back a goal or a constraint.
pub proof fn lemma_run_grows(environment: Seq<SpecTerm>, st: SpecUnifier, work: Work)
    requires
        unify_run(environment, st, work) is Some,
    ensures
        unify_run(environment, st, work)->0.goals.len() >= st.goals.len(),
        unify_run(environment, st, work)->0.constraints.len() >= st.constraints.len(),
        unify_run(environment, st, work)->0.table.vars.len() == st.table.vars.len(),
    decreases unbound(st.table), work_size(work, work.len()),
{
    if work.len() > 0 {
        match unify_step(environment, st, work) {
            Step::Fail => {},
            Step::Next(st2, work2) => {
                lemma_step_decreases(environment, st, work);
                lemma_run_grows(environment, st2, work2);
            },
        }
    }
}

/// Whether a step binds a variable; if so, which and to what.
pub open spec fn binding_of(st: SpecUnifier, work: Work) -> (usize, SpecTerm) {
    let (a, b) = work.last();
    if a.is_leaf() && a.head is InferenceVar {
        (var_of(a.head)->0, b)
    } else {
        (var_of(b.head)->0, a)
    }
}

/// The table in which a unification ends normalizes further than the
/// table in which it starts.
pub proof fn lemma_run_extends(environment: Seq<SpecTerm>, st: SpecUnifier, work: Work, x: SpecTerm)
    requires
        table_wf(st.table),
        work_free(st.table, work),
        in_table(st.table, x),
        unify_run(environment, st, work) is Some,
    ensures
        normalize(unify_run(environment, st, work)->0.table, normalize(st.table, x)) == normalize(
            unify_run(environment, st, work)->0.table,
            x,
        ),
    decreases unbound(st.table), work_size(work, work.len()),
{
    let last = unify_run(environment, st, work)->0.table;
    if work.len() == 0 {
        lemma_normalize_free(st.table, x);
        lemma_normalize_idempotent(st.table, normalize(st.table, x));
    } else {
        match unify_step(environment, st, work) {
            Step::Fail => {},
            Step::Next(st2, work2) => {
                lemma_step_decreases(environment, st, work);
                lemma_step_preserves(environment, st, work);
                if st2.table == st.table {
                    lemma_run_extends(environment, st2, work2, x);
                } else {
                    let (var, t) = binding_of(st, work);
                    assert(st2.table == bind_table(st.table, var, t));
                    lemma_bind_extends(st.table, var, t, x);
                    lemma_normalize_free(st.table, x);
                    assert(in_table(st2.table, normalize(st.table, x))) by {
                        assert forall|y: (Head, u32)| #[trigger]
                            leaves(normalize(st.table, x), 0).contains(y) implies match var_of(y.0) {
                            Some(w) => w < st2.table.vars.len(),
                            None => true,
                        } by {}
                    }
                    lemma_run_extends(environment, st2, work2, normalize(st.table, x));
                    lemma_run_extends(environment, st2, work2, x);
                }
            },
        }
    }
}

/// Normalizing a term whose variables are unbound changes nothing.
pub proof fn lemma_normalize_idempotent(table: SpecTable, t: SpecTerm)
    requires
        term_free(table, t),
    ensures
        normalize(table, t) == t,
{
    let id = |h: Head, d: u32| SpecTerm::atom(h);
    assert forall|h: Head, d: u32| #[trigger] leaves(t, 0).contains((h, d)) implies resolve(table)(h, d) == id(
        h,
        d,
    ) by {}
    lemma_fold_ext(t, resolve(table), id, 0);
    lemma_fold_identity(t, 0);
}

/// Putting every leaf in its own place changes nothing.
pub proof fn lemma_fold_identity(t: SpecTerm, depth: u32)
    ensures
        fold(t, |h: Head, d: u32| SpecTerm::atom(h), depth) == t,
    decreases t,
{
    let id = |h: Head, d: u32| SpecTerm::atom(h);
    if t.is_leaf() {
        assert(t.args =~= Seq::empty());
    } else {
        lemma_fold_args(t, id, depth);
        assert forall|i: int| 0 <= i < t.args.len() implies fold(t.args[i], id, child_depth(t.head, depth))
            == t.args[i] by {
            lemma_fold_identity(t.args[i], child_depth(t.head, depth));
        }
        assert(fold(t, id, depth).args =~= t.args);
    }
}

/// Where a unification ends without having put anything off, every pair
/// of its work is a pair of equal terms under the bindings it ends with.
pub proof fn lemma_run_equalizes(environment: Seq<SpecTerm>, st: SpecUnifier, work: Work, i: int)
    requires
        table_wf(st.table),
        work_free(st.table, work),
        unify_run(environment, st, work) is Some,
        unify_run(environment, st, work)->0.goals.len() == st.goals.len(),
        unify_run(environment, st, work)->0.constraints.len() == st.constraints.len(),
        0 <= i < work.len(),
    ensures
        normalize(unify_run(environment, st, work)->0.table, work[i].0) == normalize(
            unify_run(environment, st, work)->0.table,
            work[i].1,
        ),
    decreases unbound(st.table), work_size(work, work.len()),
{
    let last = unify_run(environment, st, work)->0.table;
    let (a, b) = work.last();
    let rest = work.drop_last();
    match unify_step(environment, st, work) {
        Step::Fail => {},
        Step::Next(st2, work2) => {
            lemma_step_decreases(environment, st, work);
            lemma_step_preserves(environment, st, work);
            lemma_run_grows(environment, st2, work2);
            assert(st2.goals.len() == st.goals.len() && st2.constraints.len() == st.constraints.len());
            assert(term_free(st.table, work[i].0) && term_free(st.table, work[i].1));
            if st2.table != st.table {
                let (var, t) = binding_of(st, work);
                assert(st2.table == bind_table(st.table, var, t));
                assert(work2 == bind_work(rest, var, t));
                if i < rest.len() {
                    lemma_run_equalizes(environment, st2, work2, i);
                    assert(work[i] == rest[i]);
                    lemma_bound_term(environment, st, st2, work2, var, t, work[i].0);
                    lemma_bound_term(environment, st, st2, work2, var, t, work[i].1);
                } else {
                    // the pair of the variable and its value
                    let v = if a.is_leaf() && a.head is InferenceVar {
                        a
                    } else {
                        b
                    };
                    assert(v.args =~= Seq::empty());
                    assert(normalize(st2.table, v) == t);
                    assert(in_table(st2.table, v)) by {
                        assert(leaves(v, 0) =~= seq![(v.head, 0u32)]);
                    }
                    assert(in_table(st2.table, t)) by {
                        assert forall|y: (Head, u32)| #[trigger] leaves(t, 0).contains(y) implies match var_of(
                            y.0,
                        ) {
                            Some(w) => w < st2.table.vars.len(),
                            None => true,
                        } by {}
                    }
                    lemma_run_extends(environment, st2, work2, v);
                }
            } else if work2 == rest {
                if i < rest.len() {
                    lemma_run_equalizes(environment, st2, work2, i);
                } else {
                    // a step that drops a pair and binds nothing puts something
                    // off unless the two terms are equal
                    if a.head == b.head && a.args.len() == 0 && b.args.len() == 0 {
                        assert(a.args =~= b.args);
                    }
                    assert(st2.goals.len() == st.goals.len());
                    assert(st2.constraints.len() == st.constraints.len());
                    assert(a == b);
                }
            } else if work2 == rest + pairs(a.args, b.args) && a.head == b.head && a.args.len() == b.args.len()
                && !a.head.binds() {
                if i < rest.len() {
                    lemma_run_equalizes(environment, st2, work2, i);
                    assert(work2[i] == work[i]);
                } else {
                    assert(!a.is_leaf() || a.args.len() == 0);
                    if a.args.len() == 0 {
                        assert(a.args =~= b.args);
                    } else {
                        let f = resolve(last);
                        lemma_fold_args(a, f, 0);
                        lemma_fold_args(b, f, 0);
                        assert forall|j: int| 0 <= j < a.args.len() implies fold(a.args[j], f, 0) == fold(
                            b.args[j],
                            f,
                            0,
                        ) by {
                            lemma_run_equalizes(environment, st2, work2, rest.len() + j);
                            assert(work2[rest.len() + j] == (a.args[j], b.args[j]));
                        }
                        assert(fold_all(a.args, f, 0) =~= fold_all(b.args, f, 0));
                    }
                }
            } else {
                let (var, t) = binding_of(st, work);
                assert(st2.table == bind_table(st.table, var, t));
                assert(bind_table(st.table, var, t).vars[var as int].value is Some);
                assert(st.table.vars[var as int].value is None);
            }
        },
    }
}

/// A term of the work before a binding is, under the bindings that the
/// unification ends with, the term with the binding made.
pub proof fn lemma_bound_term(
    environment: Seq<SpecTerm>,
    st: SpecUnifier,
    st2: SpecUnifier,
    work2: Work,
    var: usize,
    b: SpecTerm,
    t: SpecTerm,
)
    requires
        table_wf(st2.table),
        work_free(st2.table, work2),
        st.table.is_unbound(var),
        st2.table == bind_table(st.table, var, b),
        term_free(st.table, t),
        unify_run(environment, st2, work2) is Some,
    ensures
        normalize(unify_run(environment, st2, work2)->0.table, fold(t, bind(var, b), 0)) == normalize(
            unify_run(environment, st2, work2)->0.table,
            t,
        ),
{
    lemma_normalize_after_bind(st.table, var, b, t, 0);
    assert(in_table(st2.table, t)) by {
        assert forall|y: (Head, u32)| #[trigger] leaves(t, 0).contains(y) implies match var_of(y.0) {
            Some(w) => w < st2.table.vars.len(),
            None => true,
        } by {}
    }
    lemma_run_extends(environment, st2, work2, t);
}

/// Unification is sound: where two terms over the variables of a
/// well-formed table unify and no goal and no constraint is put off, the
/// two are the same term under the bindings of the table.
pub proof fn lemma_unify_sound(environment: Seq<SpecTerm>, table: SpecTable, a: SpecTerm, b: SpecTerm)
    requires
        table_wf(table),
        in_table(table, a),
        in_table(table, b),
        unify_model(environment, table, a, b) is Some,
        unify_model(environment, table, a, b)->0.goals.len() == 0,
        unify_model(environment, table, a, b)->0.constraints.len() == 0,
    ensures
        normalize(unify_model(environment, table, a, b)->0.table, a) == normalize(
            unify_model(environment, table, a, b)->0.table,
            b,
        ),
{
    let st = SpecUnifier { table, goals: Seq::empty(), constraints: Seq::empty() };
    let work: Work = seq![(normalize(table, a), normalize(table, b))];
    lemma_normalize_free(table, a);
    lemma_normalize_free(table, b);
    assert(work_free(table, work));
    lemma_run_equalizes(environment, st, work, 0);
    lemma_run_extends(environment, st, work, a);
    lemma_run_extends(environment, st, work, b);
}

/// Unification is reflexive: a term unifies with itself in every table,
/// binds no variable and leaves no goal and no constraint.
pub proof fn lemma_unify_reflexive(environment: Seq<SpecTerm>, table: SpecTable, t: SpecTerm)
    ensures
        unify_model(environment, table, t, t) == Some(
            SpecUnification { table, goals: Seq::empty(), constraints: Seq::empty() },
        ),
{
    let st = SpecUnifier { table, goals: Seq::empty(), constraints: Seq::empty() };
    let n = normalize(table, t);
    let work: Work = seq![(n, n)];
    assert(work.last() == (n, n));
    assert(work.drop_last() =~= Seq::empty());
    assert(unify_step(environment, st, work) == Step::Next(st, Seq::empty()));
    assert(unify_run(environment, st, Seq::empty()) == Some(st));
    assert(unify_run(environment, st, work) == Some(st));
    assert(normalize_all(table, Seq::<SpecTerm>::empty()) =~= Seq::empty());
}

/// A placeholder of universe `u` does not unify with a term that holds a
/// placeholder of a universe further in: whatever the table, the two are
/// not made equal. Of two types the unification may put off the question
/// as a goal on an alias, and of two lifetimes as a constraint; wherever it
/// leaves neither, it fails.
pub proof fn lemma_universe_monotone(
    environment: Seq<SpecTerm>,
    table: SpecTable,
    kind: Kind,
    universe: usize,
    index: usize,
    t: SpecTerm,
)
    requires
        !within_universe(normalize(table, t), universe),
    ensures
        match unify_model(
            environment,
            table,
            SpecTerm::atom(Head::Placeholder { kind, universe, index }),
            t,
        ) {
            Some(u) => u.goals.len() + u.constraints.len() > 0,
            None => true,
        },
        kind != Kind::Lifetime && !normalize(table, t).head.is_alias() ==> unify_model(
            environment,
            table,
            SpecTerm::atom(Head::Placeholder { kind, universe, index }),
            t,
        ) is None,
{
    let p = SpecTerm::atom(Head::Placeholder { kind, universe, index });
    let st = SpecUnifier { table, goals: Seq::empty(), constraints: Seq::empty() };
    let n = normalize(table, t);
    assert(normalize(table, p) == p);
    let work: Work = seq![(p, n)];
    assert(work.last() == (p, n));
    assert(work.drop_last() =~= Seq::empty());
    assert(leaves(p, 0) =~= seq![(p.head, 0u32)]);
    assert(within_universe(p, universe));
    assert(p != n);
    if n.is_leaf() {
        assert(leaves(n, 0) =~= seq![(n.head, 0u32)]);
        assert(!(n.head is InferenceVar));
    }
    if n.head == p.head && n.args.len() == 0 {
        assert(n.args =~= p.args);
    }
    match unify_step(environment, st, work) {
        Step::Fail => {
            assert(unify_run(environment, st, work) is None);
        },
        Step::Next(st2, rest) => {
            assert(rest =~= Seq::empty());
            assert(st2.goals.len() + st2.constraints.len() == 1);
            assert(unify_run(environment, st2, rest) == Some(st2));
            assert(unify_run(environment, st, work) == Some(st2));
        },
    }
}

} // verus!
