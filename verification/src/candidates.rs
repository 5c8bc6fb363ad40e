//! No clause that applies to a goal is left out of the clauses that are
//! tried for it: a consequence that unifies with the goal could match it.

use vstd::prelude::*;
use crate::context::SpecContext;
use crate::context::clause_could_match;
use crate::context::could_match;
use crate::context::could_match_prefix;
use crate::context::matching;
use crate::context::program_clauses_model;
use crate::fold::fold;
use crate::fold::fold_all;
use crate::fold::lemma_fold_args;
use crate::infer::normalize;
use crate::infer::resolve;
use crate::symbol::Head;
use crate::symbol::child_depth;
use crate::term::SpecTerm;
use crate::unify::SpecUnifier;
use crate::unify::Step;
use crate::unify::Work;
use crate::unify::bind;
use crate::unify::lemma_step_decreases;
use crate::unify::pairs;
use crate::unify::unbound;
use crate::unify::unify_model;
use crate::unify::unify_run;
use crate::unify::unify_step;
use crate::unify::var_of;
use crate::unify::work_size;

verus! {

/// Every term could match itself.
pub proof fn lemma_could_match_reflexive(a: SpecTerm)
    ensures
        could_match(a, a),
    decreases a, 0nat,
{
    lemma_could_match_prefix_reflexive(a.args, a.args.len());
}

/// The terms of a list could match themselves one by one.
pub proof fn lemma_could_match_prefix_reflexive(a: Seq<SpecTerm>, n: nat)
    requires
        n <= a.len(),
    ensures
        could_match_prefix(a, a, n),
    decreases a, n,
{
    if n > 0 {
        lemma_could_match_prefix_reflexive(a, (n - 1) as nat);
        lemma_could_match_reflexive(a[n - 1]);
    }
}

/// Putting terms in place of the leaves of the first of two terms makes no
/// match that was not there: what could match afterwards could match
/// before.
pub proof fn lemma_could_match_before_left(a: SpecTerm, b: SpecTerm, f: spec_fn(Head, u32) -> SpecTerm, depth: u32)
    requires
        could_match(fold(a, f, depth), b),
    ensures
        could_match(a, b),
    decreases a, 0nat,
{
    if !a.is_leaf() {
        lemma_fold_args(a, f, depth);
        if !could_match(a, b) {
            lemma_could_match_prefix_before_left(a.args, b.args, f, child_depth(a.head, depth), a.args.len());
        }
    }
}

/// The same of two lists, one by one.
pub proof fn lemma_could_match_prefix_before_left(
    a: Seq<SpecTerm>,
    b: Seq<SpecTerm>,
    f: spec_fn(Head, u32) -> SpecTerm,
    depth: u32,
    n: nat,
)
    requires
        n <= a.len(),
        n <= b.len(),
        could_match_prefix(fold_all(a, f, depth), b, n),
    ensures
        could_match_prefix(a, b, n),
    decreases a, n,
{
    if n > 0 {
        lemma_could_match_prefix_before_left(a, b, f, depth, (n - 1) as nat);
        lemma_could_match_before_left(a[n - 1], b[n - 1], f, depth);
    }
}

/// The same where the terms are put in place of the leaves of the second
/// term.
pub proof fn lemma_could_match_before_right(a: SpecTerm, b: SpecTerm, f: spec_fn(Head, u32) -> SpecTerm, depth: u32)
    requires
        could_match(a, fold(b, f, depth)),
    ensures
        could_match(a, b),
    decreases a, 0nat,
{
    if !b.is_leaf() {
        lemma_fold_args(b, f, depth);
        if !could_match(a, b) {
            lemma_could_match_prefix_before_right(a.args, b.args, f, child_depth(b.head, depth), a.args.len());
        }
    }
}

/// The same of two lists, one by one.
pub proof fn lemma_could_match_prefix_before_right(
    a: Seq<SpecTerm>,
    b: Seq<SpecTerm>,
    f: spec_fn(Head, u32) -> SpecTerm,
    depth: u32,
    n: nat,
)
    requires
        n <= a.len(),
        n <= b.len(),
        could_match_prefix(a, fold_all(b, f, depth), n),
    ensures
        could_match_prefix(a, b, n),
    decreases a, n,
{
    if n > 0 {
        lemma_could_match_prefix_before_right(a, b, f, depth, (n - 1) as nat);
        lemma_could_match_before_right(a[n - 1], b[n - 1], f, depth);
    }
}

/// Where two lists could not match one by one, two terms at one place
/// could not match.
pub proof fn lemma_prefix_clash(a: Seq<SpecTerm>, b: Seq<SpecTerm>, n: nat) -> (i: int)
    requires
        n <= a.len(),
        n <= b.len(),
        !could_match_prefix(a, b, n),
    ensures
        0 <= i < n,
        !could_match(a[i], b[i]),
    decreases n,
{
    if could_match_prefix(a, b, (n - 1) as nat) {
        n - 1
    } else {
        lemma_prefix_clash(a, b, (n - 1) as nat)
    }
}

/// A unification whose work holds two terms that could not match fails.
pub proof fn lemma_clash_fails(environment: Seq<SpecTerm>, st: SpecUnifier, work: Work, k: int)
    requires
        0 <= k < work.len(),
        !could_match(work[k].0, work[k].1),
    ensures
        unify_run(environment, st, work) is None,
    decreases unbound(st.table), work_size(work, work.len()),
{
    let (a, b) = work.last();
    let rest = work.drop_last();
    match unify_step(environment, st, work) {
        Step::Fail => {},
        Step::Next(st2, work2) => {
            lemma_step_decreases(environment, st, work);
            if k < work.len() - 1 {
                assert(rest[k] == work[k]);
                if work2.len() > k && work2[k] == work[k] {
                    lemma_clash_fails(environment, st2, work2, k);
                } else {
                    // the step bound a variable throughout the work
                    let var = if a.is_leaf() && a.head is InferenceVar {
                        var_of(a.head)->0
                    } else {
                        var_of(b.head)->0
                    };
                    let value = if a.is_leaf() && a.head is InferenceVar {
                        b
                    } else {
                        a
                    };
                    let g = bind(var, value);
                    assert(work2[k] == (fold(work[k].0, g, 0), fold(work[k].1, g, 0)));
                    if could_match(work2[k].0, work2[k].1) {
                        lemma_could_match_before_left(work[k].0, fold(work[k].1, g, 0), g, 0);
                        lemma_could_match_before_right(work[k].0, work[k].1, g, 0);
                    }
                    lemma_clash_fails(environment, st2, work2, k);
                }
            } else {
                lemma_could_match_reflexive(a);
                let i = lemma_prefix_clash(a.args, b.args, a.args.len());
                assert(work2 == rest + pairs(a.args, b.args));
                assert(work2[rest.len() + i] == (a.args[i], b.args[i]));
                lemma_clash_fails(environment, st2, work2, rest.len() + i);
            }
        },
    }
}

/// Two terms that unify could match, whatever stood in place of the leaves
/// of the first: as the variables of a clause do before the clause is
/// tried.
pub proof fn lemma_unifiable_could_match(
    environment: Seq<SpecTerm>,
    table: crate::infer::SpecTable,
    a: SpecTerm,
    f: spec_fn(Head, u32) -> SpecTerm,
    depth: u32,
    b: SpecTerm,
)
    requires
        unify_model(environment, table, fold(a, f, depth), b) is Some,
    ensures
        could_match(a, b),
{
    let x = fold(a, f, depth);
    let st = SpecUnifier { table, goals: Seq::empty(), constraints: Seq::empty() };
    let work: Work = seq![(normalize(table, x), normalize(table, b))];
    if !could_match(work[0].0, work[0].1) {
        lemma_clash_fails(environment, st, work, 0);
    }
    lemma_could_match_before_left(x, normalize(table, b), resolve(table), 0);
    lemma_could_match_before_right(x, b, resolve(table), 0);
    lemma_could_match_before_left(a, b, f, depth);
}

/// A clause that could match is among those found.
pub proof fn lemma_matching_finds(clauses: Seq<SpecTerm>, goal: SpecTerm, n: nat, k: int)
    requires
        0 <= k < n <= clauses.len(),
        clause_could_match(clauses[k], goal),
    ensures
        matching(clauses, goal, n).contains(clauses[k]),
    decreases n,
{
    let found = matching(clauses, goal, n);
    if k == n - 1 {
        assert(found.last() == clauses[k]);
    } else {
        lemma_matching_finds(clauses, goal, (n - 1) as nat, k);
        let before = matching(clauses, goal, (n - 1) as nat);
        let i = choose|i: int| 0 <= i < before.len() && before[i] == clauses[k];
        assert(found[i] == clauses[k]);
    }
}

/// The clauses found for a goal leave out none that applies: a clause of
/// the program or of the environment whose consequence, with any terms in
/// place of its variables, unifies with the goal is among them.
pub proof fn lemma_no_clause_is_left_out(
    ctx: SpecContext,
    environment: Seq<SpecTerm>,
    goal: SpecTerm,
    clause: SpecTerm,
    table: crate::infer::SpecTable,
    f: spec_fn(Head, u32) -> SpecTerm,
    depth: u32,
)
    requires
        ctx.program_clauses.contains(clause) || environment.contains(clause),
        clause.head is Clause,
        clause.args.len() >= 2,
        unify_model(environment, table, fold(clause.args[1], f, depth), goal) is Some,
    ensures
        program_clauses_model(ctx, environment, goal).contains(clause),
{
    lemma_unifiable_could_match(environment, table, clause.args[1], f, depth, goal);
    let of_env = matching(environment, goal, environment.len());
    let of_program = matching(ctx.program_clauses, goal, ctx.program_clauses.len());
    if environment.contains(clause) {
        let k = choose|k: int| 0 <= k < environment.len() && environment[k] == clause;
        lemma_matching_finds(environment, goal, environment.len(), k);
        let i = choose|i: int| 0 <= i < of_env.len() && of_env[i] == clause;
        assert((of_env + of_program)[i] == clause);
    } else {
        let k = choose|k: int| 0 <= k < ctx.program_clauses.len() && ctx.program_clauses[k] == clause;
        lemma_matching_finds(ctx.program_clauses, goal, ctx.program_clauses.len(), k);
        let i = choose|i: int| 0 <= i < of_program.len() && of_program[i] == clause;
        assert((of_env + of_program)[of_env.len() + i] == clause);
    }
}

} // verus!
