//! Resolution: the answers to a goal, found by resolving it against the
//! clauses of the program and of its environment.
//!
//! Every atomic goal is a table of its own, named by its canonical form.
//! The answers of a table that is complete are recorded in the memo
//! table and replayed when the goal comes up again. A goal that comes up
//! again while its own table is being filled is a cycle: it holds if it is
//! coinductive and fails otherwise. The search stops, and reports that it
//! cannot tell, when a goal grows beyond the size bound or when its fuel
//! is spent.

use vstd::prelude::*;
use crate::symbol::ClausePriority;
use crate::symbol::Head;
use crate::symbol::VariableKind;
use crate::term::SpecTerm;
use crate::fold::fold;
use crate::infer::CanonicalVarKind;
use crate::infer::SpecCanonical;
use crate::infer::SpecTable;
use crate::infer::SpecUCanonical;
use crate::infer::fresh_params;
use crate::infer::in_universe;
use crate::infer::instantiate;
use crate::infer::placeholder_params;
use crate::infer::universe_succ;
use crate::unify::SpecUnification;
use crate::unify::in_environment;
use crate::unify::unify_model;
use crate::unify::universe_of;
use crate::canonicalize::canonicalize_model;
use crate::canonicalize::invert_model;
use crate::canonicalize::rank;
use crate::canonicalize::u_canonicalize_model;
use crate::truncate::truncate_model;
use crate::ex_clause::SpecExClause;
use crate::ex_clause::SpecLiteral;
use crate::ex_clause::positives;
use crate::context::SpecContext;
use crate::context::is_coinductive_model;
use crate::context::program_clauses_model;

verus! {

/// Those of the first `n` clauses that have the priority.
pub open spec fn with_priority(clauses: Seq<SpecTerm>, priority: ClausePriority, n: nat) -> Seq<SpecTerm>
    decreases n,
{
    if n == 0 || n > clauses.len() {
        Seq::empty()
    } else if clauses[n - 1].head == Head::Clause(priority) {
        with_priority(clauses, priority, (n - 1) as nat).push(clauses[n - 1])
    } else {
        with_priority(clauses, priority, (n - 1) as nat)
    }
}

/// The clauses of high priority in their order, then those of low priority.
pub open spec fn by_priority(clauses: Seq<SpecTerm>) -> Seq<SpecTerm> {
    with_priority(clauses, ClausePriority::High, clauses.len()) + with_priority(
        clauses,
        ClausePriority::Low,
        clauses.len(),
    )
}

/// The model of what a search found: its answers, whether it gave up
/// somewhere, and the lowest position on the stack of a table that it came
/// back to, if it came back to any.
pub struct SpecOutcome {
    pub answers: Seq<SpecCanonical>,
    pub floundered: bool,
    pub reach: Option<nat>,
}

/// The memo table: the answers of the tables that are complete.
pub type SpecMemo = Seq<(SpecUCanonical, Seq<SpecCanonical>)>;

/// No answer, and the search was complete.
pub open spec fn no_answers() -> SpecOutcome {
    SpecOutcome { answers: Seq::empty(), floundered: false, reach: None }
}

/// No answer, and the search gave up.
pub open spec fn floundered() -> SpecOutcome {
    SpecOutcome { answers: Seq::empty(), floundered: true, reach: None }
}

/// The answers `a` followed by those of the first `n` of `b` that are new.
pub open spec fn merge_answers(a: Seq<SpecCanonical>, b: Seq<SpecCanonical>, n: nat) -> Seq<SpecCanonical>
    decreases n,
{
    if n == 0 || n > b.len() {
        a
    } else {
        let m = merge_answers(a, b, (n - 1) as nat);
        if m.contains(b[n - 1]) {
            m
        } else {
            m.push(b[n - 1])
        }
    }
}

/// The lower of two positions on the stack.
pub open spec fn lower(a: Option<nat>, b: Option<nat>) -> Option<nat> {
    match (a, b) {
        (Some(x), Some(y)) => if x <= y {
            Some(x)
        } else {
            Some(y)
        },
        (Some(x), None) => Some(x),
        (None, y) => y,
    }
}

/// Two outcomes as one: every answer once, given up if either gave up.
pub open spec fn merge(a: SpecOutcome, b: SpecOutcome) -> SpecOutcome {
    SpecOutcome {
        answers: merge_answers(a.answers, b.answers, b.answers.len()),
        floundered: a.floundered || b.floundered,
        reach: lower(a.reach, b.reach),
    }
}

/// The answers that the first of the first `n` entries for a key records.
pub open spec fn recorded_upto(memo: SpecMemo, key: SpecUCanonical, n: nat) -> Option<Seq<SpecCanonical>>
    decreases n,
{
    if n == 0 || n > memo.len() {
        None
    } else {
        match recorded_upto(memo, key, (n - 1) as nat) {
            Some(answers) => Some(answers),
            None => if memo[n - 1].0 == key {
                Some(memo[n - 1].1)
            } else {
                None
            },
        }
    }
}

/// The answers that the memo table records for a key.
pub open spec fn recorded(memo: SpecMemo, key: SpecUCanonical) -> Option<Seq<SpecCanonical>> {
    recorded_upto(memo, key, memo.len())
}

/// The first position among the first `n` of the stack at which a key stands.
pub open spec fn stack_position_upto(stack: Seq<SpecUCanonical>, key: SpecUCanonical, n: nat) -> Option<nat>
    decreases n,
{
    if n == 0 || n > stack.len() {
        None
    } else {
        match stack_position_upto(stack, key, (n - 1) as nat) {
            Some(p) => Some(p),
            None => if stack[n - 1] == key {
                Some((n - 1) as nat)
            } else {
                None
            },
        }
    }
}

/// The position on the stack at which a key stands.
pub open spec fn stack_position(stack: Seq<SpecUCanonical>, key: SpecUCanonical) -> Option<nat> {
    stack_position_upto(stack, key, stack.len())
}

/// Whether a search came back to no table below position `own` on the stack.
pub open spec fn settled(reach: Option<nat>, own: nat) -> bool {
    match reach {
        Some(p) => p >= own,
        None => true,
    }
}

/// The environment and the goal of a goal in its environment.
pub open spec fn goal_parts(g: SpecTerm) -> Option<(Seq<SpecTerm>, SpecTerm)> {
    if g.head is InEnvironment && g.args.len() > 0 {
        Some((g.args.drop_last(), g.args.last()))
    } else {
        None
    }
}

/// The kinds that the first `n` binder terms name.
pub open spec fn kinds_prefix(args: Seq<SpecTerm>, n: nat) -> Option<Seq<VariableKind>>
    decreases n,
{
    if n == 0 || n > args.len() {
        Some(Seq::empty())
    } else {
        match (kinds_prefix(args, (n - 1) as nat), args[n - 1].head) {
            (Some(ks), Head::BinderKind(k)) => Some(ks.push(k)),
            _ => None,
        }
    }
}

/// The kinds of the variables that a list of binders introduces.
pub open spec fn binder_kinds(binders: SpecTerm) -> Option<Seq<VariableKind>> {
    if binders.head is Binders {
        kinds_prefix(binders.args, binders.args.len())
    } else {
        None
    }
}

/// A list of terms as one term.
pub open spec fn list(ts: Seq<SpecTerm>) -> SpecTerm {
    SpecTerm { head: Head::List, args: ts }
}

/// A substitution with its constraints as one term.
pub open spec fn constrained_subst(subst: SpecTerm, constraints: Seq<SpecTerm>) -> SpecTerm {
    list(seq![subst, list(constraints)])
}

/// The universe that has number `k` among the universes `us`, looked for
/// among the first `n`.
pub open spec fn restore_upto(us: Seq<Head>, k: usize, n: nat) -> Option<usize>
    decreases n,
{
    if n == 0 || n > us.len() {
        None
    } else {
        match restore_upto(us, k, (n - 1) as nat) {
            Some(u) => Some(u),
            None => match universe_of(us[n - 1]) {
                Some(u) => if rank(us, u) == k {
                    Some(u)
                } else {
                    None
                },
                None => None,
            },
        }
    }
}

/// The universe that has number `k` among the universes `us`; `k` itself
/// where none has.
pub open spec fn restore_universe(us: Seq<Head>, k: usize) -> usize {
    match restore_upto(us, k, us.len()) {
        Some(u) => u,
        None => k,
    }
}

/// What the return from renumbered universes puts in place of a leaf.
pub open spec fn restore_image(us: Seq<Head>, head: Head, depth: u32) -> SpecTerm {
    match head {
        Head::Placeholder { kind, universe, index } => SpecTerm::atom(
            Head::Placeholder { kind, universe: restore_universe(us, universe), index },
        ),
        _ => SpecTerm::atom(head),
    }
}

/// The return from renumbered universes as a leaf rewriting.
pub open spec fn restoring(us: Seq<Head>) -> spec_fn(Head, u32) -> SpecTerm {
    |head: Head, depth: u32| restore_image(us, head, depth)
}

/// The binders with their universes restored.
pub open spec fn restore_binders(us: Seq<Head>, binders: Seq<CanonicalVarKind>) -> Seq<CanonicalVarKind> {
    Seq::new(
        binders.len(),
        |i: int| CanonicalVarKind { kind: binders[i].kind, universe: restore_universe(us, binders[i].universe) },
    )
}

/// The table, the substitution and the goal that a table key opens into.
pub struct SpecRoot {
    pub table: SpecTable,
    pub subst: SpecTerm,
    pub goal: SpecTerm,
}

/// Opens a key in a table of its own: the universes of the key are those of
/// the table, and each binder of the key is a fresh inference variable.
pub open spec fn open_key(key: SpecUCanonical) -> SpecRoot {
    let empty = SpecTable {
        vars: Seq::empty(),
        max_universe: if key.universes > 0 {
            (key.universes - 1) as usize
        } else {
            0
        },
    };
    let params = fresh_params(key.canonical.binders, 0);
    SpecRoot {
        table: empty.with_variables(key.canonical.binders, key.canonical.binders.len()),
        subst: list(params),
        goal: fold(key.canonical.value, instantiate(params), 0),
    }
}

/// The answer that a coinductive goal is assumed to have when it comes up
/// within its own proof: the goal as it stands, without constraints.
pub open spec fn trivial_answer(key: SpecUCanonical) -> SpecCanonical {
    let root = open_key(key);
    canonicalize_model(root.table, constrained_subst(root.subst, Seq::empty())).quantified
}

/// The answer of an ex-clause without literals, unless its substitution
/// has grown beyond the size bound.
pub open spec fn answer(max_size: usize, table: SpecTable, ex: SpecExClause) -> SpecOutcome {
    if truncate_model(table, max_size, ex.subst) is Some {
        floundered()
    } else {
        SpecOutcome {
            answers: seq![canonicalize_model(table, constrained_subst(ex.subst, ex.constraints)).quantified],
            floundered: false,
            reach: None,
        }
    }
}

/// The conjuncts as literals, the first conjunct last, so that it is
/// taken up first.
pub open spec fn conjuncts(environment: Seq<SpecTerm>, goals: Seq<SpecTerm>) -> Seq<SpecLiteral> {
    Seq::new(
        goals.len(),
        |i: int| SpecLiteral::Positive(in_environment(environment, goals[goals.len() - 1 - i])),
    )
}

/// What one step makes of a goal that is not atomic.
pub enum Simplified {
    /// The search cannot tell.
    Flounder,
    /// The goal does not hold.
    Fail,
    /// The search goes on in this table with this ex-clause.
    Continue(SpecTable, SpecExClause),
}

/// The ex-clause with one more literal.
pub open spec fn with_literal(ex: SpecExClause, literal: SpecLiteral) -> SpecExClause {
    SpecExClause { subst: ex.subst, constraints: ex.constraints, subgoals: ex.subgoals.push(literal) }
}

/// One step on a goal that is not atomic: a conjunction gives way to its
/// conjuncts, an implication to its goal in a larger environment, a
/// quantifier to its body with placeholders of a new universe or with fresh
/// inference variables, a negation to a negative literal, and an equation
/// is unified.
pub open spec fn simplify(table: SpecTable, rest: SpecExClause, environment: Seq<SpecTerm>, goal: SpecTerm) -> Simplified {
    match goal.head {
        Head::All => Simplified::Continue(
            table,
            SpecExClause {
                subst: rest.subst,
                constraints: rest.constraints,
                subgoals: rest.subgoals + conjuncts(environment, goal.args),
            },
        ),
        Head::Implies => if goal.args.len() > 0 {
            Simplified::Continue(
                table,
                with_literal(
                    rest,
                    SpecLiteral::Positive(
                        in_environment(environment + goal.args.drop_last(), goal.args.last()),
                    ),
                ),
            )
        } else {
            Simplified::Flounder
        },
        Head::ForAll => if goal.args.len() == 2 && binder_kinds(goal.args[0]) is Some {
            let kinds = binder_kinds(goal.args[0])->0;
            Simplified::Continue(
                table.with_universe(),
                with_literal(
                    rest,
                    SpecLiteral::Positive(
                        in_environment(
                            environment,
                            fold(
                                goal.args[1],
                                instantiate(placeholder_params(kinds, universe_succ(table.max_universe))),
                                0,
                            ),
                        ),
                    ),
                ),
            )
        } else {
            Simplified::Flounder
        },
        Head::Exists => if goal.args.len() == 2 && binder_kinds(goal.args[0]) is Some {
            let binders = in_universe(binder_kinds(goal.args[0])->0, table.max_universe);
            Simplified::Continue(
                table.with_variables(binders, binders.len()),
                with_literal(
                    rest,
                    SpecLiteral::Positive(
                        in_environment(
                            environment,
                            fold(goal.args[1], instantiate(fresh_params(binders, table.vars.len())), 0),
                        ),
                    ),
                ),
            )
        } else {
            Simplified::Flounder
        },
        Head::Not => if goal.args.len() == 1 {
            Simplified::Continue(
                table,
                with_literal(rest, SpecLiteral::Negative(in_environment(environment, goal.args[0]))),
            )
        } else {
            Simplified::Flounder
        },
        Head::Equal => if goal.args.len() == 2 {
            match unify_model(environment, table, goal.args[0], goal.args[1]) {
                Some(u) => Simplified::Continue(u.table, rest.with_unification(u.goals, u.constraints)),
                None => Simplified::Fail,
            }
        } else {
            Simplified::Flounder
        },
        _ => Simplified::Flounder,
    }
}

/// The conditions of an opened clause as literals in the environment.
pub open spec fn condition_literals(environment: Seq<SpecTerm>, args: Seq<SpecTerm>, params: Seq<SpecTerm>) -> Seq<
    SpecLiteral,
> {
    Seq::new(
        (args.len() - 2) as nat,
        |i: int| SpecLiteral::Positive(in_environment(environment, fold(args[i + 2], instantiate(params), 0))),
    )
}

/// The resolvent of an atomic goal with a clause: the clause is opened with
/// fresh inference variables of the current universe, its consequence is
/// unified with the goal, and its conditions are what is left to prove.
pub open spec fn resolvent(
    table: SpecTable,
    subst: SpecTerm,
    environment: Seq<SpecTerm>,
    goal: SpecTerm,
    clause: SpecTerm,
) -> Option<(SpecTable, SpecExClause)> {
    if clause.head is Clause && clause.args.len() >= 2 && binder_kinds(clause.args[0]) is Some {
        let binders = in_universe(binder_kinds(clause.args[0])->0, table.max_universe);
        let params = fresh_params(binders, table.vars.len());
        let opened = table.with_variables(binders, binders.len());
        match unify_model(environment, opened, fold(clause.args[1], instantiate(params), 0), goal) {
            Some(u) => Some(
                (
                    u.table,
                    SpecExClause {
                        subst,
                        constraints: u.constraints,
                        subgoals: condition_literals(environment, clause.args, params) + positives(u.goals),
                    },
                ),
            ),
            None => None,
        }
    } else {
        None
    }
}

/// The unification of the first `n` of the variables `fv` with the terms
/// `params` at the same positions.
pub open spec fn unify_all(
    environment: Seq<SpecTerm>,
    table: SpecTable,
    fv: Seq<Head>,
    params: Seq<SpecTerm>,
    n: nat,
) -> Option<SpecUnification>
    decreases n,
{
    if n == 0 || n > fv.len() || n > params.len() {
        Some(SpecUnification { table, goals: Seq::empty(), constraints: Seq::empty() })
    } else {
        match unify_all(environment, table, fv, params, (n - 1) as nat) {
            Some(u) => match unify_model(environment, u.table, SpecTerm::atom(fv[n - 1]), params[n - 1]) {
                Some(v) => Some(
                    SpecUnification {
                        table: v.table,
                        goals: u.goals + v.goals,
                        constraints: u.constraints + v.constraints,
                    },
                ),
                None => None,
            },
            None => None,
        }
    }
}

/// An answer of a table brought back to the goal it was asked for: its
/// universes are restored, its binders become fresh inference variables,
/// and its substitution is unified with the variables `fv` of the goal.
pub open spec fn apply_answer(
    table: SpecTable,
    rest: SpecExClause,
    environment: Seq<SpecTerm>,
    fv: Seq<Head>,
    us: Seq<Head>,
    answer: SpecCanonical,
) -> Option<(SpecTable, SpecExClause)> {
    let binders = restore_binders(us, answer.binders);
    let opened = table.with_variables(binders, binders.len());
    let inst = fold(fold(answer.value, restoring(us), 0), instantiate(fresh_params(binders, table.vars.len())), 0);
    if inst.head is List && inst.args.len() == 2 && inst.args[0].args.len() == fv.len() {
        match unify_all(environment, opened, fv, inst.args[0].args, fv.len()) {
            Some(u) => Some(
                (
                    u.table,
                    SpecExClause {
                        subst: rest.subst,
                        constraints: rest.constraints + inst.args[1].args + u.constraints,
                        subgoals: rest.subgoals + positives(u.goals),
                    },
                ),
            ),
            None => None,
        }
    } else {
        None
    }
}

/// The ex-clause without its last literal.
pub open spec fn without_last(ex: SpecExClause) -> SpecExClause {
    SpecExClause { subst: ex.subst, constraints: ex.constraints, subgoals: ex.subgoals.drop_last() }
}

/// The answers of an ex-clause, and the memo table after the search: its
/// last literal is settled, and the search goes on with what is left.
pub open spec fn solve_ex(
    ctx: SpecContext,
    max_size: usize,
    table: SpecTable,
    ex: SpecExClause,
    stack: Seq<SpecUCanonical>,
    memo: SpecMemo,
    fuel: nat,
) -> (SpecOutcome, SpecMemo)
    decreases fuel, 0nat,
{
    if fuel == 0 {
        (floundered(), memo)
    } else if ex.subgoals.len() == 0 {
        (answer(max_size, table, ex), memo)
    } else {
        let rest = without_last(ex);
        match ex.subgoals.last() {
            SpecLiteral::Negative(g) => match invert_model(table, g) {
                None => (floundered(), memo),
                Some((inverted_table, inverted)) => {
                    let key = u_canonicalize_model(
                        canonicalize_model(inverted_table, inverted).quantified,
                    ).quantified;
                    if recorded(memo, key) is None && stack.contains(key) {
                        (floundered(), memo)
                    } else {
                        let (sub, m1) = solve_table(ctx, max_size, key, stack, memo, (fuel - 1) as nat);
                        if sub.floundered {
                            (floundered(), m1)
                        } else if sub.answers.len() > 0 {
                            (SpecOutcome { answers: Seq::empty(), floundered: false, reach: sub.reach }, m1)
                        } else {
                            let (o, m2) = solve_ex(ctx, max_size, table, rest, stack, m1, (fuel - 1) as nat);
                            (
                                SpecOutcome {
                                    answers: o.answers,
                                    floundered: o.floundered,
                                    reach: lower(o.reach, sub.reach),
                                },
                                m2,
                            )
                        }
                    }
                },
            },
            SpecLiteral::Positive(g) => match goal_parts(g) {
                None => (floundered(), memo),
                Some((environment, goal)) => if goal.head is Fact {
                    if truncate_model(table, max_size, g) is Some {
                        (floundered(), memo)
                    } else {
                        let cz = canonicalize_model(table, g);
                        let uc = u_canonicalize_model(cz.quantified);
                        let (sub, m1) = solve_table(ctx, max_size, uc.quantified, stack, memo, (fuel - 1) as nat);
                        let (applied, m2) = apply_answers(
                            ctx,
                            max_size,
                            table,
                            rest,
                            environment,
                            cz.free_vars,
                            uc.universes,
                            sub.answers,
                            sub.answers.len(),
                            stack,
                            m1,
                            (fuel - 1) as nat,
                        );
                        (
                            SpecOutcome {
                                answers: applied.answers,
                                floundered: applied.floundered || sub.floundered,
                                reach: lower(applied.reach, sub.reach),
                            },
                            m2,
                        )
                    }
                } else {
                    match simplify(table, rest, environment, goal) {
                        Simplified::Flounder => (floundered(), memo),
                        Simplified::Fail => (no_answers(), memo),
                        Simplified::Continue(t2, ex2) => solve_ex(
                            ctx,
                            max_size,
                            t2,
                            ex2,
                            stack,
                            memo,
                            (fuel - 1) as nat,
                        ),
                    }
                },
            },
        }
    }
}

/// The answers of an ex-clause for each of the first `n` answers to the
/// literal that was taken from it.
pub open spec fn apply_answers(
    ctx: SpecContext,
    max_size: usize,
    table: SpecTable,
    rest: SpecExClause,
    environment: Seq<SpecTerm>,
    fv: Seq<Head>,
    us: Seq<Head>,
    answers: Seq<SpecCanonical>,
    n: nat,
    stack: Seq<SpecUCanonical>,
    memo: SpecMemo,
    fuel: nat,
) -> (SpecOutcome, SpecMemo)
    decreases fuel, n,
{
    if n == 0 || n > answers.len() {
        (no_answers(), memo)
    } else {
        let (before, m1) = apply_answers(
            ctx,
            max_size,
            table,
            rest,
            environment,
            fv,
            us,
            answers,
            (n - 1) as nat,
            stack,
            memo,
            fuel,
        );
        let (one, m2) = if fuel == 0 {
            (floundered(), m1)
        } else {
            match apply_answer(table, rest, environment, fv, us, answers[n - 1]) {
                Some((t2, ex2)) => solve_ex(ctx, max_size, t2, ex2, stack, m1, (fuel - 1) as nat),
                None => (no_answers(), m1),
            }
        };
        (merge(before, one), m2)
    }
}

/// The answers of the table that `key` names, and the memo table after
/// the search. The answers of a table that the memo table records are
/// replayed. A key that is on the stack is a cycle: the goal is assumed if
/// it is coinductive and fails if not. Any other table is filled: the
/// clauses of high priority are tried first, so their answers come first.
/// A table whose search did not give up and came back to no table below
/// it on the stack is complete, and its answers are recorded.
pub open spec fn solve_table(
    ctx: SpecContext,
    max_size: usize,
    key: SpecUCanonical,
    stack: Seq<SpecUCanonical>,
    memo: SpecMemo,
    fuel: nat,
) -> (SpecOutcome, SpecMemo)
    decreases fuel, 0nat,
{
    match recorded(memo, key) {
        Some(answers) => (SpecOutcome { answers, floundered: false, reach: None }, memo),
        None => match stack_position(stack, key) {
            Some(p) => (
                SpecOutcome {
                    answers: if is_coinductive_model(ctx.coinductive_traits, key.canonical.value) {
                        seq![trivial_answer(key)]
                    } else {
                        Seq::empty()
                    },
                    floundered: false,
                    reach: Some(p),
                },
                memo,
            ),
            None => if fuel == 0 {
                (floundered(), memo)
            } else {
                let root = open_key(key);
                match goal_parts(root.goal) {
                    None => (floundered(), memo),
                    Some((environment, goal)) => {
                        let (o, m1) = if goal.head is Fact {
                            let clauses = by_priority(program_clauses_model(ctx, environment, goal));
                            resolve_clauses(
                                ctx,
                                max_size,
                                root.table,
                                root.subst,
                                environment,
                                goal,
                                clauses,
                                clauses.len(),
                                stack.push(key),
                                memo,
                                (fuel - 1) as nat,
                            )
                        } else {
                            solve_ex(
                                ctx,
                                max_size,
                                root.table,
                                SpecExClause {
                                    subst: root.subst,
                                    constraints: Seq::empty(),
                                    subgoals: seq![SpecLiteral::Positive(root.goal)],
                                },
                                stack.push(key),
                                memo,
                                (fuel - 1) as nat,
                            )
                        };
                        if settled(o.reach, stack.len()) {
                            (
                                SpecOutcome { answers: o.answers, floundered: o.floundered, reach: None },
                                if o.floundered {
                                    m1
                                } else {
                                    m1.push((key, o.answers))
                                },
                            )
                        } else {
                            (o, m1)
                        }
                    },
                }
            },
        },
    }
}

/// The answers of an atomic goal by each of the first `n` clauses.
pub open spec fn resolve_clauses(
    ctx: SpecContext,
    max_size: usize,
    table: SpecTable,
    subst: SpecTerm,
    environment: Seq<SpecTerm>,
    goal: SpecTerm,
    clauses: Seq<SpecTerm>,
    n: nat,
    stack: Seq<SpecUCanonical>,
    memo: SpecMemo,
    fuel: nat,
) -> (SpecOutcome, SpecMemo)
    decreases fuel, n,
{
    if n == 0 || n > clauses.len() {
        (no_answers(), memo)
    } else {
        let (before, m1) = resolve_clauses(
            ctx,
            max_size,
            table,
            subst,
            environment,
            goal,
            clauses,
            (n - 1) as nat,
            stack,
            memo,
            fuel,
        );
        let (one, m2) = if fuel == 0 {
            (floundered(), m1)
        } else {
            match resolvent(table, subst, environment, goal, clauses[n - 1]) {
                Some((t2, ex)) => solve_ex(ctx, max_size, t2, ex, stack, m1, (fuel - 1) as nat),
                None => (no_answers(), m1),
            }
        };
        (merge(before, one), m2)
    }
}

/// The model of a solution.
pub enum SpecSolution {
    Unique(SpecCanonical),
    Ambiguous,
    NoSolution,
}

/// The solution that an outcome amounts to: the one answer of a complete
/// search, no solution where a complete search found none, and ambiguous
/// otherwise.
pub open spec fn solution_of(outcome: SpecOutcome) -> SpecSolution {
    if outcome.floundered {
        SpecSolution::Ambiguous
    } else if outcome.answers.len() == 0 {
        SpecSolution::NoSolution
    } else if outcome.answers.len() == 1 {
        SpecSolution::Unique(outcome.answers[0])
    } else {
        SpecSolution::Ambiguous
    }
}

/// The solution of a goal, found with a memo table of its own.
pub open spec fn solve_model(ctx: SpecContext, max_size: usize, goal: SpecUCanonical, fuel: nat) -> SpecSolution {
    solution_of(solve_table(ctx, max_size, goal, Seq::empty(), Seq::empty(), fuel).0)
}

} // verus!
