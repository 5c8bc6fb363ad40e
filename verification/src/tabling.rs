//! What holds of the search, whatever the program: cycles, bounds, the
//! memo table and the answers.

use vstd::prelude::*;
use crate::symbol::Head;
use crate::term::SpecTerm;
use crate::term::capped_size;
use crate::infer::SpecTable;
use crate::infer::SpecUCanonical;
use crate::infer::normalize;
use crate::ex_clause::SpecExClause;
use crate::ex_clause::SpecLiteral;
use crate::context::SpecContext;
use crate::context::is_coinductive_model;
use crate::slg::SpecOutcome;
use crate::slg::SpecSolution;
use crate::slg::floundered;
use crate::slg::goal_parts;
use crate::slg::SpecMemo;
use crate::slg::merge;
use crate::slg::recorded;
use crate::slg::recorded_upto;
use crate::slg::stack_position;
use crate::slg::stack_position_upto;
use crate::slg::merge_answers;
use crate::slg::apply_answer;
use crate::slg::apply_answers;
use crate::slg::resolve_clauses;
use crate::slg::resolvent;
use crate::slg::simplify;
use crate::slg::Simplified;
use crate::slg::without_last;
use crate::slg::open_key;
use crate::slg::answer;
use crate::infer::SpecCanonical;
use crate::context::program_clauses_model;
use crate::canonicalize::canonicalize_model;
use crate::canonicalize::invert_model;
use crate::canonicalize::u_canonicalize_model;
use crate::truncate::truncate_model;
use crate::slg::no_answers;
use crate::slg::solution_of;
use crate::slg::solve_ex;
use crate::slg::solve_table;
use crate::slg::trivial_answer;

verus! {

/// A key that is on the stack has a position there.
pub proof fn lemma_position_of_member(stack: Seq<SpecUCanonical>, key: SpecUCanonical, n: nat)
    requires
        n <= stack.len(),
    ensures
        stack_position_upto(stack, key, n) is Some <==> exists|i: int| 0 <= i < n && stack[i] == key,
        match stack_position_upto(stack, key, n) {
            Some(p) => p < n && stack[p as int] == key,
            None => true,
        },
    decreases n,
{
    if n > 0 {
        lemma_position_of_member(stack, key, (n - 1) as nat);
        if stack_position_upto(stack, key, (n - 1) as nat) is None && stack[n - 1] != key {
            assert forall|i: int| 0 <= i < n implies stack[i] != key by {
                if i < n - 1 {
                }
            }
        }
    }
}

/// The answers that the memo table records for a key are those of one of
/// its entries.
pub proof fn lemma_recorded_is_entry(memo: SpecMemo, key: SpecUCanonical, n: nat)
    requires
        n <= memo.len(),
    ensures
        match recorded_upto(memo, key, n) {
            Some(answers) => exists|i: int| 0 <= i < n && (#[trigger] memo[i]) == (key, answers),
            None => true,
        },
    decreases n,
{
    if n > 0 {
        lemma_recorded_is_entry(memo, key, (n - 1) as nat);
        match recorded_upto(memo, key, (n - 1) as nat) {
            Some(answers) => {
                let i = choose|i: int| 0 <= i < n - 1 && (#[trigger] memo[i]) == (key, answers);
                assert(memo[i] == (key, answers));
            },
            None => {
                if memo[n - 1].0 == key {
                    assert(memo[n - 1] == (key, memo[n - 1].1));
                }
            },
        }
    }
}

/// Recorded answers are replayed: a goal whose table the memo table
/// records has the recorded answers, whatever the stack and the fuel, and
/// nothing is searched.
pub proof fn lemma_recorded_answers_are_replayed(
    ctx: SpecContext,
    max_size: usize,
    key: SpecUCanonical,
    stack: Seq<SpecUCanonical>,
    memo: SpecMemo,
    fuel: nat,
)
    requires
        recorded(memo, key) is Some,
    ensures
        solve_table(ctx, max_size, key, stack, memo, fuel) == (
            SpecOutcome { answers: recorded(memo, key)->0, floundered: false, reach: None },
            memo,
        ),
{
}

/// A coinductive goal that comes up again within its own proof holds at
/// once, as it stands: the search does not go round again, whatever fuel
/// is left.
pub proof fn lemma_coinductive_cycle_succeeds(
    ctx: SpecContext,
    max_size: usize,
    key: SpecUCanonical,
    stack: Seq<SpecUCanonical>,
    memo: SpecMemo,
    fuel: nat,
)
    requires
        recorded(memo, key) is None,
        stack.contains(key),
        is_coinductive_model(ctx.coinductive_traits, key.canonical.value),
    ensures
        solve_table(ctx, max_size, key, stack, memo, fuel).0.answers == seq![trivial_answer(key)],
        !solve_table(ctx, max_size, key, stack, memo, fuel).0.floundered,
        solve_table(ctx, max_size, key, stack, memo, fuel).1 == memo,
{
    lemma_position_of_member(stack, key, stack.len());
}

/// A goal that is not coinductive and comes up again within its own proof
/// fails there.
pub proof fn lemma_inductive_cycle_fails(
    ctx: SpecContext,
    max_size: usize,
    key: SpecUCanonical,
    stack: Seq<SpecUCanonical>,
    memo: SpecMemo,
    fuel: nat,
)
    requires
        recorded(memo, key) is None,
        stack.contains(key),
        !is_coinductive_model(ctx.coinductive_traits, key.canonical.value),
    ensures
        solve_table(ctx, max_size, key, stack, memo, fuel).0.answers.len() == 0,
        !solve_table(ctx, max_size, key, stack, memo, fuel).0.floundered,
        solve_table(ctx, max_size, key, stack, memo, fuel).1 == memo,
{
    lemma_position_of_member(stack, key, stack.len());
}

/// A table that is complete is recorded: where the search of a table did
/// not give up and came back to no table below it, the memo table ends
/// with the answers of the table.
pub proof fn lemma_complete_table_is_recorded(
    ctx: SpecContext,
    max_size: usize,
    key: SpecUCanonical,
    stack: Seq<SpecUCanonical>,
    memo: SpecMemo,
    fuel: nat,
)
    requires
        recorded(memo, key) is None,
        !stack.contains(key),
        !solve_table(ctx, max_size, key, stack, memo, fuel).0.floundered,
        solve_table(ctx, max_size, key, stack, memo, fuel).0.reach is None,
    ensures
        solve_table(ctx, max_size, key, stack, memo, fuel).1.len() > 0,
        solve_table(ctx, max_size, key, stack, memo, fuel).1.last() == (
            key,
            solve_table(ctx, max_size, key, stack, memo, fuel).0.answers,
        ),
{
    lemma_position_of_member(stack, key, stack.len());
}

/// An atomic goal that has grown beyond the size bound is not taken up:
/// the search gives up on its ex-clause.
pub proof fn lemma_oversize_goal_flounders(
    ctx: SpecContext,
    max_size: usize,
    table: SpecTable,
    ex: SpecExClause,
    stack: Seq<SpecUCanonical>,
    memo: SpecMemo,
    fuel: nat,
    g: SpecTerm,
)
    requires
        ex.subgoals.len() > 0,
        ex.subgoals.last() == SpecLiteral::Positive(g),
        goal_parts(g) is Some,
        (goal_parts(g)->0).1.head is Fact,
        capped_size(normalize(table, g)) > max_size,
    ensures
        solve_ex(ctx, max_size, table, ex, stack, memo, fuel) == (floundered(), memo),
{
}

/// Without fuel nothing is searched: the search gives up.
pub proof fn lemma_no_fuel_flounders(
    ctx: SpecContext,
    max_size: usize,
    table: SpecTable,
    ex: SpecExClause,
    key: SpecUCanonical,
    stack: Seq<SpecUCanonical>,
    memo: SpecMemo,
)
    ensures
        solve_ex(ctx, max_size, table, ex, stack, memo, 0) == (floundered(), memo),
        recorded(memo, key) is None && !stack.contains(key) ==> solve_table(
            ctx,
            max_size,
            key,
            stack,
            memo,
            0,
        ) == (floundered(), memo),
{
    lemma_position_of_member(stack, key, stack.len());
}

/// A search that gave up is never taken for a proof or a refutation: its
/// solution is ambiguous, and so is that of any search it is merged into.
pub proof fn lemma_floundered_is_ambiguous(a: SpecOutcome, b: SpecOutcome)
    requires
        a.floundered,
    ensures
        solution_of(a) == SpecSolution::Ambiguous,
        solution_of(merge(a, b)) == SpecSolution::Ambiguous,
        solution_of(merge(b, a)) == SpecSolution::Ambiguous,
{
}

/// Whether no answer occurs twice.
pub open spec fn no_duplicates(answers: Seq<SpecCanonical>) -> bool {
    forall|i: int, j: int| 0 <= i < j < answers.len() ==> answers[i] != answers[j]
}

/// Whether no table of the memo table has an answer twice.
pub open spec fn memo_clean(memo: SpecMemo) -> bool {
    forall|i: int| 0 <= i < memo.len() ==> no_duplicates((#[trigger] memo[i]).1)
}

/// Merging answers adds no answer that is there already.
pub proof fn lemma_merge_no_duplicates(a: Seq<SpecCanonical>, b: Seq<SpecCanonical>, n: nat)
    requires
        no_duplicates(a),
    ensures
        no_duplicates(merge_answers(a, b, n)),
    decreases n,
{
    if n > 0 && n <= b.len() {
        lemma_merge_no_duplicates(a, b, (n - 1) as nat);
    }
}

/// Duplicate answers are suppressed: no search of an ex-clause gives an
/// answer twice, and none records one twice.
pub proof fn lemma_solve_ex_no_duplicates(
    ctx: SpecContext,
    max_size: usize,
    table: SpecTable,
    ex: SpecExClause,
    stack: Seq<SpecUCanonical>,
    memo: SpecMemo,
    fuel: nat,
)
    requires
        memo_clean(memo),
    ensures
        no_duplicates(solve_ex(ctx, max_size, table, ex, stack, memo, fuel).0.answers),
        memo_clean(solve_ex(ctx, max_size, table, ex, stack, memo, fuel).1),
    decreases fuel, 0nat,
{
    if fuel == 0 {
    } else if ex.subgoals.len() == 0 {
    } else {
        let rest = without_last(ex);
        match ex.subgoals.last() {
            SpecLiteral::Negative(g) => match invert_model(table, g) {
                None => {},
                Some((inverted_table, inverted)) => {
                    let key = u_canonicalize_model(
                        canonicalize_model(inverted_table, inverted).quantified,
                    ).quantified;
                    if !(recorded(memo, key) is None && stack.contains(key)) {
                        lemma_solve_table_no_duplicates(ctx, max_size, key, stack, memo, (fuel - 1) as nat);
                        let (sub, m1) = solve_table(ctx, max_size, key, stack, memo, (fuel - 1) as nat);
                        if !sub.floundered && sub.answers.len() == 0 {
                            lemma_solve_ex_no_duplicates(ctx, max_size, table, rest, stack, m1, (fuel - 1) as nat);
                        }
                    }
                },
            },
            SpecLiteral::Positive(g) => match goal_parts(g) {
                None => {},
                Some((environment, goal)) => if goal.head is Fact {
                    if truncate_model(table, max_size, g) is None {
                        let cz = canonicalize_model(table, g);
                        let uc = u_canonicalize_model(cz.quantified);
                        lemma_solve_table_no_duplicates(ctx, max_size, uc.quantified, stack, memo, (fuel - 1) as nat);
                        let (sub, m1) = solve_table(ctx, max_size, uc.quantified, stack, memo, (fuel - 1) as nat);
                        lemma_apply_answers_no_duplicates(
                            ctx,
                            max_size,
                            table,
                            rest,
                            environment,
                            cz.free_vars,
                            uc.universes,
                            sub.answers,
                            sub.answers.len(),
                            stack,
                            m1,
                            (fuel - 1) as nat,
                        );
                    }
                } else {
                    match simplify(table, rest, environment, goal) {
                        Simplified::Continue(t2, ex2) => {
                            lemma_solve_ex_no_duplicates(ctx, max_size, t2, ex2, stack, memo, (fuel - 1) as nat);
                        },
                        _ => {},
                    }
                },
            },
        }
    }
}

/// No answer occurs twice among the answers that an ex-clause has for the
/// answers to one of its literals.
pub proof fn lemma_apply_answers_no_duplicates(
    ctx: SpecContext,
    max_size: usize,
    table: SpecTable,
    rest: SpecExClause,
    environment: Seq<SpecTerm>,
    fv: Seq<Head>,
    us: Seq<Head>,
    answers: Seq<SpecCanonical>,
    n: nat,
    stack: Seq<SpecUCanonical>,
    memo: SpecMemo,
    fuel: nat,
)
    requires
        memo_clean(memo),
    ensures
        no_duplicates(
            apply_answers(ctx, max_size, table, rest, environment, fv, us, answers, n, stack, memo, fuel).0.answers,
        ),
        memo_clean(
            apply_answers(ctx, max_size, table, rest, environment, fv, us, answers, n, stack, memo, fuel).1,
        ),
    decreases fuel, n,
{
    if n > 0 && n <= answers.len() {
        lemma_apply_answers_no_duplicates(
            ctx,
            max_size,
            table,
            rest,
            environment,
            fv,
            us,
            answers,
            (n - 1) as nat,
            stack,
            memo,
            fuel,
        );
        let (before, m1) = apply_answers(
            ctx,
            max_size,
            table,
            rest,
            environment,
            fv,
            us,
            answers,
            (n - 1) as nat,
            stack,
            memo,
            fuel,
        );
        if fuel > 0 {
            match apply_answer(table, rest, environment, fv, us, answers[n - 1]) {
                Some((t2, ex2)) => {
                    lemma_solve_ex_no_duplicates(ctx, max_size, t2, ex2, stack, m1, (fuel - 1) as nat);
                },
                None => {},
            }
        }
        let one = if fuel == 0 {
            floundered()
        } else {
            match apply_answer(table, rest, environment, fv, us, answers[n - 1]) {
                Some((t2, ex2)) => solve_ex(ctx, max_size, t2, ex2, stack, m1, (fuel - 1) as nat).0,
                None => no_answers(),
            }
        };
        lemma_merge_no_duplicates(before.answers, one.answers, one.answers.len());
    }
}

/// No table gives an answer twice, and none records one twice.
pub proof fn lemma_solve_table_no_duplicates(
    ctx: SpecContext,
    max_size: usize,
    key: SpecUCanonical,
    stack: Seq<SpecUCanonical>,
    memo: SpecMemo,
    fuel: nat,
)
    requires
        memo_clean(memo),
    ensures
        no_duplicates(solve_table(ctx, max_size, key, stack, memo, fuel).0.answers),
        memo_clean(solve_table(ctx, max_size, key, stack, memo, fuel).1),
    decreases fuel, 0nat,
{
    lemma_recorded_is_entry(memo, key, memo.len());
    match recorded(memo, key) {
        Some(answers) => {
            let i = choose|i: int| 0 <= i < memo.len() && (#[trigger] memo[i]) == (key, answers);
            assert(no_duplicates(memo[i].1));
        },
        None => match stack_position(stack, key) {
            Some(p) => {},
            None => if fuel > 0 {
                let root = open_key(key);
                match goal_parts(root.goal) {
                    None => {},
                    Some((environment, goal)) => {
                        if goal.head is Fact {
                            let clauses = crate::slg::by_priority(program_clauses_model(ctx, environment, goal));
                            lemma_resolve_clauses_no_duplicates(
                                ctx,
                                max_size,
                                root.table,
                                root.subst,
                                environment,
                                goal,
                                clauses,
                                clauses.len(),
                                stack.push(key),
                                memo,
                                (fuel - 1) as nat,
                            );
                        } else {
                            lemma_solve_ex_no_duplicates(
                                ctx,
                                max_size,
                                root.table,
                                SpecExClause {
                                    subst: root.subst,
                                    constraints: Seq::empty(),
                                    subgoals: seq![SpecLiteral::Positive(root.goal)],
                                },
                                stack.push(key),
                                memo,
                                (fuel - 1) as nat,
                            );
                        }
                    },
                }
            },
        },
    }
}

/// No answer occurs twice among the answers that the clauses give an
/// atomic goal.
pub proof fn lemma_resolve_clauses_no_duplicates(
    ctx: SpecContext,
    max_size: usize,
    table: SpecTable,
    subst: SpecTerm,
    environment: Seq<SpecTerm>,
    goal: SpecTerm,
    clauses: Seq<SpecTerm>,
    n: nat,
    stack: Seq<SpecUCanonical>,
    memo: SpecMemo,
    fuel: nat,
)
    requires
        memo_clean(memo),
    ensures
        no_duplicates(
            resolve_clauses(ctx, max_size, table, subst, environment, goal, clauses, n, stack, memo, fuel).0.answers,
        ),
        memo_clean(
            resolve_clauses(ctx, max_size, table, subst, environment, goal, clauses, n, stack, memo, fuel).1,
        ),
    decreases fuel, n,
{
    if n > 0 && n <= clauses.len() {
        lemma_resolve_clauses_no_duplicates(
            ctx,
            max_size,
            table,
            subst,
            environment,
            goal,
            clauses,
            (n - 1) as nat,
            stack,
            memo,
            fuel,
        );
        let (before, m1) = resolve_clauses(
            ctx,
            max_size,
            table,
            subst,
            environment,
            goal,
            clauses,
            (n - 1) as nat,
            stack,
            memo,
            fuel,
        );
        if fuel > 0 {
            match resolvent(table, subst, environment, goal, clauses[n - 1]) {
                Some((t2, ex)) => {
                    lemma_solve_ex_no_duplicates(ctx, max_size, t2, ex, stack, m1, (fuel - 1) as nat);
                },
                None => {},
            }
        }
        let one = if fuel == 0 {
            floundered()
        } else {
            match resolvent(table, subst, environment, goal, clauses[n - 1]) {
                Some((t2, ex)) => solve_ex(ctx, max_size, t2, ex, stack, m1, (fuel - 1) as nat).0,
                None => no_answers(),
            }
        };
        lemma_merge_no_duplicates(before.answers, one.answers, one.answers.len());
    }
}

} // verus!
