use chalk_slg::context::SlgContext;
use chalk_slg::infer::{Canonical, CanonicalVarKind, InferenceTable, UCanonical};
use chalk_slg::solve::{solve, solve_goal, solve_in_environment, solve_with_memo, MemoTable, Solution};
use chalk_slg::symbol::{ClausePriority, Head, Kind, Predicate, TypeName, VariableKind};
use chalk_slg::term::{term_eq, Term};

fn adt(id: u32, args: Vec<Term>) -> Term {
    Term::new(Head::Apply(TypeName::Adt(id)), args)
}

fn bound(index: usize) -> Term {
    Term::atom(Head::BoundVar { kind: Kind::Ty, depth: 0, index })
}

fn var(i: usize) -> Term {
    Term::atom(Head::InferenceVar { kind: Kind::Ty, var: i })
}

fn implemented(trait_id: u32, args: Vec<Term>) -> Term {
    Term::new(Head::Fact(Predicate::Implemented(trait_id)), args)
}

fn kinds(n: usize) -> Term {
    Term::new(Head::Binders, (0..n).map(|_| Term::atom(Head::BinderKind(VariableKind::Ty))).collect())
}

fn clause(n: usize, consequence: Term, conditions: Vec<Term>) -> Term {
    let mut args = vec![kinds(n), consequence];
    args.extend(conditions);
    Term::new(Head::Clause(ClausePriority::High), args)
}

fn context(clauses: Vec<Term>, coinductive: Vec<u32>) -> SlgContext {
    SlgContext { program_clauses: clauses, coinductive_traits: coinductive }
}

fn answer(ctx: &SlgContext, goal: Term) -> String {
    solve_in_environment(ctx, &Vec::new(), &goal, 30, 40).describe()
}

const SEND: u32 = 1;
const LIST: u32 = 2;
const FOO: u32 = 3;
const VEC: u32 = 4;
const BAR: u32 = 5;

#[test]
fn a_coinductive_goal_that_comes_up_again_holds() {
    // Implemented(List: Send) :- Implemented(List: Send).
    let cycle = || vec![clause(0, implemented(SEND, vec![adt(LIST, vec![])]), vec![implemented(SEND, vec![adt(LIST, vec![])])])];
    let goal = || implemented(SEND, vec![adt(LIST, vec![])]);
    assert_eq!(answer(&context(cycle(), vec![SEND]), goal()), "Unique; substitution [], lifetime constraints []");
    // the same goal, not coinductive, fails at the cycle
    assert_eq!(answer(&context(cycle(), vec![]), goal()), "No possible solution");
}

#[test]
fn a_cycle_on_the_stack_is_settled_without_search() {
    let ctx = context(vec![], vec![SEND]);
    let key = UCanonical {
        canonical: Canonical {
            binders: vec![],
            value: Term::new(Head::InEnvironment, vec![implemented(SEND, vec![adt(LIST, vec![])])]),
        },
        universes: 1,
    };
    let stack = vec![UCanonical {
        canonical: Canonical {
            binders: vec![],
            value: Term::new(Head::InEnvironment, vec![implemented(SEND, vec![adt(LIST, vec![])])]),
        },
        universes: 1,
    }];
    // no fuel is needed at a cycle
    let outcome = solve_goal(&ctx, 30, &key, &stack, &mut MemoTable::new(), 0);
    assert_eq!(outcome.answers.len(), 1);
    assert!(!outcome.floundered);
    assert_eq!(outcome.reach, Some(0));
    let not_coinductive = context(vec![], vec![]);
    let outcome = solve_goal(&not_coinductive, 30, &key, &stack, &mut MemoTable::new(), 0);
    assert!(outcome.answers.is_empty() && !outcome.floundered);
}

#[test]
fn a_goal_that_grows_without_bound_is_ambiguous() {
    // forall<T> Implemented(Foo<T>: Send) :- Implemented(Foo<Vec<T>>: Send).
    let grows = || {
        vec![clause(
            1,
            implemented(SEND, vec![adt(FOO, vec![bound(0)])]),
            vec![implemented(SEND, vec![adt(FOO, vec![adt(VEC, vec![bound(0)])])])],
        )]
    };
    let goal = || implemented(SEND, vec![adt(FOO, vec![adt(BAR, vec![])])]);
    // the size bound stops the search
    let by_size = solve_in_environment(&context(grows(), vec![]), &Vec::new(), &goal(), 8, 1000);
    assert_eq!(by_size.describe(), "Ambiguous; no inference guidance");
    // so does the fuel
    let by_fuel = solve_in_environment(&context(grows(), vec![]), &Vec::new(), &goal(), usize::MAX, 25);
    assert_eq!(by_fuel.describe(), "Ambiguous; no inference guidance");
}

#[test]
fn without_fuel_nothing_is_decided() {
    let ctx = context(vec![clause(0, implemented(SEND, vec![adt(BAR, vec![])]), vec![])], vec![]);
    let goal = implemented(SEND, vec![adt(BAR, vec![])]);
    assert!(matches!(solve_in_environment(&ctx, &Vec::new(), &goal, 30, 0), Solution::Ambiguous));
    assert!(matches!(solve_in_environment(&ctx, &Vec::new(), &goal, 30, 10), Solution::Unique(_)));
}

#[test]
fn a_unique_solution_names_the_value_of_each_variable() {
    let ctx = context(vec![clause(0, implemented(SEND, vec![adt(BAR, vec![]), adt(VEC, vec![adt(BAR, vec![])])]), vec![])], vec![]);
    let goal = implemented(SEND, vec![var(0), var(1)]);
    assert_eq!(
        answer(&ctx, goal),
        "Unique; substitution [?0 := Adt#5, ?1 := Adt#4<Adt#5>], lifetime constraints []"
    );
}

#[test]
fn an_answer_may_leave_a_variable_open() {
    // forall<T> Implemented(Vec<T>: Send).
    let ctx = context(vec![clause(1, implemented(SEND, vec![adt(VEC, vec![bound(0)])]), vec![])], vec![]);
    assert_eq!(
        answer(&ctx, implemented(SEND, vec![var(0)])),
        "Unique; substitution [?0 := Adt#4<^0.0>], lifetime constraints []"
    );
}

#[test]
fn two_answers_are_ambiguous_and_equal_answers_are_one() {
    let fact = |id: u32| clause(0, implemented(SEND, vec![adt(id, vec![])]), vec![]);
    assert_eq!(answer(&context(vec![fact(BAR), fact(LIST)], vec![]), implemented(SEND, vec![var(0)])), "Ambiguous; no inference guidance");
    assert_eq!(
        answer(&context(vec![fact(BAR), fact(BAR)], vec![]), implemented(SEND, vec![var(0)])),
        "Unique; substitution [?0 := Adt#5], lifetime constraints []"
    );
    assert_eq!(answer(&context(vec![], vec![]), implemented(SEND, vec![var(0)])), "No possible solution");
}

#[test]
fn a_negation_holds_where_the_goal_fails() {
    let ctx = || context(vec![clause(0, implemented(SEND, vec![adt(BAR, vec![])]), vec![])], vec![]);
    let not = |g: Term| Term::new(Head::Not, vec![g]);
    assert_eq!(answer(&ctx(), not(implemented(SEND, vec![adt(LIST, vec![])]))), "Unique; substitution [], lifetime constraints []");
    assert_eq!(answer(&ctx(), not(implemented(SEND, vec![adt(BAR, vec![])]))), "No possible solution");
    // a negation with a variable cannot be decided
    assert_eq!(answer(&ctx(), not(implemented(SEND, vec![var(0)]))), "Ambiguous; no inference guidance");
}

#[test]
fn a_conjunction_needs_every_conjunct() {
    let ctx = || context(vec![clause(0, implemented(SEND, vec![adt(BAR, vec![])]), vec![])], vec![]);
    let all = |gs: Vec<Term>| Term::new(Head::All, gs);
    let holds = || implemented(SEND, vec![adt(BAR, vec![])]);
    let fails = || implemented(SEND, vec![adt(LIST, vec![])]);
    assert_eq!(answer(&ctx(), all(vec![holds(), holds()])), "Unique; substitution [], lifetime constraints []");
    assert_eq!(answer(&ctx(), all(vec![holds(), fails()])), "No possible solution");
    assert_eq!(answer(&ctx(), all(vec![])), "Unique; substitution [], lifetime constraints []");
}

#[test]
fn an_implication_assumes_its_hypotheses() {
    let goal = Term::new(
        Head::Implies,
        vec![clause(0, implemented(SEND, vec![adt(LIST, vec![])]), vec![]), implemented(SEND, vec![adt(LIST, vec![])])],
    );
    assert_eq!(answer(&context(vec![], vec![]), goal), "Unique; substitution [], lifetime constraints []");
}

#[test]
fn a_universal_goal_holds_of_a_placeholder_only() {
    let for_all = |body: Term| Term::new(Head::ForAll, vec![kinds(1), body]);
    let exists = |body: Term| Term::new(Head::Exists, vec![kinds(1), body]);
    let general = context(vec![clause(1, implemented(SEND, vec![adt(VEC, vec![bound(0)])]), vec![])], vec![]);
    assert_eq!(answer(&general, for_all(implemented(SEND, vec![adt(VEC, vec![bound(0)])]))), "Unique; substitution [], lifetime constraints []");
    let special = context(vec![clause(0, implemented(SEND, vec![adt(VEC, vec![adt(BAR, vec![])])]), vec![])], vec![]);
    assert_eq!(answer(&special, for_all(implemented(SEND, vec![adt(VEC, vec![bound(0)])]))), "No possible solution");
    // the variable of a leading existential quantifier is what the solution finds
    assert_eq!(
        answer(&special, exists(implemented(SEND, vec![adt(VEC, vec![bound(0)])]))),
        "Unique; substitution [?0 := Adt#5], lifetime constraints []"
    );
    // exists<T> { forall<U> { T = U } } fails: T does not see U
    let equal = Term::new(Head::Equal, vec![Term::atom(Head::BoundVar { kind: Kind::Ty, depth: 1, index: 0 }), bound(0)]);
    assert_eq!(answer(&context(vec![], vec![]), exists(for_all(equal))), "No possible solution");
}

#[test]
fn an_equation_is_unified_and_the_unknown_is_ambiguous() {
    let equal = |a: Term, b: Term| Term::new(Head::Equal, vec![a, b]);
    let ctx = || context(vec![], vec![]);
    assert_eq!(answer(&ctx(), equal(var(0), adt(BAR, vec![]))), "Unique; substitution [?0 := Adt#5], lifetime constraints []");
    assert_eq!(answer(&ctx(), equal(adt(LIST, vec![]), adt(BAR, vec![]))), "No possible solution");
    assert_eq!(answer(&ctx(), Term::atom(Head::CannotProve)), "Ambiguous; no inference guidance");
    // two lifetimes that differ leave a constraint
    let lifetime = |i: usize| Term::atom(Head::Placeholder { kind: Kind::Lifetime, universe: 0, index: i });
    assert_eq!(
        answer(&ctx(), equal(lifetime(0), lifetime(1))),
        "Unique; substitution [], lifetime constraints [InEnvironment<LifetimeEq<!0_0, !0_1>>]"
    );
}

#[test]
fn the_clauses_of_the_environment_come_first_and_all_could_match() {
    let ctx = context(
        vec![
            clause(0, implemented(SEND, vec![adt(BAR, vec![])]), vec![]),
            clause(0, implemented(7, vec![adt(BAR, vec![])]), vec![]),
            clause(1, implemented(SEND, vec![bound(0)]), vec![]),
            adt(BAR, vec![]),
        ],
        vec![],
    );
    let environment = vec![
        clause(0, implemented(SEND, vec![adt(LIST, vec![])]), vec![]),
        clause(0, implemented(SEND, vec![adt(BAR, vec![adt(BAR, vec![])])]), vec![]),
    ];
    let found = ctx.program_clauses(&environment, &implemented(SEND, vec![adt(BAR, vec![])]));
    // of the environment neither clause could match; of the program the first and the third
    assert_eq!(found.len(), 2);
    assert!(term_eq(&found[0], &ctx.program_clauses[0]));
    assert!(term_eq(&found[1], &ctx.program_clauses[2]));
    let found = ctx.program_clauses(&environment, &implemented(SEND, vec![var(0)]));
    assert_eq!(found.len(), 4);
    assert!(term_eq(&found[0], &environment[0]));
    assert!(term_eq(&found[1], &environment[1]));
}

#[test]
fn coinductive_goals_are_auto_traits_and_well_formedness() {
    let ctx = context(vec![], vec![SEND]);
    assert!(ctx.is_coinductive(&implemented(SEND, vec![adt(BAR, vec![])])));
    assert!(!ctx.is_coinductive(&implemented(9, vec![adt(BAR, vec![])])));
    assert!(ctx.is_coinductive(&Term::new(Head::Fact(Predicate::WellFormedTy), vec![adt(BAR, vec![])])));
    assert!(ctx.is_coinductive(&Term::new(Head::Fact(Predicate::WellFormedTrait(9)), vec![adt(BAR, vec![])])));
    assert!(!ctx.is_coinductive(&Term::new(Head::Fact(Predicate::AliasEq), vec![])));
    let for_all = Term::new(Head::ForAll, vec![kinds(1), implemented(SEND, vec![bound(0)])]);
    assert!(ctx.is_coinductive(&for_all));
    assert!(ctx.is_coinductive(&Term::new(Head::InEnvironment, vec![for_all])));
    assert!(!ctx.is_coinductive(&Term::new(Head::Not, vec![implemented(SEND, vec![])])));
}

#[test]
fn a_goal_in_canonical_form_is_solved_as_it_stands() {
    let ctx = context(vec![clause(0, implemented(SEND, vec![adt(BAR, vec![])]), vec![])], vec![]);
    let table = InferenceTable::new();
    let goal = Term::new(Head::InEnvironment, vec![implemented(SEND, vec![var(0)])]);
    let key = table.u_canonicalize_goal(&table.canonicalize_goal(&goal)).quantified;
    assert_eq!(key.canonical.binders, vec![CanonicalVarKind { kind: Kind::Ty, universe: 0 }]);
    match solve(&ctx, &key, 30, 40) {
        Solution::Unique(c) => {
            assert!(c.binders.is_empty());
            let expected = Term::new(
                Head::List,
                vec![Term::new(Head::List, vec![adt(BAR, vec![])]), Term::new(Head::List, vec![])],
            );
            assert!(term_eq(&c.value, &expected));
        }
        other => panic!("expected a unique solution, got {:?}", other),
    }
}

#[test]
fn conditions_are_taken_up_from_the_last_to_the_first() {
    // Implemented(Bar: Send) :- CannotProve, Implemented(List: Send).
    // the last condition fails, so the first is never taken up
    let ctx = context(
        vec![clause(
            0,
            implemented(SEND, vec![adt(BAR, vec![])]),
            vec![Term::atom(Head::CannotProve), implemented(SEND, vec![adt(LIST, vec![])])],
        )],
        vec![],
    );
    assert_eq!(answer(&ctx, implemented(SEND, vec![adt(BAR, vec![])])), "No possible solution");
}

#[test]
fn clauses_of_high_priority_are_tried_first() {
    let low = Term::new(Head::Clause(ClausePriority::Low), vec![kinds(0), implemented(SEND, vec![adt(LIST, vec![])])]);
    let high = clause(0, implemented(SEND, vec![adt(BAR, vec![])]), vec![]);
    let ordered = chalk_slg::solve::order_by_priority(&vec![
        chalk_slg::fold::clone_term(&low),
        chalk_slg::fold::clone_term(&high),
    ]);
    assert!(term_eq(&ordered[0], &high));
    assert!(term_eq(&ordered[1], &low));
    let ctx = context(vec![low, high], vec![]);
    let table = InferenceTable::new();
    let goal = Term::new(Head::InEnvironment, vec![implemented(SEND, vec![var(0)])]);
    let key = table.u_canonicalize_goal(&table.canonicalize_goal(&goal)).quantified;
    let outcome = solve_goal(&ctx, 30, &key, &Vec::new(), &mut MemoTable::new(), 40);
    assert!(!outcome.floundered);
    let firsts: Vec<_> = outcome.answers.iter().map(|a| a.value.args[0].args[0].head).collect();
    assert_eq!(firsts, vec![Head::Apply(TypeName::Adt(BAR)), Head::Apply(TypeName::Adt(LIST))]);
}

#[test]
fn leading_existential_quantifiers_are_opened() {
    let mut table = InferenceTable::new();
    let exists = |body: Term| Term::new(Head::Exists, vec![kinds(1), body]);
    let depth = |d: u32| Term::atom(Head::BoundVar { kind: Kind::Ty, depth: d, index: 0 });
    let goal = exists(exists(implemented(SEND, vec![depth(1), depth(0)])));
    let peeled = chalk_slg::solve::peel(&mut table, &goal, 10);
    assert!(term_eq(&peeled, &implemented(SEND, vec![var(0), var(1)])));
    assert_eq!(table.vars.len(), 2);
    // no further than the fuel reaches
    let mut table = InferenceTable::new();
    let peeled = chalk_slg::solve::peel(&mut table, &goal, 1);
    assert!(term_eq(&peeled, &exists(implemented(SEND, vec![var(0), depth(0)]))));
}

#[test]
fn a_solution_is_unique_or_not() {
    let ctx = context(vec![clause(0, implemented(SEND, vec![adt(BAR, vec![])]), vec![])], vec![]);
    assert!(solve_in_environment(&ctx, &Vec::new(), &implemented(SEND, vec![adt(BAR, vec![])]), 30, 40).is_unique());
    assert!(!solve_in_environment(&ctx, &Vec::new(), &implemented(SEND, vec![adt(LIST, vec![])]), 30, 40).is_unique());
}

fn key_of(goal: Term) -> chalk_slg::infer::UCanonical {
    let table = InferenceTable::new();
    let goal = Term::new(Head::InEnvironment, vec![goal]);
    table.u_canonicalize_goal(&table.canonicalize_goal(&goal)).quantified
}

#[test]
fn the_answers_of_a_complete_table_are_recorded_and_replayed() {
    // Implemented(Bar: Send) :- Implemented(List: Send).   Implemented(List: Send).
    let ctx = context(
        vec![
            clause(0, implemented(SEND, vec![adt(BAR, vec![])]), vec![implemented(SEND, vec![adt(LIST, vec![])])]),
            clause(0, implemented(SEND, vec![adt(LIST, vec![])]), vec![]),
        ],
        vec![],
    );
    let mut memo = MemoTable::new();
    let solution = solve_with_memo(&ctx, &key_of(implemented(SEND, vec![adt(BAR, vec![])])), 30, 40, &mut memo);
    assert!(solution.is_unique());
    // the table of the condition was complete first, then that of the goal
    assert_eq!(memo.tables.len(), 2);
    assert!(term_eq(&memo.tables[0].0.canonical.value, &key_of(implemented(SEND, vec![adt(LIST, vec![])])).canonical.value));
    assert!(term_eq(&memo.tables[1].0.canonical.value, &key_of(implemented(SEND, vec![adt(BAR, vec![])])).canonical.value));
    assert_eq!(memo.tables[0].1.len(), 1);
    // recorded answers are replayed without fuel and without the clauses
    let nothing = context(vec![], vec![]);
    let replayed = solve_with_memo(&nothing, &key_of(implemented(SEND, vec![adt(LIST, vec![])])), 30, 0, &mut memo);
    assert!(replayed.is_unique());
    assert_eq!(memo.tables.len(), 2);
    assert!(memo.lookup(&key_of(implemented(SEND, vec![adt(VEC, vec![])]))).is_none());
}

#[test]
fn a_table_that_came_back_to_a_table_below_it_is_not_recorded() {
    // Implemented(Bar: Send) :- Implemented(List: Send).   Implemented(List: Send) :- Implemented(Bar: Send).
    let ctx = context(
        vec![
            clause(0, implemented(SEND, vec![adt(BAR, vec![])]), vec![implemented(SEND, vec![adt(LIST, vec![])])]),
            clause(0, implemented(SEND, vec![adt(LIST, vec![])]), vec![implemented(SEND, vec![adt(BAR, vec![])])]),
        ],
        vec![],
    );
    let mut memo = MemoTable::new();
    let solution = solve_with_memo(&ctx, &key_of(implemented(SEND, vec![adt(BAR, vec![])])), 30, 40, &mut memo);
    assert_eq!(solution.describe(), "No possible solution");
    // the table of List depends on the table of Bar, so only that of Bar is complete
    assert_eq!(memo.tables.len(), 1);
    assert!(term_eq(&memo.tables[0].0.canonical.value, &key_of(implemented(SEND, vec![adt(BAR, vec![])])).canonical.value));
    assert!(memo.tables[0].1.is_empty());
    // a search that gave up records nothing
    let mut memo = MemoTable::new();
    let solution = solve_with_memo(&ctx, &key_of(implemented(SEND, vec![adt(BAR, vec![])])), 30, 3, &mut memo);
    assert_eq!(solution.describe(), "Ambiguous; no inference guidance");
    assert!(memo.tables.is_empty());
}
