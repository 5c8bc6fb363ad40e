use chalk_slg::ex_clause::{ExClause, Literal};
use chalk_slg::infer::InferenceTable;
use chalk_slg::symbol::{Head, Kind, Predicate, TypeName};
use chalk_slg::term::{term_eq, Term};
use chalk_slg::unify::UnificationResult;

fn adt(id: u32, args: Vec<Term>) -> Term {
    Term::new(Head::Apply(TypeName::Adt(id)), args)
}

fn placeholder(universe: usize, index: usize) -> Term {
    Term::atom(Head::Placeholder { kind: Kind::Ty, universe, index })
}

fn lifetime(universe: usize, index: usize) -> Term {
    Term::atom(Head::Placeholder { kind: Kind::Lifetime, universe, index })
}

fn projection(id: u32, args: Vec<Term>) -> Term {
    Term::new(Head::Alias, vec![Term::new(Head::Projection(id), args)])
}

fn no_environment() -> Vec<Term> {
    Vec::new()
}

#[test]
fn a_term_unifies_with_itself_and_nothing_changes() {
    let mut table = InferenceTable::new();
    let v = table.new_variable(0).to_ty();
    let t = adt(1, vec![v, placeholder(0, 0), projection(7, vec![adt(2, vec![])])]);
    let r = table.unify(&no_environment(), &t, &t).expect("a term unifies with itself");
    assert!(r.goals.is_empty());
    assert!(r.constraints.is_empty());
    assert!(table.vars[0].value.is_none());
    assert_eq!(table.vars.len(), 1);
}

#[test]
fn a_variable_is_bound_to_the_other_term() {
    let mut table = InferenceTable::new();
    let v = table.new_variable(0).to_ty();
    let r = table.unify(&no_environment(), &v, &adt(3, vec![])).expect("unifies");
    assert!(r.goals.is_empty() && r.constraints.is_empty());
    assert!(term_eq(&table.normalize_deep(&v), &adt(3, vec![])));
    assert!(term_eq(&table.normalize_shallow(&v, 0).expect("bound"), &adt(3, vec![])));
}

#[test]
fn arguments_are_unified_one_by_one() {
    let mut table = InferenceTable::new();
    let v0 = table.new_variable(0).to_ty();
    let v1 = table.new_variable(0).to_ty();
    let a = adt(1, vec![v0, adt(2, vec![])]);
    let b = adt(1, vec![adt(3, vec![]), v1]);
    table.unify(&no_environment(), &a, &b).expect("unifies");
    assert!(term_eq(&table.normalize_deep(&a), &adt(1, vec![adt(3, vec![]), adt(2, vec![])])));
    assert!(term_eq(&table.normalize_deep(&b), &table.normalize_deep(&a)));
}

#[test]
fn a_binding_reaches_the_values_bound_before() {
    let mut table = InferenceTable::new();
    let v0 = table.new_variable(0).to_ty();
    let v1 = table.new_variable(0).to_ty();
    let fresh = |i: usize| Term::atom(Head::InferenceVar { kind: Kind::Ty, var: i });
    table.unify(&no_environment(), &v0, &adt(1, vec![fresh(1)])).expect("unifies");
    table.unify(&no_environment(), &v1, &adt(2, vec![])).expect("unifies");
    // the value of ?0 holds no bound variable any more
    assert!(term_eq(table.vars[0].value.as_ref().expect("bound"), &adt(1, vec![adt(2, vec![])])));
}

#[test]
fn different_constructors_do_not_unify() {
    let mut table = InferenceTable::new();
    assert!(table.unify(&no_environment(), &adt(1, vec![]), &adt(2, vec![])).is_err());
}

#[test]
fn different_numbers_of_arguments_do_not_unify() {
    let mut table = InferenceTable::new();
    let a = adt(1, vec![adt(2, vec![])]);
    let b = adt(1, vec![adt(2, vec![]), adt(2, vec![])]);
    assert!(table.unify(&no_environment(), &a, &b).is_err());
}

#[test]
fn a_variable_does_not_unify_with_a_term_that_holds_it() {
    let mut table = InferenceTable::new();
    let v = table.new_variable(0).to_ty();
    let inside = adt(1, vec![Term::atom(Head::InferenceVar { kind: Kind::Ty, var: 0 })]);
    assert!(table.unify(&no_environment(), &v, &inside).is_err());
    assert!(table.vars[0].value.is_none());
}

#[test]
fn a_variable_does_not_see_a_placeholder_of_a_universe_further_in() {
    let mut table = InferenceTable::new();
    let v = table.new_variable(0).to_ty();
    let inner = table.new_universe();
    assert_eq!(inner, 1);
    assert!(table.unify(&no_environment(), &v, &adt(1, vec![placeholder(1, 0)])).is_err());
    // a variable of the inner universe does
    let w = table.new_variable(1).to_ty();
    assert!(table.unify(&no_environment(), &w, &adt(1, vec![placeholder(1, 0)])).is_ok());
}

#[test]
fn a_placeholder_does_not_unify_with_a_term_of_a_universe_further_in() {
    let mut table = InferenceTable::new();
    assert!(table.unify(&no_environment(), &placeholder(0, 0), &adt(1, vec![placeholder(1, 0)])).is_err());
    assert!(table.unify(&no_environment(), &placeholder(0, 0), &placeholder(1, 0)).is_err());
    assert!(table.unify(&no_environment(), &placeholder(0, 0), &placeholder(0, 0)).is_ok());
}

#[test]
fn binding_moves_the_variables_of_the_value_outwards() {
    let mut table = InferenceTable::new();
    let outer = table.new_variable(0).to_ty();
    table.new_universe();
    let _inner = table.new_variable(1);
    let value = adt(1, vec![Term::atom(Head::InferenceVar { kind: Kind::Ty, var: 1 })]);
    table.unify(&no_environment(), &outer, &value).expect("unifies");
    assert_eq!(table.vars[1].universe, 0);
}

#[test]
fn an_alias_is_put_off_as_a_goal() {
    let mut table = InferenceTable::new();
    let alias = projection(7, vec![adt(2, vec![])]);
    let environment = vec![Term::atom(Head::Fact(Predicate::Reveal))];
    let r = table.unify(&environment, &adt(9, vec![alias]), &adt(9, vec![adt(3, vec![])])).expect("unifies");
    assert!(r.constraints.is_empty());
    assert_eq!(r.goals.len(), 1);
    let expected = Term::new(
        Head::InEnvironment,
        vec![
            Term::atom(Head::Fact(Predicate::Reveal)),
            Term::new(
                Head::Fact(Predicate::AliasEq),
                vec![Term::new(Head::Projection(7), vec![adt(2, vec![])]), adt(3, vec![])],
            ),
        ],
    );
    assert!(term_eq(&r.goals[0], &expected));
}

#[test]
fn a_variable_is_not_bound_to_an_alias() {
    let mut table = InferenceTable::new();
    let v = table.new_variable(0).to_ty();
    let r = table.unify(&no_environment(), &v, &projection(7, vec![])).expect("unifies");
    assert_eq!(r.goals.len(), 1);
    assert!(table.vars[0].value.is_none());
}

#[test]
fn two_lifetimes_are_put_off_as_a_constraint() {
    let mut table = InferenceTable::new();
    let r = table.unify(&no_environment(), &lifetime(0, 0), &lifetime(0, 1)).expect("unifies");
    assert!(r.goals.is_empty());
    assert_eq!(r.constraints.len(), 1);
    let expected = Term::new(
        Head::InEnvironment,
        vec![Term::new(Head::LifetimeEq, vec![lifetime(0, 0), lifetime(0, 1)])],
    );
    assert!(term_eq(&r.constraints[0], &expected));
}

#[test]
fn a_failed_unification_leaves_the_table_as_it_was() {
    let mut table = InferenceTable::new();
    let v = table.new_variable(0).to_ty();
    // the last pair is taken up first and binds ?0; the first pair then fails
    let a = adt(1, vec![adt(2, vec![]), v]);
    let b = adt(1, vec![adt(3, vec![]), adt(4, vec![])]);
    assert!(table.unify(&no_environment(), &a, &b).is_err());
    assert!(table.vars[0].value.is_none());
}

#[test]
fn a_sort_mismatch_does_not_unify() {
    let mut table = InferenceTable::new();
    let l = table.new_variable(0).to_lifetime();
    assert!(table.unify(&no_environment(), &l, &adt(1, vec![])).is_err());
}

#[test]
fn unify_domain_goals_and_parameters_unify() {
    let mut table = InferenceTable::new();
    let v = table.new_variable(0).to_ty();
    let goal = |self_ty: Term| Term::new(Head::Fact(Predicate::Implemented(5)), vec![self_ty]);
    table.unify_domain_goals(&no_environment(), &goal(v), &goal(adt(1, vec![]))).expect("unifies");
    assert!(term_eq(table.vars[0].value.as_ref().expect("bound"), &adt(1, vec![])));
    let mut table = InferenceTable::new();
    let w = table.new_variable(0).to_ty();
    table.unify_parameters(&no_environment(), &w, &adt(2, vec![])).expect("unifies");
    assert!(term_eq(table.vars[0].value.as_ref().expect("bound"), &adt(2, vec![])));
    let other = Term::new(Head::Fact(Predicate::Implemented(6)), vec![adt(1, vec![])]);
    assert!(table.unify_domain_goals(&no_environment(), &goal(adt(1, vec![])), &other).is_err());
}

#[test]
fn into_ex_clause_adds_goals_as_positive_literals() {
    let mut ex = ExClause {
        subst: Term::new(Head::List, vec![]),
        constraints: vec![adt(1, vec![])],
        subgoals: vec![Literal::Negative(adt(2, vec![]))],
    };
    let result = UnificationResult { goals: vec![adt(3, vec![]), adt(4, vec![])], constraints: vec![adt(5, vec![])] };
    result.into_ex_clause(&mut ex);
    assert_eq!(ex.subgoals.len(), 3);
    assert!(matches!(&ex.subgoals[0], Literal::Negative(g) if term_eq(g, &adt(2, vec![]))));
    assert!(matches!(&ex.subgoals[1], Literal::Positive(g) if term_eq(g, &adt(3, vec![]))));
    assert!(matches!(&ex.subgoals[2], Literal::Positive(g) if term_eq(g, &adt(4, vec![]))));
    assert_eq!(ex.constraints.len(), 2);
    assert!(term_eq(&ex.constraints[0], &adt(1, vec![])));
    assert!(term_eq(&ex.constraints[1], &adt(5, vec![])));
}

#[test]
fn inference_variables_become_terms_of_their_sort() {
    let mut table = InferenceTable::new();
    let v = table.new_variable(0);
    assert_eq!(v.index, 0);
    assert!(term_eq(&v.to_ty(), &Term::atom(Head::InferenceVar { kind: Kind::Ty, var: 0 })));
    assert!(term_eq(&v.to_lifetime(), &Term::atom(Head::InferenceVar { kind: Kind::Lifetime, var: 0 })));
    assert!(term_eq(&v.to_const(), &Term::atom(Head::InferenceVar { kind: Kind::Const, var: 0 })));
    assert_eq!(table.new_variable(0).index, 1);
}
