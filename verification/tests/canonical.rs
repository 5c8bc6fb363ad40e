use chalk_slg::canonicalize::Selector;
use chalk_slg::context::SlgContext;
use chalk_slg::infer::{shifted_in, substitute, Canonical, CanonicalVarKind, InferenceTable, UCanonical};
use chalk_slg::symbol::{Head, Kind, TypeName, VariableKind};
use chalk_slg::term::{term_eq, term_size, Term};
use chalk_slg::truncate::truncate;

fn adt(id: u32, args: Vec<Term>) -> Term {
    Term::new(Head::Apply(TypeName::Adt(id)), args)
}

fn var(i: usize) -> Term {
    Term::atom(Head::InferenceVar { kind: Kind::Ty, var: i })
}

fn bound(depth: u32, index: usize) -> Term {
    Term::atom(Head::BoundVar { kind: Kind::Ty, depth, index })
}

fn placeholder(universe: usize, index: usize) -> Term {
    Term::atom(Head::Placeholder { kind: Kind::Ty, universe, index })
}

fn table_with(universes: &[usize]) -> InferenceTable {
    let mut table = InferenceTable::new();
    for &u in universes {
        while table.max_universe() < u {
            table.new_universe();
        }
        table.new_variable(u);
    }
    table
}

#[test]
fn variables_are_numbered_by_first_occurrence() {
    let table = table_with(&[0, 0]);
    let c = table.canonicalize(&adt(1, vec![var(1), var(0), var(1)]));
    assert!(term_eq(&c.quantified.value, &adt(1, vec![bound(0, 0), bound(0, 1), bound(0, 0)])));
    assert_eq!(c.quantified.binders.len(), 2);
    assert_eq!(c.free_vars, vec![
        Head::InferenceVar { kind: Kind::Ty, var: 1 },
        Head::InferenceVar { kind: Kind::Ty, var: 0 },
    ]);
}

#[test]
fn binders_carry_the_universe_of_the_variable() {
    let table = table_with(&[0, 2]);
    let c = table.canonicalize_goal(&adt(1, vec![var(1), var(0)]));
    assert_eq!(c.binders, vec![
        CanonicalVarKind { kind: Kind::Ty, universe: 2 },
        CanonicalVarKind { kind: Kind::Ty, universe: 0 },
    ]);
}

#[test]
fn canonicalization_normalizes() {
    let mut table = table_with(&[0, 0]);
    table.unify(&Vec::new(), &var(0), &adt(2, vec![var(1)])).expect("unifies");
    let c = table.canonicalize_constrained_subst(&adt(1, vec![var(0)]));
    assert!(term_eq(&c.value, &adt(1, vec![adt(2, vec![bound(0, 0)])])));
    assert_eq!(c.binders.len(), 1);
}

#[test]
fn a_variable_under_a_binder_points_to_the_new_outermost_binder() {
    let table = table_with(&[0]);
    let kinds = Term::new(Head::Binders, vec![Term::atom(Head::BinderKind(VariableKind::Ty))]);
    let goal = |inner: Term, outer_var: Term| Term::new(Head::ForAll, vec![kinds_clone(&kinds), adt(1, vec![inner, outer_var])]);
    let c = table.canonicalize(&goal(bound(0, 0), var(0)));
    // the bound variable of the quantifier stays; the inference variable is one binder further out
    assert!(term_eq(&c.quantified.value, &goal(bound(0, 0), bound(1, 0))));
}

fn kinds_clone(t: &Term) -> Term {
    chalk_slg::fold::clone_term(t)
}

#[test]
fn canonicalization_round_trip() {
    let mut table = table_with(&[0, 1, 1]);
    table.unify(&Vec::new(), &var(2), &adt(5, vec![placeholder(1, 3)])).expect("unifies");
    let t = adt(1, vec![var(1), adt(2, vec![var(0), var(2)]), var(1), placeholder(0, 0)]);
    let first = table.canonicalize(&t).quantified;
    let opened = table.instantiate_canonical(&first);
    assert_eq!(table.vars.len(), 5);
    let second = table.canonicalize(&opened).quantified;
    assert!(term_eq(&first.value, &second.value));
    assert_eq!(first.binders, second.binders);
}

#[test]
fn universes_are_renumbered_in_their_order() {
    let table = InferenceTable::new();
    let c = Canonical {
        binders: vec![CanonicalVarKind { kind: Kind::Ty, universe: 5 }],
        value: adt(1, vec![placeholder(5, 0), placeholder(3, 1), placeholder(0, 2)]),
    };
    let u = table.u_canonicalize_goal(&c);
    assert_eq!(u.quantified.universes, 3);
    assert!(term_eq(
        &u.quantified.canonical.value,
        &adt(1, vec![placeholder(2, 0), placeholder(1, 1), placeholder(0, 2)])
    ));
    assert_eq!(u.quantified.canonical.binders, vec![CanonicalVarKind { kind: Kind::Ty, universe: 2 }]);
}

#[test]
fn goals_that_differ_in_universe_numbers_have_one_key() {
    let table = InferenceTable::new();
    let goal = |u: usize| Canonical { binders: vec![], value: adt(1, vec![placeholder(u, 0), placeholder(u + 4, 0)]) };
    let a = table.u_canonicalize(&goal(2)).quantified;
    let b = table.u_canonicalize(&goal(7)).quantified;
    assert!(term_eq(&a.canonical.value, &b.canonical.value));
    assert_eq!(a.universes, b.universes);
}

#[test]
fn renumbered_universes_are_beyond_those_of_the_table() {
    let mut table = table_with(&[0, 3]);
    let value = UCanonical {
        canonical: Canonical {
            binders: vec![CanonicalVarKind { kind: Kind::Ty, universe: 1 }],
            value: adt(1, vec![placeholder(0, 0), placeholder(1, 0), placeholder(2, 0)]),
        },
        universes: 3,
    };
    let c = table.instantiate_universes(&value);
    assert!(term_eq(&c.value, &adt(1, vec![placeholder(0, 0), placeholder(4, 0), placeholder(5, 0)])));
    assert_eq!(c.binders, vec![CanonicalVarKind { kind: Kind::Ty, universe: 4 }]);
    assert_eq!(table.max_universe(), 5);
}

#[test]
fn inversion_turns_placeholders_into_variables() {
    let mut table = table_with(&[0]);
    table.new_universe();
    let goal = adt(1, vec![placeholder(1, 0), placeholder(1, 1), placeholder(1, 0)]);
    let inverted = table.invert(&goal).expect("no inference variable in the goal");
    assert!(term_eq(&inverted, &adt(1, vec![var(1), var(2), var(1)])));
    assert_eq!(table.vars.len(), 3);
    assert_eq!(table.vars[1].universe, 1);
}

#[test]
fn a_goal_with_an_inference_variable_is_not_inverted() {
    let mut table = table_with(&[0]);
    assert!(table.invert_goal(&adt(1, vec![var(0), placeholder(0, 0)])).is_none());
    assert_eq!(table.vars.len(), 1);
    // a bound variable is no obstacle
    table.unify(&Vec::new(), &var(0), &adt(2, vec![])).expect("unifies");
    assert!(term_eq(&table.invert_goal(&adt(1, vec![var(0)])).expect("ground"), &adt(1, vec![adt(2, vec![])])));
}

#[test]
fn a_binder_is_opened_with_placeholders_of_a_new_universe() {
    let mut table = InferenceTable::new();
    let body = adt(1, vec![bound(0, 0), bound(0, 1), bound(1, 0)]);
    let opened = table.instantiate_binders_universally(&vec![VariableKind::Ty, VariableKind::Ty], &body);
    assert_eq!(table.max_universe(), 1);
    // a variable bound further out moves one binder in
    assert!(term_eq(&opened, &adt(1, vec![placeholder(1, 0), placeholder(1, 1), bound(0, 0)])));
}

#[test]
fn a_binder_is_opened_with_fresh_variables_of_the_current_universe() {
    let mut table = table_with(&[0]);
    table.new_universe();
    let opened = table.instantiate_binders_existentially(&vec![VariableKind::Ty, VariableKind::Lifetime], &adt(
        1,
        vec![bound(0, 1), bound(0, 0)],
    ));
    let lifetime = Term::atom(Head::InferenceVar { kind: Kind::Lifetime, var: 2 });
    assert!(term_eq(&opened, &adt(1, vec![lifetime, var(1)])));
    assert_eq!(table.vars[1].universe, 1);
    assert_eq!(table.vars[2].universe, 1);
}

#[test]
fn fresh_subst_has_one_variable_for_each_binder() {
    let mut table = table_with(&[0]);
    let params = table.fresh_subst(&vec![
        CanonicalVarKind { kind: Kind::Ty, universe: 0 },
        CanonicalVarKind { kind: Kind::Const, universe: 0 },
    ]);
    assert_eq!(params.len(), 2);
    assert!(term_eq(&params[0], &var(1)));
    assert!(term_eq(&params[1], &Term::atom(Head::InferenceVar { kind: Kind::Const, var: 2 })));
}

#[test]
fn shifting_moves_free_variables_only() {
    let kinds = Term::new(Head::Binders, vec![Term::atom(Head::BinderKind(VariableKind::Ty))]);
    let t = Term::new(Head::ForAll, vec![kinds_clone(&kinds), adt(1, vec![bound(0, 0), bound(1, 0)])]);
    let shifted = shifted_in(&t, 2);
    let expected = Term::new(Head::ForAll, vec![kinds, adt(1, vec![bound(0, 0), bound(3, 0)])]);
    assert!(term_eq(&shifted, &expected));
    assert!(term_eq(&substitute(&bound(0, 1), &vec![adt(1, vec![]), adt(2, vec![])]), &adt(2, vec![])));
}

#[test]
fn normalize_shallow_moves_the_value_under_binders() {
    let mut table = table_with(&[0]);
    assert!(table.normalize_shallow(&var(0), 0).is_none());
    assert!(table.normalize_lifetime(&adt(1, vec![]), 0).is_none());
    table.unify(&Vec::new(), &var(0), &adt(1, vec![])).expect("unifies");
    assert!(term_eq(&table.normalize_shallow(&var(0), 3).expect("bound"), &adt(1, vec![])));
}

#[test]
fn the_size_of_a_term_is_the_number_of_its_nodes() {
    assert_eq!(term_size(&adt(1, vec![])), 1);
    assert_eq!(term_size(&adt(1, vec![adt(2, vec![var(0)]), var(1)])), 4);
}

#[test]
fn a_term_that_fits_is_not_truncated() {
    let mut table = InferenceTable::new();
    let t = adt(1, vec![adt(2, vec![]), adt(3, vec![])]);
    assert!(truncate(&mut table, 3, &t).is_none());
    assert_eq!(table.vars.len(), 0);
}

#[test]
fn a_term_that_does_not_fit_is_cut() {
    let mut table = InferenceTable::new();
    // 7 nodes, to be cut to 5: each of the two arguments may take 2
    let deep = |id: u32| adt(id, vec![adt(id + 1, vec![adt(id + 2, vec![])])]);
    let t = adt(1, vec![deep(10), deep(20)]);
    assert_eq!(term_size(&t), 7);
    let cut = truncate(&mut table, 5, &t).expect("more than 5 nodes");
    assert!(term_eq(&cut, &adt(1, vec![adt(10, vec![var(0)]), adt(20, vec![var(1)])])));
    assert_eq!(table.vars.len(), 2);
    assert!(term_size(&cut) <= 5);
}

#[test]
fn the_context_truncates_goals_and_answers() {
    let ctx = SlgContext { program_clauses: vec![], coinductive_traits: vec![] };
    let mut table = InferenceTable::new();
    let t = adt(1, vec![adt(2, vec![adt(3, vec![adt(4, vec![])])])]);
    assert!(ctx.truncate_goal(&mut table, 4, &t).is_none());
    assert!(ctx.truncate_answer(&mut table, 4, &t).is_none());
    let cut = ctx.truncate_goal(&mut table, 3, &t).expect("more than 3 nodes");
    assert!(term_eq(&cut, &adt(1, vec![adt(2, vec![var(0)])])));
    let cut = ctx.truncate_answer(&mut table, 2, &t).expect("more than 2 nodes");
    assert!(term_eq(&cut, &adt(1, vec![var(1)])));
}

#[test]
fn leaves_are_told_apart_by_the_selector() {
    let ls = vec![
        (Head::Placeholder { kind: Kind::Ty, universe: 1, index: 0 }, 0u32),
        (Head::Placeholder { kind: Kind::Ty, universe: 1, index: 1 }, 0u32),
        (Head::InferenceVar { kind: Kind::Ty, var: 4 }, 0u32),
        (Head::Placeholder { kind: Kind::Ty, universe: 1, index: 0 }, 0u32),
    ];
    assert_eq!(chalk_slg::canonicalize::collect_distinct(&ls, Selector::Placeholder).len(), 2);
    assert_eq!(chalk_slg::canonicalize::collect_distinct(&ls, Selector::Universe).len(), 1);
    assert_eq!(chalk_slg::canonicalize::collect_distinct(&ls, Selector::Var).len(), 1);
}

#[test]
fn the_names_of_variables_do_not_show_in_the_canonical_form() {
    let here = table_with(&[0, 1, 0]);
    let there = table_with(&[0, 0, 0, 0, 1, 0]);
    let a = here.canonicalize(&adt(1, vec![var(1), adt(2, vec![var(0)]), var(1)])).quantified;
    // ?1 is called ?4 and ?0 is called ?3
    let b = there.canonicalize(&adt(1, vec![var(4), adt(2, vec![var(3)]), var(4)])).quantified;
    assert!(term_eq(&a.value, &b.value));
    assert_eq!(a.binders, b.binders);
    // terms that differ in more than names differ in their canonical forms
    let c = here.canonicalize(&adt(1, vec![var(1), adt(2, vec![var(1)]), var(1)])).quantified;
    assert!(!term_eq(&a.value, &c.value));
}

#[test]
fn a_type_is_cut_to_the_budget_and_a_goal_keeps_the_nodes_that_are_no_types() {
    // a type nested twenty deep
    let mut nested = adt(0, vec![]);
    for id in 1..20 {
        nested = adt(id, vec![nested]);
    }
    assert_eq!(term_size(&nested), 20);
    for budget in 1..20 {
        let mut table = InferenceTable::new();
        let cut = truncate(&mut table, budget, &nested).expect("more nodes than the budget");
        assert!(term_size(&cut) <= budget, "budget {}: {} nodes", budget, term_size(&cut));
    }
    // the fact that a trait holds of two such types: the fact and the
    // roots of its two arguments stay, whatever the budget
    let fact = |a: Term, b: Term| Term::new(Head::Fact(chalk_slg::symbol::Predicate::Implemented(7)), vec![a, b]);
    let mut other = adt(100, vec![]);
    for id in 101..120 {
        other = adt(id, vec![other]);
    }
    let goal = fact(nested, other);
    assert_eq!(term_size(&goal), 41);
    for budget in 0..41 {
        let mut table = InferenceTable::new();
        let cut = truncate(&mut table, budget, &goal).expect("more nodes than the budget");
        assert!(term_size(&cut) <= budget.max(1) + 3, "budget {}: {} nodes", budget, term_size(&cut));
        assert!(matches!(cut.head, Head::Fact(_)) && cut.args.len() == 2);
    }
    let mut table = InferenceTable::new();
    let cut = truncate(&mut table, 1, &goal).expect("more than one node");
    assert!(term_eq(&cut, &fact(var(0), var(1))));
}
