use chalk_slg::ast::{
    AdtDefn, AdtFlags, AdtKind, AdtRepr, AssocTyDefn, AssocTyValue, DomainGoal, Field, GenericArg, Goal, Identifier,
    Impl, ImplType, InlineBound, Item, LeafGoal, OpaqueTyDefn, Polarity, Program, QuantifiedInlineBound,
    QuantifiedWhereClause, TraitBound, TraitDefn, TraitFlags, TraitRef, Ty, Variant, VariableKind, WhereClause,
};
use chalk_slg::clauses::{context_of, program_clauses_of, solve_in_program};
use chalk_slg::lowering::env::{Env, ProgramLowerer, RawId, WithKind};
use chalk_slg::lowering::error::RustIrError;
use chalk_slg::lowering::program::{lower_goal, lower_program, LoweredProgram};
use chalk_slg::symbol::{ClausePriority, Head, Kind, Predicate, Scalar, TypeName, UintTy};
use chalk_slg::term::{term_eq, Term};

// ---- syntax ------------------------------------------------------------

fn ident(s: &str) -> Identifier {
    Identifier { str: s.to_string() }
}

fn ty(name: &str) -> Ty {
    Ty::Id { name: ident(name) }
}

fn applied(name: &str, args: Vec<Ty>) -> Ty {
    Ty::Apply { name: ident(name), args: args.into_iter().map(GenericArg::Ty).collect() }
}

fn type_params(params: &[&str]) -> Vec<VariableKind> {
    params.iter().map(|p| VariableKind::Ty(ident(p))).collect()
}

fn structure(name: &str, params: &[&str], fields: Vec<Ty>) -> Item {
    Item::AdtDefn(AdtDefn {
        name: ident(name),
        variable_kinds: type_params(params),
        where_clauses: vec![],
        variants: vec![Variant {
            name: ident(name),
            fields: fields.into_iter().map(|ty| Field { name: ident("f"), ty }).collect(),
        }],
        flags: AdtFlags { upstream: false, fundamental: false, phantom_data: false, kind: AdtKind::Struct },
        repr: AdtRepr { repr_c: false, repr_packed: false },
    })
}

fn trait_item(name: &str, auto: bool, coinductive: bool, assoc: &[&str]) -> Item {
    Item::TraitDefn(TraitDefn {
        name: ident(name),
        variable_kinds: vec![],
        where_clauses: vec![],
        assoc_ty_defns: assoc
            .iter()
            .map(|a| AssocTyDefn { name: ident(a), variable_kinds: vec![], bounds: vec![], where_clauses: vec![] })
            .collect(),
        flags: TraitFlags {
            auto,
            marker: false,
            upstream: false,
            fundamental: false,
            non_enumerable: false,
            coinductive,
            object_safe: false,
        },
        well_known: None,
    })
}

fn trait_ref(self_ty: Ty, name: &str) -> TraitRef {
    TraitRef { trait_name: ident(name), self_ty: Box::new(self_ty), args: vec![] }
}

fn holds(self_ty: Ty, name: &str) -> WhereClause {
    WhereClause::Implemented { trait_ref: trait_ref(self_ty, name) }
}

fn impl_item(
    params: &[&str],
    polarity: Polarity,
    self_ty: Ty,
    name: &str,
    where_clauses: Vec<WhereClause>,
    values: Vec<(&str, Ty)>,
) -> Item {
    Item::Impl(Impl {
        variable_kinds: type_params(params),
        trait_ref: trait_ref(self_ty, name),
        polarity,
        where_clauses: where_clauses
            .into_iter()
            .map(|where_clause| QuantifiedWhereClause { variable_kinds: vec![], where_clause })
            .collect(),
        assoc_ty_values: values
            .into_iter()
            .map(|(n, value)| AssocTyValue { name: ident(n), variable_kinds: vec![], value, default: false })
            .collect(),
        impl_type: ImplType::Local,
    })
}

fn opaque_item(name: &str, params: &[&str], bounds: &[&str], hidden: Ty) -> Item {
    Item::OpaqueTyDefn(OpaqueTyDefn {
        ty: hidden,
        variable_kinds: type_params(params),
        name: ident(name),
        bounds: bounds
            .iter()
            .map(|b| QuantifiedInlineBound {
                variable_kinds: vec![],
                bound: InlineBound::TraitBound(TraitBound { trait_name: ident(b), args_no_self: vec![] }),
            })
            .collect(),
        where_clauses: vec![],
    })
}

fn goal_that(wc: WhereClause) -> Goal {
    Goal::Leaf(LeafGoal::DomainGoal { goal: DomainGoal::Holds { where_clause: wc } })
}

fn lowered(items: Vec<Item>) -> LoweredProgram {
    lower_program(&Program { items }).expect("a program that lowers")
}

fn answer(program: &LoweredProgram, goal: Goal) -> String {
    let goal = lower_goal(&goal, program).expect("a goal that lowers");
    solve_in_program(program, &Vec::new(), &goal, 30, 60).describe()
}

// ---- terms -------------------------------------------------------------

fn adt(id: u32, args: Vec<Term>) -> Term {
    Term::new(Head::Apply(TypeName::Adt(id)), args)
}

fn bound(index: usize) -> Term {
    Term::atom(Head::BoundVar { kind: Kind::Ty, depth: 0, index })
}

fn implemented(trait_id: u32, args: Vec<Term>) -> Term {
    Term::new(Head::Fact(Predicate::Implemented(trait_id)), args)
}

fn from_env(trait_id: u32, args: Vec<Term>) -> Term {
    Term::new(Head::Fact(Predicate::FromEnvTrait(trait_id)), args)
}

fn fact(predicate: Predicate, args: Vec<Term>) -> Term {
    Term::new(Head::Fact(predicate), args)
}

fn clause(n: usize, consequence: Term, conditions: Vec<Term>) -> Term {
    let binders = Term::new(
        Head::Binders,
        (0..n).map(|_| Term::atom(Head::BinderKind(chalk_slg::symbol::VariableKind::Ty))).collect(),
    );
    let mut args = vec![binders, consequence];
    args.extend(conditions);
    Term::new(Head::Clause(ClausePriority::High), args)
}

fn assert_clauses(found: &[Term], expected: &[Term]) {
    assert_eq!(found.len(), expected.len(), "found {:#?}", found);
    for (i, (f, e)) in found.iter().zip(expected.iter()).enumerate() {
        assert!(term_eq(f, e), "clause {}: found {:#?}, expected {:#?}", i, f, e);
    }
}

// ---- the clauses of each kind of item -----------------------------------

#[test]
fn an_impl_says_that_its_trait_holds_where_its_where_clauses_hold() {
    // struct Vec<T> { }  struct Bar { }  struct Baz { }  trait Clone { }
    // impl<T> Clone for Vec<T> where T: Clone { }  impl Clone for Bar { }
    let p = lowered(vec![
        structure("Vec", &["T"], vec![]),
        structure("Bar", &[], vec![]),
        structure("Baz", &[], vec![]),
        trait_item("Clone", false, false, &[]),
        impl_item(
            &["T"],
            Polarity::Positive,
            applied("Vec", vec![ty("T")]),
            "Clone",
            vec![holds(ty("T"), "Clone")],
            vec![],
        ),
        impl_item(&[], Polarity::Positive, ty("Bar"), "Clone", vec![], vec![]),
    ]);
    assert_clauses(
        &program_clauses_of(&p),
        &[
            clause(1, implemented(3, vec![bound(0)]), vec![from_env(3, vec![bound(0)])]),
            clause(1, implemented(3, vec![adt(0, vec![bound(0)])]), vec![implemented(3, vec![bound(0)])]),
            clause(0, implemented(3, vec![adt(1, vec![])]), vec![]),
        ],
    );
    let of = |name: &str| goal_that(holds(applied("Vec", vec![ty(name)]), "Clone"));
    assert_eq!(answer(&p, of("Bar")), "Unique; substitution [], lifetime constraints []");
    assert_eq!(answer(&p, of("Baz")), "No possible solution");
    // Vec<Vec<Bar>>: Clone
    let nested = goal_that(holds(applied("Vec", vec![applied("Vec", vec![ty("Bar")])]), "Clone"));
    assert_eq!(answer(&p, nested), "Unique; substitution [], lifetime constraints []");
}

#[test]
fn a_negative_impl_has_no_clause() {
    let p = lowered(vec![
        structure("Bar", &[], vec![]),
        trait_item("Marker", false, false, &[]),
        impl_item(&[], Polarity::Negative, ty("Bar"), "Marker", vec![], vec![]),
    ]);
    assert_clauses(
        &program_clauses_of(&p),
        &[clause(1, implemented(1, vec![bound(0)]), vec![from_env(1, vec![bound(0)])])],
    );
    assert_eq!(answer(&p, goal_that(holds(ty("Bar"), "Marker"))), "No possible solution");
}

#[test]
fn an_associated_type_equals_what_it_normalizes_to_and_its_placeholder() {
    // trait Iterator { type Item; }  struct Vec<T> { }
    // impl<T> Iterator for Vec<T> { type Item = u32; }
    let p = lowered(vec![
        trait_item("Iterator", false, false, &["Item"]),
        structure("Vec", &["T"], vec![]),
        impl_item(
            &["T"],
            Polarity::Positive,
            applied("Vec", vec![ty("T")]),
            "Iterator",
            vec![],
            vec![("Item", Ty::Scalar { ty: Scalar::Uint(UintTy::U32) })],
        ),
    ]);
    // three items, then the associated type and its value
    let (item, u32_ty) = (3, Term::atom(Head::Apply(TypeName::Scalar(Scalar::Uint(UintTy::U32)))));
    let projection = |of: Term| Term::new(Head::Projection(item), vec![of]);
    let found = program_clauses_of(&p);
    let expected = [
        clause(1, implemented(0, vec![bound(0)]), vec![from_env(0, vec![bound(0)])]),
        clause(
            2,
            fact(Predicate::AliasEq, vec![projection(bound(0)), bound(1)]),
            vec![fact(Predicate::Normalize, vec![projection(bound(0)), bound(1)])],
        ),
        clause(
            1,
            fact(
                Predicate::AliasEq,
                vec![projection(bound(0)), Term::new(Head::Apply(TypeName::AssociatedType(item)), vec![bound(0)])],
            ),
            vec![],
        ),
        clause(1, implemented(0, vec![adt(1, vec![bound(0)])]), vec![]),
        clause(
            1,
            fact(Predicate::Normalize, vec![projection(adt(1, vec![bound(0)])), u32_ty]),
            vec![implemented(0, vec![adt(1, vec![bound(0)])])],
        ),
    ];
    assert_eq!(found.len(), expected.len(), "found {:#?}", found);
    for e in expected.iter() {
        assert!(found.iter().any(|f| term_eq(f, e)), "no clause {:#?} among {:#?}", e, found);
    }
}

#[test]
fn an_opaque_type_equals_its_hidden_type_where_revealed_and_its_placeholder() {
    // struct Ty { }  trait Clone { }  #[auto] trait Send { }
    // opaque type T: Clone = Ty;
    let p = lowered(vec![
        structure("Ty", &[], vec![]),
        trait_item("Clone", false, false, &[]),
        trait_item("Send", true, false, &[]),
        opaque_item("T", &[], &["Clone"], ty("Ty")),
    ]);
    let alias = || Term::atom(Head::OpaqueAlias(3));
    let placeholder = || Term::atom(Head::Apply(TypeName::OpaqueType(3)));
    assert_clauses(
        &program_clauses_of(&p),
        &[
            // Ty has no impl of Send and no fields
            clause(0, implemented(2, vec![adt(0, vec![])]), vec![]),
            clause(1, implemented(1, vec![bound(0)]), vec![from_env(1, vec![bound(0)])]),
            clause(1, implemented(2, vec![bound(0)]), vec![from_env(2, vec![bound(0)])]),
            clause(0, fact(Predicate::AliasEq, vec![alias(), adt(0, vec![])]), vec![fact(Predicate::Reveal, vec![])]),
            clause(0, implemented(2, vec![placeholder()]), vec![implemented(2, vec![adt(0, vec![])])]),
            clause(0, fact(Predicate::AliasEq, vec![alias(), placeholder()]), vec![]),
            clause(0, implemented(1, vec![placeholder()]), vec![]),
        ],
    );
}

#[test]
fn an_auto_trait_holds_of_an_adt_where_it_holds_of_its_fields() {
    // struct Bar { }  struct Baz { }  #[auto] trait Send { }  impl !Send for Baz { }
    // struct Good { f: Bar }  struct Bad { f: Bar, f: Baz }
    let p = lowered(vec![
        structure("Bar", &[], vec![]),
        structure("Baz", &[], vec![]),
        trait_item("Send", true, false, &[]),
        impl_item(&[], Polarity::Negative, ty("Baz"), "Send", vec![], vec![]),
        structure("Good", &[], vec![ty("Bar")]),
        structure("Bad", &[], vec![ty("Bar"), ty("Baz")]),
    ]);
    assert_clauses(
        &program_clauses_of(&p),
        &[
            clause(0, implemented(2, vec![adt(0, vec![])]), vec![]),
            clause(1, implemented(2, vec![bound(0)]), vec![from_env(2, vec![bound(0)])]),
            clause(0, implemented(2, vec![adt(4, vec![])]), vec![implemented(2, vec![adt(0, vec![])])]),
            clause(
                0,
                implemented(2, vec![adt(5, vec![])]),
                vec![implemented(2, vec![adt(0, vec![])]), implemented(2, vec![adt(1, vec![])])],
            ),
        ],
    );
    assert_eq!(answer(&p, goal_that(holds(ty("Good"), "Send"))), "Unique; substitution [], lifetime constraints []");
    assert_eq!(answer(&p, goal_that(holds(ty("Bad"), "Send"))), "No possible solution");
    assert_eq!(answer(&p, goal_that(holds(ty("Baz"), "Send"))), "No possible solution");
}

#[test]
fn the_coinductive_traits_are_the_auto_traits_and_those_declared_so() {
    let p = lowered(vec![
        trait_item("Plain", false, false, &[]),
        trait_item("Send", true, false, &[]),
        trait_item("Co", false, true, &[]),
    ]);
    assert_eq!(context_of(&p).coinductive_traits, vec![1, 2]);
}

#[test]
fn the_clauses_that_a_program_states_come_last() {
    // struct Bar { }  trait Clone { }  forall<T> { T: Clone }
    let p = lowered(vec![
        structure("Bar", &[], vec![]),
        trait_item("Clone", false, false, &[]),
        Item::Clause(chalk_slg::ast::Clause {
            variable_kinds: type_params(&["T"]),
            consequence: DomainGoal::Holds { where_clause: holds(ty("T"), "Clone") },
            conditions: vec![],
        }),
    ]);
    let found = program_clauses_of(&p);
    assert_eq!(found.len(), 2);
    assert!(term_eq(&found[0], &clause(1, implemented(1, vec![bound(0)]), vec![from_env(1, vec![bound(0)])])));
    assert!(term_eq(&found[1], &p.custom_clauses[0]));
    assert_eq!(answer(&p, goal_that(holds(ty("Bar"), "Clone"))), "Unique; substitution [], lifetime constraints []");
}

#[test]
fn a_trait_holds_where_the_environment_says_so() {
    // trait Clone { }   forall<T> { if (T: Clone) { T: Clone } }
    let p = lowered(vec![trait_item("Clone", false, false, &[])]);
    let hypothesis = chalk_slg::ast::Clause {
        variable_kinds: vec![],
        consequence: DomainGoal::Holds { where_clause: holds(ty("T"), "Clone") },
        conditions: vec![],
    };
    let goal = Goal::ForAll(
        type_params(&["T"]),
        Box::new(Goal::Implies(vec![hypothesis], Box::new(goal_that(holds(ty("T"), "Clone"))))),
    );
    assert_eq!(answer(&p, goal), "Unique; substitution [], lifetime constraints []");
    // without the hypothesis nothing says so
    let bare = Goal::ForAll(type_params(&["T"]), Box::new(goal_that(holds(ty("T"), "Clone"))));
    assert_eq!(answer(&p, bare), "No possible solution");
}

// ---- names ---------------------------------------------------------------

#[test]
fn the_bare_name_of_an_opaque_type_with_parameters_is_refused() {
    // trait Iterator { }  struct Vec<T> { }  opaque type Foo<X>: Iterator = Vec<X>;
    // opaque type Plain: Iterator = Vec<Plain>;
    let p = lowered(vec![
        trait_item("Iterator", false, false, &[]),
        structure("Vec", &["T"], vec![]),
        opaque_item("Foo", &["X"], &["Iterator"], applied("Vec", vec![ty("X")])),
        opaque_item("Plain", &[], &["Iterator"], applied("Vec", vec![ty("Foo2")])),
        structure("Foo2", &[], vec![]),
    ]);
    match lower_goal(&goal_that(holds(ty("Foo"), "Iterator")), &p) {
        Err(RustIrError::IncorrectNumberOfTypeParameters { identifier, expected, actual }) => {
            assert_eq!(identifier.str, "Foo");
            assert_eq!((expected, actual), (1, 0));
        }
        other => panic!("expected an error, got {:?}", other),
    }
    // a name of an opaque type without parameters stands for its alias
    let plain = lower_goal(&goal_that(holds(ty("Plain"), "Iterator")), &p).expect("a goal that lowers");
    let alias = Term::new(Head::Alias, vec![Term::atom(Head::OpaqueAlias(3))]);
    assert!(term_eq(&plain, &implemented(0, vec![alias])));
    // with its argument the first lowers too
    assert!(lower_goal(&goal_that(holds(applied("Foo", vec![ty("Foo2")]), "Iterator")), &p).is_ok());
}

#[test]
fn a_default_lowerer_knows_no_name() {
    let d = ProgramLowerer::default();
    assert!(d.adt_ids.is_empty() && d.fn_def_ids.is_empty() && d.closure_ids.is_empty());
    assert!(d.trait_ids.is_empty() && d.auto_traits.is_empty() && d.opaque_ty_ids.is_empty());
    assert!(d.associated_ty_lookups.is_empty() && d.associated_ty_value_ids.is_empty());
    assert!(d.adt_kinds.is_empty() && d.fn_def_kinds.is_empty() && d.closure_kinds.is_empty());
    assert!(d.trait_kinds.is_empty() && d.opaque_ty_kinds.is_empty() && d.foreign_ty_ids.is_empty());
    assert!(d.object_safe_traits.is_empty());
    // trait Iterator { type Item; }  struct Vec<T> { }  struct Bar { }
    // impl<T> Iterator for Vec<T> { type Item = u32; }  opaque type Foo<X>: Iterator = Vec<X>;
    let program = Program {
        items: vec![
            trait_item("Iterator", false, false, &["Item"]),
            structure("Vec", &["T"], vec![]),
            structure("Bar", &[], vec![]),
            impl_item(
                &["T"],
                Polarity::Positive,
                applied("Vec", vec![ty("T")]),
                "Iterator",
                vec![],
                vec![("Item", Ty::Scalar { ty: Scalar::Uint(UintTy::U32) })],
            ),
            opaque_item("Foo", &["X"], &["Iterator"], applied("Vec", vec![ty("X")])),
        ],
    };
    let mut lowerer = ProgramLowerer::default();
    let ids = lowerer.gather_ids(&program).expect("names that can be gathered");
    assert_eq!(ids, (0..5).map(|index| RawId { index }).collect::<Vec<_>>());
    assert_eq!(lowerer.trait_ids, vec![("Iterator".to_string(), RawId { index: 0 })]);
    assert_eq!(
        lowerer.adt_ids,
        vec![("Vec".to_string(), RawId { index: 1 }), ("Bar".to_string(), RawId { index: 2 })]
    );
    assert_eq!(lowerer.opaque_ty_ids, vec![("Foo".to_string(), RawId { index: 4 })]);
    assert_eq!(lowerer.auto_traits, vec![(RawId { index: 0 }, false)]);
    assert_eq!(lowerer.associated_ty_lookups.len(), 1);
    let (of_trait, name, lookup) = &lowerer.associated_ty_lookups[0];
    assert_eq!((*of_trait, name.as_str(), lookup.id), (RawId { index: 0 }, "Item", RawId { index: 5 }));
    assert_eq!(
        lowerer.associated_ty_value_ids,
        vec![(RawId { index: 3 }, "Item".to_string(), RawId { index: 6 })]
    );
}

#[test]
fn parameters_are_introduced_in_the_environment_of_a_default_lowerer() {
    let with_kind = |kind: chalk_slg::symbol::VariableKind, name: &str| WithKind { kind, name: name.to_string() };
    let (ty_kind, lifetime_kind) = (chalk_slg::symbol::VariableKind::Ty, chalk_slg::symbol::VariableKind::Lifetime);
    let lowerer = ProgramLowerer::default();
    let e0 = Env::from_lowerer(&lowerer);
    let e1 = e0.introduce(&vec![with_kind(ty_kind, "T"), with_kind(lifetime_kind, "'a")]).expect("new names");
    let e2 = e1.introduce(&vec![with_kind(ty_kind, "U")]).expect("a new name");
    let scope: Vec<(String, chalk_slg::symbol::VariableKind, u32, usize)> =
        e2.parameter_map.iter().map(|p| (p.name.clone(), p.kind, p.var.depth, p.var.index)).collect();
    assert_eq!(scope.len(), 3);
    assert!(scope.contains(&("T".to_string(), ty_kind, 1, 0)));
    assert!(scope.contains(&("'a".to_string(), lifetime_kind, 1, 1)));
    assert!(scope.contains(&("U".to_string(), ty_kind, 0, 0)));
    assert!(matches!(
        e1.introduce(&vec![with_kind(ty_kind, "T")]),
        Err(RustIrError::DuplicateOrShadowedParameters)
    ));
}
