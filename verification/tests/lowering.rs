use chalk_slg::ast::{
    AdtDefn, AdtFlags, AdtKind, AdtRepr, AliasEqBound, AssocTyDefn, AssocTyValue, Clause, Const, DomainGoal, FnAbi,
    FnSig, GenericArg, Goal, Identifier, Impl, ImplType, InlineBound, Item, LeafGoal, Lifetime, OpaqueTyDefn, Polarity,
    Program, ProjectionTy, QuantifiedInlineBound, QuantifiedWhereClause, TraitBound, TraitDefn, TraitFlags, TraitRef,
    Ty, VariableKind, WhereClause,
};
use chalk_slg::lowering::env::{ApplyTypeLookup, BoundVar, Env, ProgramLowerer, RawId, TypeSort, WithKind};
use chalk_slg::lowering::error::RustIrError;
use chalk_slg::lowering::goal::{lower_clause, lower_goal_in};
use chalk_slg::lowering::program::{lower_goal, lower_program, ItemMeta, LoweredProgram};
use chalk_slg::lowering::ty::{lower_bounds, lower_ty};
use chalk_slg::lowering::Lower;
use chalk_slg::symbol::{ClausePriority, Head, Kind, Mutability, Predicate, Safety, Scalar, TypeName, UintTy};
use chalk_slg::term::{term_eq, Term};

fn ident(s: &str) -> Identifier {
    Identifier { str: s.to_string() }
}

fn ty(name: &str) -> Ty {
    Ty::Id { name: ident(name) }
}

fn applied(name: &str, args: Vec<GenericArg>) -> Ty {
    Ty::Apply { name: ident(name), args }
}

fn type_params(params: &[&str]) -> Vec<VariableKind> {
    params.iter().map(|p| VariableKind::Ty(ident(p))).collect()
}

fn structure_with(name: &str, variable_kinds: Vec<VariableKind>, fundamental: bool) -> Item {
    Item::AdtDefn(AdtDefn {
        name: ident(name),
        variable_kinds,
        where_clauses: vec![],
        variants: vec![],
        flags: AdtFlags { upstream: false, fundamental, phantom_data: false, kind: AdtKind::Struct },
        repr: AdtRepr { repr_c: false, repr_packed: false },
    })
}

fn structure(name: &str, params: &[&str]) -> Item {
    structure_with(name, type_params(params), false)
}

fn flags(auto: bool) -> TraitFlags {
    TraitFlags {
        auto,
        marker: false,
        upstream: false,
        fundamental: false,
        non_enumerable: false,
        coinductive: false,
        object_safe: false,
    }
}

fn trait_defn(name: &str, params: &[&str], auto: bool, assoc: Vec<AssocTyDefn>) -> TraitDefn {
    TraitDefn {
        name: ident(name),
        variable_kinds: type_params(params),
        where_clauses: vec![],
        assoc_ty_defns: assoc,
        flags: flags(auto),
        well_known: None,
    }
}

fn assoc(name: &str, params: Vec<VariableKind>) -> AssocTyDefn {
    AssocTyDefn { name: ident(name), variable_kinds: params, bounds: vec![], where_clauses: vec![] }
}

fn trait_item(name: &str, params: &[&str]) -> Item {
    Item::TraitDefn(trait_defn(name, params, false, vec![]))
}

fn trait_ref(self_ty: Ty, name: &str, args: Vec<GenericArg>) -> TraitRef {
    TraitRef { trait_name: ident(name), self_ty: Box::new(self_ty), args }
}

fn implemented(self_ty: Ty, name: &str) -> WhereClause {
    WhereClause::Implemented { trait_ref: trait_ref(self_ty, name, vec![]) }
}

fn holds(wc: WhereClause) -> Goal {
    Goal::Leaf(LeafGoal::DomainGoal { goal: DomainGoal::Holds { where_clause: wc } })
}

fn impl_of(self_ty: Ty, name: &str, polarity: Polarity, values: Vec<AssocTyValue>) -> Item {
    Item::Impl(Impl {
        variable_kinds: vec![],
        trait_ref: trait_ref(self_ty, name, vec![]),
        polarity,
        where_clauses: vec![],
        assoc_ty_values: values,
        impl_type: ImplType::Local,
    })
}

fn program(items: Vec<Item>) -> LoweredProgram {
    lower_program(&Program { items }).expect("a program that lowers")
}

fn error_of(items: Vec<Item>) -> RustIrError {
    lower_program(&Program { items }).expect_err("a program that does not lower")
}

/// struct Foo { }  struct Vec<T> { }  trait Clone { }  trait Into<T> { }
/// trait Iterator { type Item; type Window<'a>; }  #[auto] trait Send { }
fn prelude() -> Vec<Item> {
    vec![
        structure("Foo", &[]),
        structure("Vec", &["T"]),
        trait_item("Clone", &[]),
        trait_item("Into", &["T"]),
        Item::TraitDefn(trait_defn(
            "Iterator",
            &[],
            false,
            vec![assoc("Item", vec![]), assoc("Window", vec![VariableKind::Lifetime(ident("a"))])],
        )),
        Item::TraitDefn(trait_defn("Send", &[], true, vec![])),
    ]
}

fn goal_error(goal: Goal) -> RustIrError {
    lower_goal(&goal, &program(prelude())).expect_err("a goal that does not lower")
}

fn lowered_goal(goal: Goal) -> Term {
    lower_goal(&goal, &program(prelude())).expect("a goal that lowers")
}

fn lowered_ty(t: Ty) -> Term {
    let p = program(prelude());
    let env = Env::from_lowerer(&p.names);
    lower_ty(&env, &t).expect("a type that lowers")
}

fn adt(id: u32, args: Vec<Term>) -> Term {
    Term::new(Head::Apply(TypeName::Adt(id)), args)
}

fn bound(depth: u32, index: usize) -> Term {
    Term::atom(Head::BoundVar { kind: Kind::Ty, depth, index })
}

fn kinds(ks: Vec<chalk_slg::symbol::VariableKind>) -> Term {
    Term::new(Head::Binders, ks.into_iter().map(|k| Term::atom(Head::BinderKind(k))).collect())
}

fn fact(predicate: Predicate, args: Vec<Term>) -> Term {
    Term::new(Head::Fact(predicate), args)
}

const FOO: u32 = 0;
const VEC: u32 = 1;
const CLONE: u32 = 2;
const INTO: u32 = 3;
const ITERATOR: u32 = 4;
const SEND: u32 = 5;
const ITEM: u32 = 6;
const WINDOW: u32 = 7;

// ---- names -------------------------------------------------------------

#[test]
fn items_are_numbered_by_position_and_associated_types_beyond() {
    let mut lowerer = ProgramLowerer::new();
    let mut items = prelude();
    items.push(impl_of(ty("Foo"), "Iterator", Polarity::Positive, vec![AssocTyValue {
        name: ident("Item"),
        variable_kinds: vec![],
        value: ty("Foo"),
        default: false,
    }]));
    let raw_ids = lowerer.gather_ids(&Program { items }).expect("names that can be gathered");
    assert_eq!(raw_ids, (0..7).map(|index| RawId { index }).collect::<Vec<_>>());
    assert_eq!(lowerer.adt_ids, vec![("Foo".to_string(), RawId { index: 0 }), ("Vec".to_string(), RawId { index: 1 })]);
    assert_eq!(lowerer.trait_ids.len(), 4);
    assert_eq!(lowerer.auto_traits, vec![
        (RawId { index: 2 }, false),
        (RawId { index: 3 }, false),
        (RawId { index: 4 }, false),
        (RawId { index: 5 }, true),
    ]);
    let lookups: Vec<_> = lowerer
        .associated_ty_lookups
        .iter()
        .map(|(t, n, l)| (t.index, n.as_str(), l.id.index, l.addl_variable_kinds.len()))
        .collect();
    assert_eq!(lookups, vec![(4, "Item", 7, 0), (4, "Window", 8, 1)]);
    assert_eq!(lowerer.associated_ty_value_ids, vec![(RawId { index: 6 }, "Item".to_string(), RawId { index: 9 })]);
    assert_eq!(lowerer.adt_kinds[1].1.sort, TypeSort::Adt);
    assert_eq!(lowerer.adt_kinds[1].1.name, "Vec");
    assert_eq!(lowerer.adt_kinds[1].1.binders, vec![chalk_slg::symbol::VariableKind::Ty]);
    // the kind of a trait does not count its self type
    assert_eq!(lowerer.trait_kinds[1].1.binders.len(), 1);
}

#[test]
fn an_auto_trait_declares_no_associated_type() {
    let items = vec![Item::TraitDefn(trait_defn("Send", &[], true, vec![assoc("Item", vec![])]))];
    assert!(matches!(error_of(items), RustIrError::AutoTraitAssociatedTypes(name) if name.str == "Send"));
}

#[test]
fn names_are_looked_up_in_order() {
    let p = program(prelude());
    let env = Env::from_lowerer(&p.names);
    assert!(matches!(env.lookup_apply_type(&ident("Vec")), Ok(ApplyTypeLookup::Adt(RawId { index: 1 }))));
    assert!(matches!(env.lookup_apply_type(&ident("Clone")), Err(RustIrError::NotStruct(n)) if n.str == "Clone"));
    assert!(matches!(env.lookup_trait(&ident("Clone")), Ok(RawId { index: 2 })));
    assert!(matches!(env.lookup_trait(&ident("Foo")), Err(RustIrError::NotTrait(n)) if n.str == "Foo"));
    assert!(matches!(env.lookup_trait(&ident("Nope")), Err(RustIrError::InvalidTraitName(n)) if n.str == "Nope"));
    assert!(env.auto_trait(RawId { index: 5 }));
    assert!(!env.auto_trait(RawId { index: 2 }));
    assert_eq!(env.trait_kind(RawId { index: 3 }).name, "Into");
    assert_eq!(env.adt_kind(RawId { index: 1 }).binders.len(), 1);
    assert_eq!(env.lookup_associated_ty(RawId { index: 4 }, &ident("Window")).expect("declared").id.index, WINDOW + 0);
    assert!(matches!(
        env.lookup_associated_ty(RawId { index: 4 }, &ident("Nope")),
        Err(RustIrError::MissingAssociatedType(n)) if n.str == "Nope"
    ));
    // a parameter hides an adt of the same name
    let inner = env.introduce(&vec![WithKind { kind: chalk_slg::symbol::VariableKind::Ty, name: "Vec".to_string() }]).expect("no shadowing");
    assert!(matches!(
        inner.lookup_apply_type(&ident("Vec")),
        Ok(ApplyTypeLookup::Parameter(chalk_slg::symbol::VariableKind::Ty, BoundVar { depth: 0, index: 0 }))
    ));
    assert!(matches!(inner.lookup_trait(&ident("Vec")), Err(RustIrError::NotTrait(_))));
}

#[test]
fn a_binder_moves_the_parameters_in_scope_one_binder_out() {
    let p = program(prelude());
    let env = Env::from_lowerer(&p.names);
    let declare = |names: &[&str]| -> Vec<WithKind> {
        names.iter().map(|n| WithKind { kind: chalk_slg::symbol::VariableKind::Ty, name: n.to_string() }).collect()
    };
    let outer = env.introduce(&declare(&["A", "B"])).expect("no shadowing");
    let inner = outer.introduce(&declare(&["C"])).expect("no shadowing");
    let vars: Vec<_> = inner.parameter_map.iter().map(|p| (p.name.as_str(), p.var.depth, p.var.index)).collect();
    assert_eq!(vars, vec![("A", 1, 0), ("B", 1, 1), ("C", 0, 0)]);
    assert!(term_eq(&inner.lookup_generic_arg(&ident("B")).expect("in scope"), &bound(1, 1)));
    assert!(matches!(outer.introduce(&declare(&["A"])), Err(RustIrError::DuplicateOrShadowedParameters)));
    assert!(matches!(env.introduce(&declare(&["X", "X"])), Err(RustIrError::DuplicateOrShadowedParameters)));
    let under = env.in_binders(&declare(&["A"]), |e: &Env| e.lookup_generic_arg(&ident("A"))).expect("no shadowing");
    assert_eq!(under.binders, vec![chalk_slg::symbol::VariableKind::Ty]);
    assert!(term_eq(&under.value, &bound(0, 0)));
}

#[test]
fn a_bare_name_stands_for_a_generic_argument() {
    let mut items = prelude();
    items.push(Item::OpaqueTyDefn(OpaqueTyDefn {
        ty: ty("Foo"),
        variable_kinds: vec![],
        name: ident("T"),
        bounds: vec![],
        where_clauses: vec![],
    }));
    let p = program(items);
    let env = Env::from_lowerer(&p.names);
    assert!(term_eq(&env.lookup_generic_arg(&ident("Foo")).expect("an adt"), &adt(FOO, vec![])));
    let alias = Term::new(Head::Alias, vec![Term::atom(Head::OpaqueAlias(6))]);
    assert!(term_eq(&env.lookup_generic_arg(&ident("T")).expect("an opaque type"), &alias));
    assert!(matches!(
        env.lookup_generic_arg(&ident("Vec")),
        Err(RustIrError::IncorrectNumberOfTypeParameters { identifier, expected: 1, actual: 0 }) if identifier.str == "Vec"
    ));
    assert!(matches!(env.lookup_generic_arg(&ident("Clone")), Err(RustIrError::NotStruct(_))));
    assert!(matches!(env.lookup_generic_arg(&ident("Nope")), Err(RustIrError::InvalidParameterName(n)) if n.str == "Nope"));
}

// ---- types ---------------------------------------------------------------

#[test]
fn types_lower_to_applied_constructors() {
    let u32_ty = || Ty::Scalar { ty: Scalar::Uint(UintTy::U32) };
    let u32_term = || Term::atom(Head::Apply(TypeName::Scalar(Scalar::Uint(UintTy::U32))));
    assert!(term_eq(&lowered_ty(applied("Vec", vec![GenericArg::Ty(ty("Foo"))])), &adt(VEC, vec![adt(FOO, vec![])])));
    assert!(term_eq(&lowered_ty(applied("Vec", vec![GenericArg::Id(ident("Foo"))])), &adt(VEC, vec![adt(FOO, vec![])])));
    assert!(term_eq(
        &lowered_ty(Ty::Tuple { types: vec![ty("Foo"), u32_ty()] }),
        &Term::new(Head::Apply(TypeName::Tuple(2)), vec![adt(FOO, vec![]), u32_term()])
    ));
    assert!(term_eq(
        &lowered_ty(Ty::Array { ty: Box::new(u32_ty()), len: Const::Value(3) }),
        &Term::new(Head::Apply(TypeName::Array), vec![u32_term(), Term::atom(Head::ConstValue(3))])
    ));
    assert!(term_eq(
        &lowered_ty(Ty::Slice { ty: Box::new(ty("Foo")) }),
        &Term::new(Head::Apply(TypeName::Slice), vec![adt(FOO, vec![])])
    ));
    assert!(term_eq(
        &lowered_ty(Ty::Raw { mutability: Mutability::Mut, ty: Box::new(ty("Foo")) }),
        &Term::new(Head::Apply(TypeName::Raw(Mutability::Mut)), vec![adt(FOO, vec![])])
    ));
    assert!(term_eq(&lowered_ty(Ty::Str), &Term::atom(Head::Apply(TypeName::Str))));
    assert!(term_eq(&lowered_ty(Ty::Never), &Term::atom(Head::Apply(TypeName::Never))));
}

#[test]
fn a_function_pointer_binds_its_lifetimes() {
    let sig = || FnSig { abi: FnAbi("Rust".to_string()), safety: Safety::Safe, variadic: false };
    let reference = Ty::Ref {
        mutability: Mutability::Not,
        lifetime: Lifetime::Id { name: ident("a") },
        ty: Box::new(ty("Foo")),
    };
    let t = lowered_ty(Ty::ForAll { lifetime_names: vec![ident("a")], types: vec![reference, ty("Foo")], sig: sig() });
    let lifetime = Term::atom(Head::BoundVar { kind: Kind::Lifetime, depth: 0, index: 0 });
    let expected = Term::new(
        Head::Function { binders: 1, safety: Safety::Safe, abi: chalk_slg::symbol::FnAbi::Rust, variadic: false },
        vec![Term::new(Head::Apply(TypeName::Ref(Mutability::Not)), vec![lifetime, adt(FOO, vec![])]), adt(FOO, vec![])],
    );
    assert!(term_eq(&t, &expected));
    let p = program(prelude());
    let env = Env::from_lowerer(&p.names);
    let bad = Ty::ForAll {
        lifetime_names: vec![],
        types: vec![],
        sig: FnSig { abi: FnAbi("stdcall".to_string()), safety: Safety::Safe, variadic: false },
    };
    assert!(matches!(lower_ty(&env, &bad), Err(RustIrError::InvalidExternAbi(s)) if s == "stdcall"));
    assert!(matches!(FnAbi("C".to_string()).lower(), Ok(chalk_slg::symbol::FnAbi::C)));
}

#[test]
fn a_projection_holds_its_own_arguments_before_those_of_the_trait() {
    let projection = Ty::Projection {
        proj: ProjectionTy {
            trait_ref: trait_ref(ty("Foo"), "Iterator", vec![]),
            name: ident("Window"),
            args: vec![GenericArg::Lifetime(Lifetime::Id { name: ident("a") })],
        },
    };
    let goal = Goal::ForAll(
        vec![VariableKind::Lifetime(ident("a"))],
        Box::new(Goal::Leaf(LeafGoal::DomainGoal { goal: DomainGoal::TyWellFormed { ty: projection } })),
    );
    let lifetime = Term::atom(Head::BoundVar { kind: Kind::Lifetime, depth: 0, index: 0 });
    let alias = Term::new(Head::Alias, vec![Term::new(Head::Projection(WINDOW), vec![lifetime, adt(FOO, vec![])])]);
    let expected = Term::new(
        Head::ForAll,
        vec![kinds(vec![chalk_slg::symbol::VariableKind::Lifetime]), fact(Predicate::WellFormedTy, vec![alias])],
    );
    assert!(term_eq(&lowered_goal(goal), &expected));
}

#[test]
fn a_trait_object_binds_its_self_type() {
    let bound_on = |name: &str| QuantifiedInlineBound {
        variable_kinds: vec![],
        bound: InlineBound::TraitBound(TraitBound { trait_name: ident(name), args_no_self: vec![] }),
    };
    let object = Ty::Dyn { bounds: vec![bound_on("Send"), bound_on("Clone")], lifetime: Lifetime::Id { name: ident("a") } };
    let goal = Goal::ForAll(
        vec![VariableKind::Lifetime(ident("a"))],
        Box::new(Goal::Leaf(LeafGoal::DomainGoal { goal: DomainGoal::TyWellFormed { ty: object } })),
    );
    // the bound on the auto trait comes last; the self type is one binder
    // out of the (empty) binder of each bound
    let clause_for = |id: u32| Term::new(Head::Quantified, vec![kinds(vec![]), fact(Predicate::Implemented(id), vec![bound(1, 0)])]);
    let bounds = Term::new(
        Head::Quantified,
        vec![kinds(vec![chalk_slg::symbol::VariableKind::Ty]), Term::new(Head::List, vec![clause_for(CLONE), clause_for(SEND)])],
    );
    let lifetime = Term::atom(Head::BoundVar { kind: Kind::Lifetime, depth: 0, index: 0 });
    let expected = Term::new(
        Head::ForAll,
        vec![
            kinds(vec![chalk_slg::symbol::VariableKind::Lifetime]),
            fact(Predicate::WellFormedTy, vec![Term::new(Head::Dyn, vec![bounds, lifetime])]),
        ],
    );
    assert!(term_eq(&lowered_goal(goal), &expected));
}

#[test]
fn bounds_on_auto_traits_come_last_by_the_number_of_the_trait() {
    let mut items = prelude();
    items.push(Item::TraitDefn(trait_defn("Sync", &[], true, vec![])));
    let p = program(items);
    let env = Env::from_lowerer(&p.names);
    let bound_on = |name: &str| QuantifiedInlineBound {
        variable_kinds: vec![],
        bound: InlineBound::TraitBound(TraitBound { trait_name: ident(name), args_no_self: vec![] }),
    };
    let lowered = lower_bounds(&env, &vec![bound_on("Sync"), bound_on("Clone"), bound_on("Send"), bound_on("Iterator")])
        .expect("bounds that lower");
    let traits: Vec<_> = lowered.iter().map(|b| b.args[1].head).collect();
    assert_eq!(traits, vec![Head::TraitBound(CLONE), Head::TraitBound(ITERATOR), Head::TraitBound(SEND), Head::TraitBound(6)]);
    // the trait of every bound is looked up before any bound is lowered
    let bad = QuantifiedInlineBound {
        variable_kinds: vec![],
        bound: InlineBound::TraitBound(TraitBound { trait_name: ident("Into"), args_no_self: vec![] }),
    };
    assert!(matches!(lower_bounds(&env, &vec![bad, bound_on("Nope")]), Err(RustIrError::InvalidTraitName(_))));
}

#[test]
fn a_bound_on_an_associated_type_makes_two_where_clauses() {
    let bound = QuantifiedInlineBound {
        variable_kinds: vec![],
        bound: InlineBound::AliasEqBound(AliasEqBound {
            trait_bound: TraitBound { trait_name: ident("Iterator"), args_no_self: vec![] },
            name: ident("Item"),
            args: vec![],
            value: ty("Foo"),
        }),
    };
    let object = Ty::Dyn { bounds: vec![bound], lifetime: Lifetime::Id { name: ident("a") } };
    let goal = Goal::ForAll(
        vec![VariableKind::Lifetime(ident("a"))],
        Box::new(Goal::Leaf(LeafGoal::DomainGoal { goal: DomainGoal::TyWellFormed { ty: object } })),
    );
    let t = lowered_goal(goal);
    let clauses = &t.args[1].args[0].args[0].args[1];
    assert_eq!(clauses.args.len(), 2);
    assert!(term_eq(&clauses.args[0].args[1], &fact(Predicate::Implemented(ITERATOR), vec![bound_var_self()])));
    assert!(term_eq(
        &clauses.args[1].args[1],
        &fact(Predicate::AliasEq, vec![Term::new(Head::Projection(ITEM), vec![bound_var_self()]), adt(FOO, vec![])])
    ));
}

fn bound_var_self() -> Term {
    bound(1, 0)
}

// ---- goals and clauses ---------------------------------------------------------

#[test]
fn a_where_clause_on_an_associated_type_is_two_goals() {
    let wc = WhereClause::ProjectionEq {
        projection: ProjectionTy { trait_ref: trait_ref(ty("Foo"), "Iterator", vec![]), name: ident("Item"), args: vec![] },
        ty: ty("Foo"),
    };
    let expected = Term::new(
        Head::All,
        vec![
            fact(Predicate::AliasEq, vec![Term::new(Head::Projection(ITEM), vec![adt(FOO, vec![])]), adt(FOO, vec![])]),
            fact(Predicate::Implemented(ITERATOR), vec![adt(FOO, vec![])]),
        ],
    );
    assert!(term_eq(&lowered_goal(holds(wc)), &expected));
    // one goal stands for itself
    assert!(term_eq(
        &lowered_goal(holds(implemented(ty("Foo"), "Clone"))),
        &fact(Predicate::Implemented(CLONE), vec![adt(FOO, vec![])])
    ));
}

#[test]
fn quantifiers_bind_and_a_quantifier_over_nothing_is_the_goal() {
    let goal = |self_ty: &str| holds(implemented(ty(self_ty), "Clone"));
    let for_all = Goal::ForAll(type_params(&["T"]), Box::new(Goal::Exists(type_params(&["U"]), Box::new(goal("T")))));
    let expected = Term::new(
        Head::ForAll,
        vec![
            kinds(vec![chalk_slg::symbol::VariableKind::Ty]),
            Term::new(
                Head::Exists,
                vec![kinds(vec![chalk_slg::symbol::VariableKind::Ty]), fact(Predicate::Implemented(CLONE), vec![bound(1, 0)])],
            ),
        ],
    );
    assert!(term_eq(&lowered_goal(for_all), &expected));
    assert!(term_eq(
        &lowered_goal(Goal::ForAll(vec![], Box::new(goal("Foo")))),
        &fact(Predicate::Implemented(CLONE), vec![adt(FOO, vec![])])
    ));
    let shadowing = Goal::ForAll(type_params(&["T"]), Box::new(Goal::Exists(type_params(&["T"]), Box::new(goal("T")))));
    assert!(matches!(goal_error(shadowing), RustIrError::DuplicateOrShadowedParameters));
}

#[test]
fn a_hypothesis_that_a_trait_is_implemented_is_assumed_from_the_environment() {
    let hypothesis = |consequence: DomainGoal, conditions: Vec<Goal>| Clause { variable_kinds: vec![], consequence, conditions };
    let holds_of = |name: &str| DomainGoal::Holds { where_clause: implemented(ty("Foo"), name) };
    let goal = Goal::Implies(
        vec![
            hypothesis(holds_of("Clone"), vec![]),
            hypothesis(holds_of("Send"), vec![holds(implemented(ty("Foo"), "Clone"))]),
            hypothesis(DomainGoal::Reveal, vec![]),
        ],
        Box::new(holds(implemented(ty("Foo"), "Send"))),
    );
    let clause = |args: Vec<Term>| Term::new(Head::Clause(ClausePriority::High), args);
    let expected = Term::new(
        Head::Implies,
        vec![
            clause(vec![kinds(vec![]), fact(Predicate::FromEnvTrait(CLONE), vec![adt(FOO, vec![])])]),
            clause(vec![
                kinds(vec![]),
                fact(Predicate::Implemented(SEND), vec![adt(FOO, vec![])]),
                fact(Predicate::Implemented(CLONE), vec![adt(FOO, vec![])]),
            ]),
            clause(vec![kinds(vec![]), Term::atom(Head::Fact(Predicate::Reveal))]),
            fact(Predicate::Implemented(SEND), vec![adt(FOO, vec![])]),
        ],
    );
    assert!(term_eq(&lowered_goal(goal), &expected));
}

#[test]
fn conjunction_negation_and_equation() {
    let clone_of_foo = || fact(Predicate::Implemented(CLONE), vec![adt(FOO, vec![])]);
    let goal = || holds(implemented(ty("Foo"), "Clone"));
    assert!(term_eq(&lowered_goal(Goal::And(Box::new(goal()), vec![])), &Term::new(Head::All, vec![clone_of_foo()])));
    assert!(term_eq(
        &lowered_goal(Goal::And(Box::new(goal()), vec![Goal::Not(Box::new(goal()))])),
        &Term::new(Head::All, vec![clone_of_foo(), Term::new(Head::Not, vec![clone_of_foo()])])
    ));
    let equation = Goal::Leaf(LeafGoal::UnifyGenericArgs { a: GenericArg::Id(ident("Foo")), b: GenericArg::Const(Const::Value(7)) });
    assert!(term_eq(
        &lowered_goal(equation),
        &Term::new(Head::Equal, vec![adt(FOO, vec![]), Term::atom(Head::ConstValue(7))])
    ));
}

#[test]
fn a_compatible_goal_holds_for_every_downstream_type() {
    let goal = Goal::ForAll(type_params(&["T"]), Box::new(Goal::Compatible(Box::new(holds(implemented(ty("T"), "Clone"))))));
    let clause = |f: Term| Term::new(Head::Clause(ClausePriority::High), vec![kinds(vec![]), f]);
    let expected = Term::new(
        Head::ForAll,
        vec![
            kinds(vec![chalk_slg::symbol::VariableKind::Ty]),
            Term::new(
                Head::ForAll,
                vec![
                    kinds(vec![chalk_slg::symbol::VariableKind::Ty]),
                    Term::new(
                        Head::Implies,
                        vec![
                            clause(Term::atom(Head::Fact(Predicate::Compatible))),
                            clause(fact(Predicate::DownstreamType, vec![bound(1, 0)])),
                            fact(Predicate::Implemented(CLONE), vec![bound(1, 0)]),
                        ],
                    ),
                ],
            ),
        ],
    );
    assert!(term_eq(&lowered_goal(goal), &expected));
}

#[test]
fn every_domain_goal_has_its_predicate() {
    let one = |goal: DomainGoal| lowered_goal(Goal::Leaf(LeafGoal::DomainGoal { goal }));
    let foo = || adt(FOO, vec![]);
    let reference = || trait_ref(ty("Foo"), "Clone", vec![]);
    assert!(term_eq(&one(DomainGoal::TyFromEnv { ty: ty("Foo") }), &fact(Predicate::FromEnvTy, vec![foo()])));
    assert!(term_eq(&one(DomainGoal::IsLocal { ty: ty("Foo") }), &fact(Predicate::IsLocal, vec![foo()])));
    assert!(term_eq(&one(DomainGoal::IsUpstream { ty: ty("Foo") }), &fact(Predicate::IsUpstream, vec![foo()])));
    assert!(term_eq(&one(DomainGoal::IsFullyVisible { ty: ty("Foo") }), &fact(Predicate::IsFullyVisible, vec![foo()])));
    assert!(term_eq(&one(DomainGoal::DownstreamType { ty: ty("Foo") }), &fact(Predicate::DownstreamType, vec![foo()])));
    assert!(term_eq(&one(DomainGoal::TraitRefWellFormed { trait_ref: reference() }), &fact(Predicate::WellFormedTrait(CLONE), vec![foo()])));
    assert!(term_eq(&one(DomainGoal::TraitRefFromEnv { trait_ref: reference() }), &fact(Predicate::FromEnvTrait(CLONE), vec![foo()])));
    assert!(term_eq(&one(DomainGoal::LocalImplAllowed { trait_ref: reference() }), &fact(Predicate::LocalImplAllowed(CLONE), vec![foo()])));
    assert!(term_eq(&one(DomainGoal::Compatible), &Term::atom(Head::Fact(Predicate::Compatible))));
    assert!(term_eq(&one(DomainGoal::Reveal), &Term::atom(Head::Fact(Predicate::Reveal))));
    assert!(term_eq(&one(DomainGoal::ObjectSafe { id: ident("Clone") }), &Term::atom(Head::Fact(Predicate::ObjectSafe(CLONE)))));
    let normalize = DomainGoal::Normalize {
        projection: ProjectionTy { trait_ref: trait_ref(ty("Foo"), "Iterator", vec![]), name: ident("Item"), args: vec![] },
        ty: ty("Foo"),
    };
    assert!(term_eq(
        &one(normalize),
        &fact(Predicate::Normalize, vec![Term::new(Head::Projection(ITEM), vec![foo()]), foo()])
    ));
    let outlives = |wc: WhereClause| lowered_goal(Goal::ForAll(
        vec![VariableKind::Lifetime(ident("a")), VariableKind::Lifetime(ident("b"))],
        Box::new(holds(wc)),
    ));
    let lifetime = |i: usize| Term::atom(Head::BoundVar { kind: Kind::Lifetime, depth: 0, index: i });
    let a = || Lifetime::Id { name: ident("a") };
    let b = || Lifetime::Id { name: ident("b") };
    assert!(term_eq(
        &outlives(WhereClause::LifetimeOutlives { a: a(), b: b() }).args[1],
        &fact(Predicate::LifetimeOutlives, vec![lifetime(0), lifetime(1)])
    ));
    assert!(term_eq(
        &outlives(WhereClause::TypeOutlives { ty: ty("Foo"), lifetime: b() }).args[1],
        &fact(Predicate::TypeOutlives, vec![foo(), lifetime(1)])
    ));
}

#[test]
fn the_conditions_of_a_clause_stand_from_the_last_to_the_first() {
    let p = program(prelude());
    let env = Env::from_lowerer(&p.names);
    let clause = Clause {
        variable_kinds: type_params(&["T"]),
        consequence: DomainGoal::Holds {
            where_clause: WhereClause::ProjectionEq {
                projection: ProjectionTy { trait_ref: trait_ref(ty("T"), "Iterator", vec![]), name: ident("Item"), args: vec![] },
                ty: ty("Foo"),
            },
        },
        conditions: vec![holds(implemented(ty("T"), "Clone")), holds(implemented(ty("T"), "Send"))],
    };
    let lowered = lower_clause(&env, &clause).expect("a clause that lowers");
    // one clause for each of the two facts of the consequence
    assert_eq!(lowered.len(), 2);
    let t = || bound(0, 0);
    let body = |consequence: Term| Term::new(
        Head::Clause(ClausePriority::High),
        vec![
            kinds(vec![chalk_slg::symbol::VariableKind::Ty]),
            consequence,
            fact(Predicate::Implemented(SEND), vec![t()]),
            fact(Predicate::Implemented(CLONE), vec![t()]),
        ],
    );
    assert!(term_eq(&lowered[0], &body(fact(Predicate::AliasEq, vec![Term::new(Head::Projection(ITEM), vec![t()]), adt(FOO, vec![])]))));
    assert!(term_eq(&lowered[1], &body(fact(Predicate::Implemented(ITERATOR), vec![t()]))));
    // the last condition is lowered first, so its error is the one reported
    let bad = Clause {
        variable_kinds: vec![],
        consequence: DomainGoal::Reveal,
        conditions: vec![holds(implemented(ty("Foo"), "NoTrait")), holds(implemented(ty("NoType"), "Clone"))],
    };
    assert!(matches!(lower_clause(&env, &bad), Err(RustIrError::InvalidParameterName(n)) if n.str == "NoType"));
    assert!(lower_goal_in(&env, &holds(implemented(ty("Foo"), "Clone"))).is_ok());
}

// ---- errors ----------------------------------------------------------------------

#[test]
fn names_that_stand_for_nothing_or_for_the_wrong_thing() {
    assert!(matches!(goal_error(holds(implemented(ty("Nope"), "Clone"))), RustIrError::InvalidParameterName(n) if n.str == "Nope"));
    assert!(matches!(goal_error(holds(implemented(ty("Foo"), "Nope"))), RustIrError::InvalidTraitName(n) if n.str == "Nope"));
    assert!(matches!(goal_error(holds(implemented(ty("Foo"), "Vec"))), RustIrError::NotTrait(n) if n.str == "Vec"));
    assert!(matches!(goal_error(holds(implemented(ty("Clone"), "Clone"))), RustIrError::NotStruct(n) if n.str == "Clone"));
    assert!(matches!(goal_error(holds(implemented(applied("Nope", vec![]), "Clone"))), RustIrError::NotStruct(n) if n.str == "Nope"));
    let parameter_applied = Goal::ForAll(type_params(&["T"]), Box::new(holds(implemented(applied("T", vec![]), "Clone"))));
    assert!(matches!(goal_error(parameter_applied), RustIrError::CannotApplyTypeParameter(n) if n.str == "T"));
}

#[test]
fn numbers_and_kinds_of_arguments_are_checked() {
    let lifetime_arg = || GenericArg::Lifetime(Lifetime::Id { name: ident("a") });
    let under_lifetime = |g: Goal| Goal::ForAll(vec![VariableKind::Lifetime(ident("a"))], Box::new(g));
    assert!(matches!(
        goal_error(holds(implemented(applied("Vec", vec![]), "Clone"))),
        RustIrError::IncorrectNumberOfTypeParameters { identifier, expected: 1, actual: 0 } if identifier.str == "Vec"
    ));
    assert!(matches!(
        goal_error(under_lifetime(holds(implemented(applied("Vec", vec![lifetime_arg()]), "Clone")))),
        RustIrError::IncorrectParameterKind { identifier, expected: Kind::Ty, actual: Kind::Lifetime } if identifier.str == "Vec"
    ));
    assert!(matches!(
        goal_error(under_lifetime(holds(implemented(ty("a"), "Clone")))),
        RustIrError::IncorrectParameterKind { identifier, expected: Kind::Ty, actual: Kind::Lifetime } if identifier.str == "a"
    ));
    let array = Ty::Array { ty: Box::new(ty("Foo")), len: Const::Id(ident("Foo")) };
    assert!(matches!(
        goal_error(holds(implemented(array, "Clone"))),
        RustIrError::IncorrectParameterKind { expected: Kind::Const, actual: Kind::Ty, .. }
    ));
    let reference = Ty::Ref { mutability: Mutability::Not, lifetime: Lifetime::Id { name: ident("Foo") }, ty: Box::new(ty("Foo")) };
    assert!(matches!(
        goal_error(holds(implemented(reference, "Clone"))),
        RustIrError::IncorrectParameterKind { expected: Kind::Lifetime, actual: Kind::Ty, .. }
    ));
    let into = |args: Vec<GenericArg>| holds(WhereClause::Implemented { trait_ref: trait_ref(ty("Foo"), "Into", args) });
    assert!(matches!(
        goal_error(into(vec![])),
        RustIrError::IncorrectNumberOfTypeParameters { identifier, expected: 1, actual: 0 } if identifier.str == "Into"
    ));
    assert!(matches!(
        goal_error(under_lifetime(into(vec![lifetime_arg()]))),
        RustIrError::IncorrectTraitParameterKind { identifier, expected: Kind::Ty, actual: Kind::Lifetime } if identifier.str == "Into"
    ));
    let window = |args: Vec<GenericArg>| holds(WhereClause::ProjectionEq {
        projection: ProjectionTy { trait_ref: trait_ref(ty("Foo"), "Iterator", vec![]), name: ident("Window"), args },
        ty: ty("Foo"),
    });
    assert!(matches!(
        goal_error(window(vec![])),
        RustIrError::IncorrectNumberOfAssociatedTypeParameters { identifier, expected: 1, actual: 0 } if identifier.str == "Window"
    ));
    assert!(matches!(
        goal_error(window(vec![GenericArg::Ty(ty("Foo"))])),
        RustIrError::IncorrectAssociatedTypeParameterKind { identifier, expected: Kind::Lifetime, actual: Kind::Ty } if identifier.str == "Window"
    ));
    let missing = holds(WhereClause::ProjectionEq {
        projection: ProjectionTy { trait_ref: trait_ref(ty("Foo"), "Clone", vec![]), name: ident("Item"), args: vec![] },
        ty: ty("Foo"),
    });
    assert!(matches!(goal_error(missing), RustIrError::MissingAssociatedType(n) if n.str == "Item"));
}

#[test]
fn items_are_checked() {
    let where_clause = || QuantifiedWhereClause { variable_kinds: vec![], where_clause: implemented(ty("Self"), "Clone") };
    let mut auto_with_parameter = trait_defn("Auto", &["T"], true, vec![]);
    auto_with_parameter.where_clauses = vec![];
    assert!(matches!(
        error_of(vec![Item::TraitDefn(auto_with_parameter)]),
        RustIrError::AutoTraitParameters(n) if n.str == "Auto"
    ));
    let mut auto_with_where_clause = trait_defn("Auto", &[], true, vec![]);
    auto_with_where_clause.where_clauses = vec![where_clause()];
    assert!(matches!(
        error_of(vec![trait_item("Clone", &[]), Item::TraitDefn(auto_with_where_clause)]),
        RustIrError::AutoTraitWhereClauses(n) if n.str == "Auto"
    ));
    assert!(matches!(
        error_of(vec![structure_with("Box", type_params(&["T", "U"]), true)]),
        RustIrError::InvalidFundamentalTypesParameters(n) if n.str == "Box"
    ));
    assert!(lower_program(&Program { items: vec![structure_with("Box", type_params(&["T"]), true)] }).is_ok());
    let value = AssocTyValue { name: ident("Item"), variable_kinds: vec![], value: ty("Foo"), default: false };
    let mut items = prelude();
    items.push(impl_of(ty("Foo"), "Iterator", Polarity::Negative, vec![value]));
    assert!(matches!(error_of(items), RustIrError::NegativeImplAssociatedValues(n) if n.str == "Iterator"));
    assert!(matches!(
        error_of(vec![structure_with("Pair", type_params(&["T", "T"]), false)]),
        RustIrError::DuplicateOrShadowedParameters
    ));
}

// ---- items ------------------------------------------------------------------------

#[test]
fn a_program_lowers_to_one_datum_for_each_item_and_associated_type() {
    let mut items = prelude();
    items.push(impl_of(ty("Foo"), "Iterator", Polarity::Positive, vec![AssocTyValue {
        name: ident("Item"),
        variable_kinds: vec![],
        value: applied("Vec", vec![GenericArg::Ty(ty("Foo"))]),
        default: false,
    }]));
    items.push(Item::Clause(Clause {
        variable_kinds: vec![],
        consequence: DomainGoal::Holds { where_clause: implemented(ty("Foo"), "Clone") },
        conditions: vec![],
    }));
    items.push(Item::Foreign(chalk_slg::ast::ForeignDefn(ident("Ext"))));
    let p = Program { items }.lower().expect("a program that lowers");
    let ids: Vec<_> = p.data.iter().map(|d| d.id.index).collect();
    // the items by position; the associated types and the value behind their trait and impl
    assert_eq!(ids, vec![0, 1, 2, 3, 4, 9, 10, 5, 6, 11]);
    assert!(matches!(p.data[4].meta, ItemMeta::Trait { .. }));
    assert_eq!(p.data[4].ids, vec![RawId { index: 9 }, RawId { index: 10 }]);
    assert!(matches!(p.data[5].meta, ItemMeta::AssociatedTy { trait_id: RawId { index: 4 } }));
    assert!(matches!(p.data[8].meta, ItemMeta::Impl { polarity: Polarity::Positive, .. }));
    assert_eq!(p.data[8].ids, vec![RawId { index: 11 }]);
    assert!(matches!(
        p.data[9].meta,
        ItemMeta::AssociatedTyValue { impl_id: RawId { index: 6 }, associated_ty_id: RawId { index: 9 } }
    ));
    assert!(term_eq(&p.data[9].term, &Term::new(Head::Quantified, vec![kinds(vec![]), adt(VEC, vec![adt(FOO, vec![])])])));
    let impl_term = Term::new(
        Head::Quantified,
        vec![
            kinds(vec![]),
            Term::new(Head::List, vec![Term::new(Head::TraitRef(ITERATOR), vec![adt(FOO, vec![])]), Term::new(Head::List, vec![])]),
        ],
    );
    assert!(term_eq(&p.data[8].term, &impl_term));
    assert_eq!(p.custom_clauses.len(), 1);
    assert_eq!(p.foreign_ty_ids, vec![("Ext".to_string(), RawId { index: 8 })]);
    // a foreign type can be named in a goal
    let goal = holds(implemented(ty("Ext"), "Clone"));
    let expected = fact(Predicate::Implemented(CLONE), vec![Term::atom(Head::Apply(TypeName::Foreign(8)))]);
    assert!(term_eq(&lower_goal(&goal, &p).expect("a goal that lowers"), &expected));
}

#[test]
fn the_parameters_of_an_associated_type_come_before_those_of_its_trait() {
    let window = AssocTyDefn {
        name: ident("Window"),
        variable_kinds: vec![VariableKind::Lifetime(ident("a"))],
        bounds: vec![],
        where_clauses: vec![QuantifiedWhereClause {
            variable_kinds: vec![],
            where_clause: WhereClause::TypeOutlives { ty: ty("T"), lifetime: Lifetime::Id { name: ident("a") } },
        }],
    };
    let p = program(vec![Item::TraitDefn(trait_defn("Stream", &["T"], false, vec![window]))]);
    let datum = &p.data[1];
    let k = |v| v;
    assert!(term_eq(
        &datum.term.args[0],
        &kinds(vec![
            k(chalk_slg::symbol::VariableKind::Lifetime),
            k(chalk_slg::symbol::VariableKind::Ty),
            k(chalk_slg::symbol::VariableKind::Ty),
        ])
    ));
    // 'a is slot 0, Self slot 1 and T slot 2 of the binder, seen from under the binder of the where clause
    let where_clause = &datum.term.args[1].args[1].args[0].args[1];
    let lifetime = Term::atom(Head::BoundVar { kind: Kind::Lifetime, depth: 1, index: 0 });
    assert!(term_eq(where_clause, &fact(Predicate::TypeOutlives, vec![bound(1, 2), lifetime])));
}

#[test]
fn an_opaque_type_has_its_bounds_as_where_clauses_on_itself() {
    let bound_on = |name: &str| QuantifiedInlineBound {
        variable_kinds: vec![],
        bound: InlineBound::TraitBound(TraitBound { trait_name: ident(name), args_no_self: vec![] }),
    };
    let mut items = prelude();
    items.push(Item::OpaqueTyDefn(OpaqueTyDefn {
        ty: applied("Vec", vec![GenericArg::Ty(ty("X"))]),
        variable_kinds: type_params(&["X"]),
        name: ident("Hidden"),
        bounds: vec![bound_on("Clone")],
        where_clauses: vec![QuantifiedWhereClause { variable_kinds: vec![], where_clause: implemented(ty("X"), "Send") }],
    }));
    let p = program(items);
    assert_eq!(p.hidden_opaque_types.len(), 1);
    assert_eq!(p.hidden_opaque_types[0].0, RawId { index: 6 });
    assert!(term_eq(&p.hidden_opaque_types[0].1, &adt(VEC, vec![bound(0, 0)])));
    let datum = p.data.last().expect("the opaque type");
    assert!(matches!(datum.meta, ItemMeta::OpaqueTy));
    let parts = &datum.term.args[1];
    let quantifier = |body: Term| Term::new(Head::Quantified, vec![kinds(vec![]), body]);
    let under_self = |list: Vec<Term>| Term::new(
        Head::Quantified,
        vec![kinds(vec![chalk_slg::symbol::VariableKind::Ty]), Term::new(Head::List, list)],
    );
    // the opaque type itself is the innermost variable of the bounds; X is one further out
    assert!(term_eq(&parts.args[0], &under_self(vec![quantifier(fact(Predicate::Implemented(CLONE), vec![bound(1, 0)]))])));
    assert!(term_eq(&parts.args[1], &under_self(vec![quantifier(fact(Predicate::Implemented(SEND), vec![bound(2, 0)]))])));
}

#[test]
fn an_adt_holds_the_types_of_its_fields_and_its_where_clauses() {
    let field = |name: &str, t: Ty| chalk_slg::ast::Field { name: ident(name), ty: t };
    let mut items = prelude();
    items.push(Item::AdtDefn(AdtDefn {
        name: ident("Pair"),
        variable_kinds: type_params(&["A", "B"]),
        where_clauses: vec![QuantifiedWhereClause { variable_kinds: vec![], where_clause: implemented(ty("A"), "Clone") }],
        variants: vec![
            chalk_slg::ast::Variant { name: ident("Both"), fields: vec![field("a", ty("A")), field("b", ty("B"))] },
            chalk_slg::ast::Variant { name: ident("None"), fields: vec![] },
        ],
        flags: AdtFlags { upstream: true, fundamental: false, phantom_data: false, kind: AdtKind::Enum },
        repr: AdtRepr { repr_c: true, repr_packed: false },
    }));
    let p = program(items);
    let datum = p.data.last().expect("the adt");
    assert!(matches!(
        datum.meta,
        ItemMeta::Adt {
            flags: AdtFlags { upstream: true, kind: AdtKind::Enum, .. },
            repr: AdtRepr { repr_c: true, repr_packed: false },
        }
    ));
    assert_eq!(datum.name, "Pair");
    let ty_kind = chalk_slg::symbol::VariableKind::Ty;
    let expected = Term::new(
        Head::Quantified,
        vec![
            kinds(vec![ty_kind, ty_kind]),
            Term::new(
                Head::List,
                vec![
                    Term::new(
                        Head::List,
                        vec![Term::new(Head::List, vec![bound(0, 0), bound(0, 1)]), Term::new(Head::List, vec![])],
                    ),
                    Term::new(
                        Head::List,
                        vec![Term::new(Head::Quantified, vec![kinds(vec![]), fact(Predicate::Implemented(CLONE), vec![bound(1, 0)])])],
                    ),
                ],
            ),
        ],
    );
    assert!(term_eq(&datum.term, &expected));
}

#[test]
fn a_function_holds_its_inputs_and_output_under_a_binder_of_their_own() {
    let mut items = prelude();
    items.push(Item::FnDefn(chalk_slg::ast::FnDefn {
        name: ident("id"),
        variable_kinds: type_params(&["T"]),
        where_clauses: vec![],
        argument_types: vec![ty("T"), ty("Foo")],
        return_type: ty("T"),
        sig: FnSig { abi: FnAbi("C".to_string()), safety: Safety::Unsafe, variadic: true },
    }));
    let p = program(items);
    let datum = p.data.last().expect("the function");
    assert!(matches!(
        datum.meta,
        ItemMeta::FnDef { safety: Safety::Unsafe, abi: chalk_slg::symbol::FnAbi::C, variadic: true }
    ));
    // seen from under the inner binder, T is one binder out
    let inputs_and_output = Term::new(
        Head::Quantified,
        vec![
            kinds(vec![]),
            Term::new(Head::List, vec![Term::new(Head::List, vec![bound(1, 0), adt(FOO, vec![])]), bound(1, 0)]),
        ],
    );
    let expected = Term::new(
        Head::Quantified,
        vec![
            kinds(vec![chalk_slg::symbol::VariableKind::Ty]),
            Term::new(Head::List, vec![inputs_and_output, Term::new(Head::List, vec![])]),
        ],
    );
    assert!(term_eq(&datum.term, &expected));
    // the return type is lowered before the arguments
    let bad = vec![Item::FnDefn(chalk_slg::ast::FnDefn {
        name: ident("f"),
        variable_kinds: vec![],
        where_clauses: vec![],
        argument_types: vec![ty("NoArgument")],
        return_type: ty("NoReturn"),
        sig: FnSig { abi: FnAbi("Rust".to_string()), safety: Safety::Safe, variadic: false },
    })];
    assert!(matches!(error_of(bad), RustIrError::InvalidParameterName(n) if n.str == "NoReturn"));
}

#[test]
fn a_closure_holds_its_signature_and_the_tuple_of_its_upvars() {
    let mut items = prelude();
    items.push(Item::ClosureDefn(chalk_slg::ast::ClosureDefn {
        name: ident("c"),
        kind: chalk_slg::ast::ClosureKind::FnMut,
        argument_types: vec![ty("Foo")],
        return_type: ty("T"),
        variable_kinds: type_params(&["T"]),
        upvars: vec![ty("T"), ty("Foo")],
    }));
    let p = program(items);
    let datum = p.data.last().expect("the closure");
    assert!(matches!(datum.meta, ItemMeta::Closure { kind: chalk_slg::ast::ClosureKind::FnMut }));
    let under = |body: Term| Term::new(Head::Quantified, vec![kinds(vec![chalk_slg::symbol::VariableKind::Ty]), body]);
    let expected = Term::new(
        Head::List,
        vec![
            under(Term::new(Head::List, vec![Term::new(Head::List, vec![adt(FOO, vec![])]), bound(0, 0)])),
            under(Term::new(Head::Apply(TypeName::Tuple(2)), vec![bound(0, 0), adt(FOO, vec![])])),
        ],
    );
    assert!(term_eq(&datum.term, &expected));
}

#[test]
fn a_trait_has_its_self_type_as_its_first_parameter() {
    let mut with_where_clause = trait_defn("Ordered", &["T"], false, vec![]);
    with_where_clause.where_clauses =
        vec![QuantifiedWhereClause { variable_kinds: vec![], where_clause: implemented(ty("Self"), "Clone") }];
    with_where_clause.well_known = Some(chalk_slg::ast::WellKnownTrait::Sized);
    let mut items = prelude();
    items.push(Item::TraitDefn(with_where_clause));
    let p = program(items);
    let datum = p.data.last().expect("the trait");
    assert!(matches!(datum.meta, ItemMeta::Trait { well_known: Some(chalk_slg::ast::WellKnownTrait::Sized), .. }));
    let ty_kind = chalk_slg::symbol::VariableKind::Ty;
    let expected = Term::new(
        Head::Quantified,
        vec![
            kinds(vec![ty_kind, ty_kind]),
            Term::new(
                Head::List,
                vec![Term::new(Head::Quantified, vec![kinds(vec![]), fact(Predicate::Implemented(CLONE), vec![bound(1, 0)])])],
            ),
        ],
    );
    assert!(term_eq(&datum.term, &expected));
    assert_eq!(p.well_known_traits, vec![(chalk_slg::ast::WellKnownTrait::Sized, RawId { index: 6 })]);
    // a parameter of a trait may not be called Self
    assert!(matches!(
        error_of(vec![trait_item("Odd", &["Self"])]),
        RustIrError::DuplicateOrShadowedParameters
    ));
}
