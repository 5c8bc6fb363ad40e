use chalk_slg::ast::{
    AdtDefn, AdtFlags, AdtKind, AdtRepr, AliasEqBound, AssocTyDefn, AssocTyValue, DomainGoal, GenericArg, Goal,
    Identifier, Impl, ImplType, InlineBound, Item, LeafGoal, OpaqueTyDefn, Polarity, Program, ProjectionTy,
    QuantifiedInlineBound, QuantifiedWhereClause, TraitBound, TraitDefn, TraitFlags, TraitRef, Ty, VariableKind,
    WhereClause,
};
use chalk_slg::clauses::solve_in_program;
use chalk_slg::lowering::program::{lower_goal, lower_program, LoweredProgram};
use chalk_slg::symbol::{Scalar, UintTy};

const MAX_SIZE: usize = 30;
const FUEL: usize = 60;

// ---- syntax ----------------------------------------------------------

fn ident(s: &str) -> Identifier {
    Identifier { str: s.to_string() }
}

fn ty(name: &str) -> Ty {
    Ty::Id { name: ident(name) }
}

fn applied(name: &str, args: Vec<Ty>) -> Ty {
    Ty::Apply { name: ident(name), args: args.into_iter().map(GenericArg::Ty).collect() }
}

fn structure(name: &str, params: &[&str]) -> Item {
    Item::AdtDefn(AdtDefn {
        name: ident(name),
        variable_kinds: params.iter().map(|p| VariableKind::Ty(ident(p))).collect(),
        where_clauses: vec![],
        variants: vec![],
        flags: AdtFlags { upstream: false, fundamental: false, phantom_data: false, kind: AdtKind::Struct },
        repr: AdtRepr { repr_c: false, repr_packed: false },
    })
}

fn trait_item(name: &str, auto: bool, assoc: &[&str]) -> Item {
    Item::TraitDefn(TraitDefn {
        name: ident(name),
        variable_kinds: vec![],
        where_clauses: vec![],
        assoc_ty_defns: assoc
            .iter()
            .map(|a| AssocTyDefn { name: ident(a), variable_kinds: vec![], bounds: vec![], where_clauses: vec![] })
            .collect(),
        flags: TraitFlags {
            auto,
            marker: false,
            upstream: false,
            fundamental: false,
            non_enumerable: false,
            coinductive: false,
            object_safe: false,
        },
        well_known: None,
    })
}

fn trait_ref(self_ty: Ty, name: &str) -> TraitRef {
    TraitRef { trait_name: ident(name), self_ty: Box::new(self_ty), args: vec![] }
}

fn impl_item(params: &[&str], polarity: Polarity, self_ty: Ty, name: &str, values: Vec<(&str, Ty)>) -> Item {
    Item::Impl(Impl {
        variable_kinds: params.iter().map(|p| VariableKind::Ty(ident(p))).collect(),
        trait_ref: trait_ref(self_ty, name),
        polarity,
        where_clauses: vec![],
        assoc_ty_values: values
            .into_iter()
            .map(|(n, value)| AssocTyValue { name: ident(n), variable_kinds: vec![], value, default: false })
            .collect(),
        impl_type: ImplType::Local,
    })
}

fn trait_bound(name: &str) -> QuantifiedInlineBound {
    QuantifiedInlineBound {
        variable_kinds: vec![],
        bound: InlineBound::TraitBound(TraitBound { trait_name: ident(name), args_no_self: vec![] }),
    }
}

fn alias_eq_bound(name: &str, item: &str, value: Ty) -> QuantifiedInlineBound {
    QuantifiedInlineBound {
        variable_kinds: vec![],
        bound: InlineBound::AliasEqBound(AliasEqBound {
            trait_bound: TraitBound { trait_name: ident(name), args_no_self: vec![] },
            name: ident(item),
            args: vec![],
            value,
        }),
    }
}

fn opaque_item(
    name: &str,
    params: &[&str],
    bounds: Vec<QuantifiedInlineBound>,
    where_clauses: Vec<WhereClause>,
    hidden: Ty,
) -> Item {
    Item::OpaqueTyDefn(OpaqueTyDefn {
        ty: hidden,
        variable_kinds: params.iter().map(|p| VariableKind::Ty(ident(p))).collect(),
        name: ident(name),
        bounds,
        where_clauses: where_clauses
            .into_iter()
            .map(|where_clause| QuantifiedWhereClause { variable_kinds: vec![], where_clause })
            .collect(),
    })
}

fn implemented_goal(self_ty: Ty, name: &str) -> Goal {
    Goal::Leaf(LeafGoal::DomainGoal {
        goal: DomainGoal::Holds { where_clause: WhereClause::Implemented { trait_ref: trait_ref(self_ty, name) } },
    })
}

fn projection_eq_goal(self_ty: Ty, trait_name: &str, item: &str, value: Ty) -> Goal {
    Goal::Leaf(LeafGoal::DomainGoal {
        goal: DomainGoal::Holds {
            where_clause: WhereClause::ProjectionEq {
                projection: ProjectionTy { trait_ref: trait_ref(self_ty, trait_name), name: ident(item), args: vec![] },
                ty: value,
            },
        },
    })
}

// ---- the harness -------------------------------------------------------

fn lowered(items: Vec<Item>) -> LoweredProgram {
    lower_program(&Program { items }).expect("a program that lowers")
}

/// Solves the goal against the clauses of the program and compares the
/// solution with what is expected, white space apart: the solution has to
/// begin with it.
fn yields(program: &LoweredProgram, goal: Goal, expected: &str) {
    let goal = lower_goal(&goal, program).expect("a goal that lowers");
    let solution = solve_in_program(program, &Vec::new(), &goal, MAX_SIZE, FUEL);
    let result = solution.describe();
    let expected1: String = expected.chars().filter(|w| !w.is_whitespace()).collect();
    let result1: String = result.chars().filter(|w| !w.is_whitespace()).collect();
    assert!(!expected1.is_empty() && result1.starts_with(&expected1), "expected {:?}, got {:?}", expected, result);
}

// ---- the scenarios -----------------------------------------------------

#[test]
fn opaque_bounds() {
    // struct Ty { }  trait Clone { }  opaque type T: Clone = Ty;
    let p = lowered(vec![
        structure("Ty", &[]),
        trait_item("Clone", false, &[]),
        opaque_item("T", &[], vec![trait_bound("Clone")], vec![], ty("Ty")),
    ]);
    yields(&p, implemented_goal(ty("T"), "Clone"), "Unique; substitution []");
}

fn reveal_program() -> LoweredProgram {
    // struct Ty { }  trait Trait { }  impl Trait for Ty { }
    // trait Clone { }  opaque type T: Clone = Ty;
    lowered(vec![
        structure("Ty", &[]),
        trait_item("Trait", false, &[]),
        impl_item(&[], Polarity::Positive, ty("Ty"), "Trait", vec![]),
        trait_item("Clone", false, &[]),
        opaque_item("T", &[], vec![trait_bound("Clone")], vec![], ty("Ty")),
    ])
}

#[test]
fn opaque_reveal() {
    let p = reveal_program();
    // if (Reveal) { T: Trait }
    let revealed = Goal::Implies(
        vec![chalk_slg::ast::Clause { variable_kinds: vec![], consequence: DomainGoal::Reveal, conditions: vec![] }],
        Box::new(implemented_goal(ty("T"), "Trait")),
    );
    yields(&p, revealed, "Unique; substitution []");
    // T: Trait
    yields(&p, implemented_goal(ty("T"), "Trait"), "No possible solution");
}

#[test]
fn opaque_where_clause() {
    // struct Ty { }  trait Clone { }  trait Trait { }  impl Trait for Ty { }
    // opaque type T: Clone where T: Trait = Ty;
    let p = lowered(vec![
        structure("Ty", &[]),
        trait_item("Clone", false, &[]),
        trait_item("Trait", false, &[]),
        impl_item(&[], Polarity::Positive, ty("Ty"), "Trait", vec![]),
        opaque_item(
            "T",
            &[],
            vec![trait_bound("Clone")],
            vec![WhereClause::Implemented { trait_ref: trait_ref(ty("T"), "Trait") }],
            ty("Ty"),
        ),
    ]);
    yields(&p, implemented_goal(ty("T"), "Trait"), "Unique; substitution []");
}

#[test]
fn opaque_generics_simple() {
    // trait Iterator { type Item; }  struct Vec<T> { }  struct Bar { }
    // impl<T> Iterator for Vec<T> { type Item = u32; }
    // opaque type Foo<X>: Iterator = Vec<X>;
    let p = lowered(vec![
        trait_item("Iterator", false, &["Item"]),
        structure("Vec", &["T"]),
        structure("Bar", &[]),
        impl_item(
            &["T"],
            Polarity::Positive,
            applied("Vec", vec![ty("T")]),
            "Iterator",
            vec![("Item", Ty::Scalar { ty: Scalar::Uint(UintTy::U32) })],
        ),
        opaque_item("Foo", &["X"], vec![trait_bound("Iterator")], vec![], applied("Vec", vec![ty("X")])),
    ]);
    // Foo<Bar>: Iterator
    yields(&p, implemented_goal(applied("Foo", vec![ty("Bar")]), "Iterator"), "Unique; substitution []");
}

fn generics_program() -> LoweredProgram {
    // trait Iterator { type Item; }  struct Vec<T> { }  struct Bar { }
    // opaque type Foo<X>: Iterator<Item = X> = Vec<X>;
    lowered(vec![
        trait_item("Iterator", false, &["Item"]),
        structure("Vec", &["T"]),
        structure("Bar", &[]),
        opaque_item(
            "Foo",
            &["X"],
            vec![alias_eq_bound("Iterator", "Item", ty("X"))],
            vec![],
            applied("Vec", vec![ty("X")]),
        ),
    ])
}

#[test]
fn opaque_generics() {
    let p = generics_program();
    // Foo<Bar>: Iterator<Item = Bar>
    yields(
        &p,
        projection_eq_goal(applied("Foo", vec![ty("Bar")]), "Iterator", "Item", ty("Bar")),
        "Unique; substitution []",
    );
    // forall<T> { Foo<T>: Iterator<Item = T> }
    yields(
        &p,
        Goal::ForAll(
            vec![VariableKind::Ty(ident("T"))],
            Box::new(projection_eq_goal(applied("Foo", vec![ty("T")]), "Iterator", "Item", ty("T"))),
        ),
        "Unique; substitution []",
    );
    // exists<T> { <Foo<Bar> as Iterator>::Item = T }
    yields(
        &p,
        Goal::Exists(
            vec![VariableKind::Ty(ident("T"))],
            Box::new(Goal::Leaf(LeafGoal::UnifyGenericArgs {
                a: GenericArg::Ty(Ty::Projection {
                    proj: ProjectionTy {
                        trait_ref: trait_ref(applied("Foo", vec![ty("Bar")]), "Iterator"),
                        name: ident("Item"),
                        args: vec![],
                    },
                }),
                b: GenericArg::Id(ident("T")),
            })),
        ),
        "Ambiguous",
    );
}

#[test]
fn opaque_auto_traits() {
    // struct Bar { }  struct Baz { }  trait Trait { }
    // #[auto] trait Send { }  impl !Send for Baz { }
    // opaque type Opaque1: Trait = Bar;  opaque type Opaque2: Trait = Baz;
    let p = lowered(vec![
        structure("Bar", &[]),
        structure("Baz", &[]),
        trait_item("Trait", false, &[]),
        trait_item("Send", true, &[]),
        impl_item(&[], Polarity::Negative, ty("Baz"), "Send", vec![]),
        opaque_item("Opaque1", &[], vec![trait_bound("Trait")], vec![], ty("Bar")),
        opaque_item("Opaque2", &[], vec![trait_bound("Trait")], vec![], ty("Baz")),
    ]);
    // Opaque1: Send
    yields(&p, implemented_goal(ty("Opaque1"), "Send"), "Unique");
    // Opaque2: Send
    yields(&p, implemented_goal(ty("Opaque2"), "Send"), "No possible solution");
}
