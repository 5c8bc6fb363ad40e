//! Lowering of types, lifetimes, constants and bounds.

use vstd::prelude::*;
use crate::ast::AliasEqBound;
use crate::ast::Const;
use crate::ast::FnAbi;
use crate::ast::GenericArg;
use crate::ast::Identifier;
use crate::ast::InlineBound;
use crate::ast::Lifetime;
use crate::ast::ProjectionTy;
use crate::ast::QuantifiedInlineBound;
use crate::ast::TraitBound;
use crate::ast::TraitRef;
use crate::ast::Ty;
use crate::symbol::Head;
use crate::symbol::Kind;
use crate::symbol::Predicate;
use crate::symbol::TypeName;
use crate::symbol::VariableKind;
use crate::term::SpecTerm;
use crate::term::Term;
use crate::term::lemma_view_args;
use crate::term::views;
use crate::fold::clone_term;
use crate::fold::clone_terms;
use crate::infer::shifted_in;
use crate::unify::head_has_sort;
use crate::canonicalize::head_kind;
use crate::solve::list_term;
use crate::ex_clause::append_terms;
use crate::lowering::env::WithKind;
use crate::lowering::env::declarations;
use crate::lowering::env::parameters;
use crate::lowering::env::lemma_lookup_is_entry;
use crate::lowering::env::lookup;
use crate::lowering::env::anonymize;
use vstd::string::StringExecFns;
use crate::fold::fold;
use crate::infer::shift;
use crate::unify::sort_of;
use crate::canonicalize::kind_of;
use crate::slg::list;
use crate::lowering::env::ApplyTypeLookup;
use crate::lowering::env::AssociatedTyLookup;
use crate::lowering::env::Env;
use crate::lowering::env::LowerResult;
use crate::lowering::env::RawId;
use crate::lowering::env::SpecParameter;
use crate::lowering::env::SpecWithKind;
use crate::lowering::env::Tables;
use crate::lowering::env::TypeSort;
use crate::lowering::env::associated_index;
use crate::lowering::env::auto_upto;
use crate::lowering::env::introduced;
use crate::lowering::env::kind_of_id;
use crate::lowering::env::kinds_of;
use crate::lowering::env::shadows;
use crate::lowering::error::RustIrError;

verus! {

/// The kind of a declared parameter.
pub open spec fn declared_kind(vk: crate::ast::VariableKind) -> VariableKind {
    match vk {
        crate::ast::VariableKind::Ty(_) => VariableKind::Ty,
        crate::ast::VariableKind::IntegerTy(_) => VariableKind::IntegerTy,
        crate::ast::VariableKind::FloatTy(_) => VariableKind::FloatTy,
        crate::ast::VariableKind::Lifetime(_) => VariableKind::Lifetime,
        crate::ast::VariableKind::Const(_) => VariableKind::Const,
    }
}

/// The name of a declared parameter.
pub open spec fn declared_name(vk: crate::ast::VariableKind) -> Identifier {
    match vk {
        crate::ast::VariableKind::Ty(n) => n,
        crate::ast::VariableKind::IntegerTy(n) => n,
        crate::ast::VariableKind::FloatTy(n) => n,
        crate::ast::VariableKind::Lifetime(n) => n,
        crate::ast::VariableKind::Const(n) => n,
    }
}

/// A declared parameter as a kind and a name.
pub open spec fn declaration(vk: crate::ast::VariableKind) -> SpecWithKind {
    SpecWithKind { kind: declared_kind(vk), name: declared_name(vk).text() }
}

/// Declared parameters as kinds and names.
pub open spec fn declared(vks: Seq<crate::ast::VariableKind>) -> Seq<SpecWithKind> {
    Seq::new(vks.len(), |i: int| declaration(vks[i]))
}

/// The parameter that a trait object and an opaque type declare for their
/// own self type.
pub open spec fn anonymous_self() -> SpecWithKind {
    SpecWithKind { kind: VariableKind::Ty, name: "__FIXME_SELF__"@ }
}

/// The parameter that a trait declares for its self type.
pub open spec fn trait_self() -> SpecWithKind {
    SpecWithKind { kind: VariableKind::Ty, name: "Self"@ }
}

/// The kinds of the variables of a binder, as a term.
pub open spec fn kinds_term(kinds: Seq<VariableKind>) -> SpecTerm {
    SpecTerm {
        head: Head::Binders,
        args: Seq::new(kinds.len(), |i: int| SpecTerm::atom(Head::BinderKind(kinds[i]))),
    }
}

/// A value under a binder, as a term.
pub open spec fn quantified(kinds: Seq<VariableKind>, value: SpecTerm) -> SpecTerm {
    SpecTerm { head: Head::Quantified, args: seq![kinds_term(kinds), value] }
}

/// A term with the given symbol and sub-terms.
pub open spec fn node(head: Head, args: Seq<SpecTerm>) -> SpecTerm {
    SpecTerm { head, args }
}

/// An alias as a type.
pub open spec fn alias_ty(alias: SpecTerm) -> SpecTerm {
    node(Head::Alias, seq![alias])
}

/// The innermost bound type variable at slot 0 of a binder `depth` levels out.
pub open spec fn self_var(depth: u32) -> SpecTerm {
    SpecTerm::atom(Head::BoundVar { kind: Kind::Ty, depth, index: 0 })
}

/// The calling convention that a string names.
pub open spec fn abi_model(abi: FnAbi) -> LowerResult<crate::symbol::FnAbi> {
    if abi.0@ == "Rust"@ {
        Ok(crate::symbol::FnAbi::Rust)
    } else if abi.0@ == "C"@ {
        Ok(crate::symbol::FnAbi::C)
    } else {
        Err(RustIrError::InvalidExternAbi(abi.0))
    }
}

/// The where clauses that a bound under a binder makes of a self type:
/// that the trait is implemented, and, for a bound on an associated type,
/// that the associated type has the value.
pub open spec fn where_clauses_of(bound: SpecTerm, self_ty: SpecTerm) -> Seq<SpecTerm> {
    if bound.head is Quantified && bound.args.len() == 2 {
        let kinds = bound.args[0];
        let inner = bound.args[1];
        let this = fold(self_ty, shift(1), 0);
        match inner.head {
            Head::TraitBound(id) => seq![
                node(
                    Head::Quantified,
                    seq![kinds, node(Head::Fact(Predicate::Implemented(id)), seq![this] + inner.args)],
                ),
            ],
            Head::AliasEqBound(assoc) => if inner.args.len() == 3 {
                match inner.args[0].head {
                    Head::TraitBound(id) => seq![
                        node(
                            Head::Quantified,
                            seq![
                                kinds,
                                node(Head::Fact(Predicate::Implemented(id)), seq![this] + inner.args[0].args),
                            ],
                        ),
                        node(
                            Head::Quantified,
                            seq![
                                kinds,
                                node(
                                    Head::Fact(Predicate::AliasEq),
                                    seq![
                                        node(
                                            Head::Projection(assoc),
                                            inner.args[1].args + (seq![this] + inner.args[0].args),
                                        ),
                                        inner.args[2],
                                    ],
                                ),
                            ],
                        ),
                    ],
                    _ => Seq::empty(),
                }
            } else {
                Seq::empty()
            },
            _ => Seq::empty(),
        }
    } else {
        Seq::empty()
    }
}

/// The where clauses that the first `n` bounds make of a self type.
pub open spec fn all_where_clauses(bounds: Seq<SpecTerm>, self_ty: SpecTerm, n: nat) -> Seq<SpecTerm>
    decreases n,
{
    if n == 0 || n > bounds.len() {
        Seq::empty()
    } else {
        all_where_clauses(bounds, self_ty, (n - 1) as nat) + where_clauses_of(bounds[n - 1], self_ty)
    }
}

/// The first position at which the kinds of parameters and arguments differ.
pub open spec fn kind_mismatch(kinds: Seq<VariableKind>, args: Seq<SpecTerm>, n: nat) -> Option<int>
    decreases n,
{
    if n == 0 || n > kinds.len() || n > args.len() {
        None
    } else {
        match kind_mismatch(kinds, args, (n - 1) as nat) {
            Some(i) => Some(i),
            None => if kinds[n - 1].sort() != kind_of(args[n - 1].head) {
                Some(n - 1)
            } else {
                None
            },
        }
    }
}

/// The name of the trait of a bound.
pub open spec fn bound_trait(b: InlineBound) -> Identifier {
    match b {
        InlineBound::TraitBound(tb) => tb.trait_name,
        InlineBound::AliasEqBound(ab) => ab.trait_bound.trait_name,
    }
}

/// Whether a trait is an auto trait, as far as the table of auto traits says.
pub open spec fn is_auto(tb: Tables, id: RawId) -> bool {
    auto_upto(tb.auto_traits, id, tb.auto_traits.len()) == Some(true)
}

/// The order in which bounds are lowered, over the first `n` bounds: the
/// bounds on traits that are not auto traits in their order, then those on
/// auto traits by the number of the trait, equal numbers in their order.
/// The first bound whose trait cannot be found is an error.
pub open spec fn bound_order(
    tb: Tables,
    ps: Seq<SpecParameter>,
    bounds: Seq<QuantifiedInlineBound>,
    n: nat,
) -> LowerResult<(Seq<int>, Seq<(int, RawId)>)>
    decreases n,
{
    if n == 0 || n > bounds.len() {
        Ok((Seq::empty(), Seq::empty()))
    } else {
        match bound_order(tb, ps, bounds, (n - 1) as nat) {
            Err(e) => Err(e),
            Ok((regular, auto)) => match tb.trait_at(ps, bound_trait(bounds[n - 1].bound)) {
                Err(e) => Err(e),
                Ok(id) => if is_auto(tb, id) {
                    Ok((regular, insert_by_id(auto, (n - 1, id), auto.len())))
                } else {
                    Ok((regular.push(n - 1), auto))
                },
            },
        }
    }
}

/// The list with `x` put behind the last of the first `n` entries whose
/// number is not larger.
pub open spec fn insert_by_id(s: Seq<(int, RawId)>, x: (int, RawId), n: nat) -> Seq<(int, RawId)>
    decreases n,
{
    if n == 0 || n > s.len() {
        seq![x] + s
    } else if s[n - 1].1.index <= x.1.index {
        s.subrange(0, n as int) + seq![x] + s.subrange(n as int, s.len() as int)
    } else {
        insert_by_id(s, x, (n - 1) as nat)
    }
}

/// The type that syntax stands for.
pub open spec fn lower_ty_model(tb: Tables, ps: Seq<SpecParameter>, ty: Ty) -> LowerResult<SpecTerm>
    decreases ty, 0nat,
{
    match ty {
        Ty::Id { name } => match tb.generic_arg_at(ps, name) {
            Err(e) => Err(e),
            Ok(t) => if sort_of(t.head) == Some(Kind::Ty) {
                Ok(t)
            } else {
                Err(
                    RustIrError::IncorrectParameterKind {
                        identifier: name,
                        expected: Kind::Ty,
                        actual: kind_of(t.head),
                    },
                )
            },
        },
        Ty::Dyn { bounds, lifetime } => if shadows(ps, seq![anonymous_self()]) {
            Err(RustIrError::DuplicateOrShadowedParameters)
        } else {
            match lower_bounds_model(tb, introduced(ps, seq![anonymous_self()]), bounds) {
                Err(e) => Err(e),
                Ok(bs) => match lower_lifetime_model(tb, ps, lifetime) {
                    Err(e) => Err(e),
                    Ok(l) => Ok(
                        node(
                            Head::Dyn,
                            seq![
                                quantified(
                                    seq![VariableKind::Ty],
                                    list(all_where_clauses(bs, self_var(0), bs.len())),
                                ),
                                l,
                            ],
                        ),
                    ),
                },
            }
        },
        Ty::Apply { name, args } => match tb.apply_type_at(ps, name.text()) {
            None => Err(RustIrError::NotStruct(name)),
            Some(ApplyTypeLookup::Parameter(_, _)) => Err(RustIrError::CannotApplyTypeParameter(name)),
            Some(found) => {
                let (constructor, k) = match found {
                    ApplyTypeLookup::Adt(id) => (TypeName::Adt(id.index), kind_of_id(tb.adt_kinds, id)),
                    ApplyTypeLookup::FnDef(id) => (TypeName::FnDef(id.index), kind_of_id(tb.fn_def_kinds, id)),
                    ApplyTypeLookup::Closure(id) => (
                        TypeName::Closure(id.index),
                        kind_of_id(tb.closure_kinds, id),
                    ),
                    ApplyTypeLookup::Opaque(id) => (
                        TypeName::OpaqueType(id.index),
                        kind_of_id(tb.opaque_ty_kinds, id),
                    ),
                    ApplyTypeLookup::Parameter(_, _) => arbitrary(),
                };
                if k.binders@.len() != args@.len() {
                    Err(
                        RustIrError::IncorrectNumberOfTypeParameters {
                            identifier: name,
                            expected: k.binders@.len() as usize,
                            actual: args@.len() as usize,
                        },
                    )
                } else {
                    match lower_args_model(tb, ps, args@, args@.len()) {
                        Err(e) => Err(e),
                        Ok(ts) => match kind_mismatch(k.binders@, ts, ts.len()) {
                            Some(i) => Err(
                                RustIrError::IncorrectParameterKind {
                                    identifier: name,
                                    expected: k.binders@[i].sort(),
                                    actual: kind_of(ts[i].head),
                                },
                            ),
                            None => Ok(node(Head::Apply(constructor), ts)),
                        },
                    }
                }
            },
        },
        Ty::Projection { proj } => match lower_projection_model(tb, ps, proj) {
            Err(e) => Err(e),
            Ok(p) => Ok(alias_ty(p)),
        },
        Ty::ForAll { lifetime_names, types, sig } => if shadows(ps, lifetimes(lifetime_names@)) {
            Err(RustIrError::DuplicateOrShadowedParameters)
        } else {
            match lower_tys_model(tb, introduced(ps, lifetimes(lifetime_names@)), types@, types@.len()) {
                Err(e) => Err(e),
                Ok(ts) => match abi_model(sig.abi) {
                    Err(e) => Err(e),
                    Ok(abi) => Ok(
                        node(
                            Head::Function {
                                binders: lifetime_names@.len() as usize,
                                safety: sig.safety,
                                abi,
                                variadic: sig.variadic,
                            },
                            ts,
                        ),
                    ),
                },
            }
        },
        Ty::Tuple { types } => match lower_tys_model(tb, ps, types@, types@.len()) {
            Err(e) => Err(e),
            Ok(ts) => Ok(node(Head::Apply(TypeName::Tuple(types@.len() as usize)), ts)),
        },
        Ty::Scalar { ty } => Ok(SpecTerm::atom(Head::Apply(TypeName::Scalar(ty)))),
        Ty::Array { ty, len } => match lower_ty_model(tb, ps, *ty) {
            Err(e) => Err(e),
            Ok(t) => match lower_const_model(tb, ps, len) {
                Err(e) => Err(e),
                Ok(c) => Ok(node(Head::Apply(TypeName::Array), seq![t, c])),
            },
        },
        Ty::Slice { ty } => match lower_ty_model(tb, ps, *ty) {
            Err(e) => Err(e),
            Ok(t) => Ok(node(Head::Apply(TypeName::Slice), seq![t])),
        },
        Ty::Raw { mutability, ty } => match lower_ty_model(tb, ps, *ty) {
            Err(e) => Err(e),
            Ok(t) => Ok(node(Head::Apply(TypeName::Raw(mutability)), seq![t])),
        },
        Ty::Ref { mutability, lifetime, ty } => match lower_lifetime_model(tb, ps, lifetime) {
            Err(e) => Err(e),
            Ok(l) => match lower_ty_model(tb, ps, *ty) {
                Err(e) => Err(e),
                Ok(t) => Ok(node(Head::Apply(TypeName::Ref(mutability)), seq![l, t])),
            },
        },
        Ty::Str => Ok(SpecTerm::atom(Head::Apply(TypeName::Str))),
        Ty::Never => Ok(SpecTerm::atom(Head::Apply(TypeName::Never))),
    }
}

/// The lifetimes that a function pointer type declares.
pub open spec fn lifetimes(names: Seq<Identifier>) -> Seq<SpecWithKind> {
    Seq::new(names.len(), |i: int| SpecWithKind { kind: VariableKind::Lifetime, name: names[i].text() })
}

/// The first `n` types of a list.
pub open spec fn lower_tys_model(tb: Tables, ps: Seq<SpecParameter>, tys: Seq<Ty>, n: nat) -> LowerResult<
    Seq<SpecTerm>,
>
    decreases tys, n,
{
    if n == 0 || n > tys.len() {
        Ok(Seq::empty())
    } else {
        match lower_tys_model(tb, ps, tys, (n - 1) as nat) {
            Err(e) => Err(e),
            Ok(ts) => match lower_ty_model(tb, ps, tys[n - 1]) {
                Err(e) => Err(e),
                Ok(t) => Ok(ts.push(t)),
            },
        }
    }
}

/// The lifetime that syntax stands for.
pub open spec fn lower_lifetime_model(tb: Tables, ps: Seq<SpecParameter>, l: Lifetime) -> LowerResult<SpecTerm> {
    match l {
        Lifetime::Id { name } => match tb.generic_arg_at(ps, name) {
            Err(e) => Err(e),
            Ok(t) => if sort_of(t.head) == Some(Kind::Lifetime) {
                Ok(t)
            } else {
                Err(
                    RustIrError::IncorrectParameterKind {
                        identifier: name,
                        expected: Kind::Lifetime,
                        actual: kind_of(t.head),
                    },
                )
            },
        },
    }
}

/// The constant that syntax stands for.
pub open spec fn lower_const_model(tb: Tables, ps: Seq<SpecParameter>, c: Const) -> LowerResult<SpecTerm> {
    match c {
        Const::Id(name) => match tb.generic_arg_at(ps, name) {
            Err(e) => Err(e),
            Ok(t) => if sort_of(t.head) == Some(Kind::Const) {
                Ok(t)
            } else {
                Err(
                    RustIrError::IncorrectParameterKind {
                        identifier: name,
                        expected: Kind::Const,
                        actual: kind_of(t.head),
                    },
                )
            },
        },
        Const::Value(value) => Ok(SpecTerm::atom(Head::ConstValue(value))),
    }
}

/// The generic argument that syntax stands for.
pub open spec fn lower_arg_model(tb: Tables, ps: Seq<SpecParameter>, arg: GenericArg) -> LowerResult<SpecTerm>
    decreases arg, 0nat,
{
    match arg {
        GenericArg::Ty(t) => lower_ty_model(tb, ps, t),
        GenericArg::Lifetime(l) => lower_lifetime_model(tb, ps, l),
        GenericArg::Id(name) => tb.generic_arg_at(ps, name),
        GenericArg::Const(c) => lower_const_model(tb, ps, c),
    }
}

/// The first `n` generic arguments of a list.
pub open spec fn lower_args_model(tb: Tables, ps: Seq<SpecParameter>, args: Seq<GenericArg>, n: nat) -> LowerResult<
    Seq<SpecTerm>,
>
    decreases args, n,
{
    if n == 0 || n > args.len() {
        Ok(Seq::empty())
    } else {
        match lower_args_model(tb, ps, args, (n - 1) as nat) {
            Err(e) => Err(e),
            Ok(ts) => match lower_arg_model(tb, ps, args[n - 1]) {
                Err(e) => Err(e),
                Ok(t) => Ok(ts.push(t)),
            },
        }
    }
}

/// The bound on a trait that syntax stands for.
pub open spec fn lower_trait_bound_model(tb: Tables, ps: Seq<SpecParameter>, b: TraitBound) -> LowerResult<
    SpecTerm,
>
    decreases b, 0nat,
{
    match tb.trait_at(ps, b.trait_name) {
        Err(e) => Err(e),
        Ok(id) => {
            let k = kind_of_id(tb.trait_kinds, id);
            if k.sort != TypeSort::Trait {
                Err(RustIrError::NotTrait(b.trait_name))
            } else {
                match lower_args_model(tb, ps, b.args_no_self@, b.args_no_self@.len()) {
                    Err(e) => Err(e),
                    Ok(ts) => if ts.len() != k.binders@.len() {
                        Err(
                            RustIrError::IncorrectNumberOfTypeParameters {
                                identifier: b.trait_name,
                                expected: k.binders@.len() as usize,
                                actual: ts.len() as usize,
                            },
                        )
                    } else {
                        match kind_mismatch(k.binders@, ts, ts.len()) {
                            Some(i) => Err(
                                RustIrError::IncorrectTraitParameterKind {
                                    identifier: b.trait_name,
                                    expected: k.binders@[i].sort(),
                                    actual: kind_of(ts[i].head),
                                },
                            ),
                            None => Ok(node(Head::TraitBound(id.index), ts)),
                        }
                    },
                }
            }
        },
    }
}

/// The trait reference that syntax stands for: the trait with the self
/// type before its arguments. The arguments are lowered before the self type.
pub open spec fn lower_trait_ref_model(tb: Tables, ps: Seq<SpecParameter>, tr: TraitRef) -> LowerResult<SpecTerm>
    decreases tr, 0nat,
{
    match tb.trait_at(ps, tr.trait_name) {
        Err(e) => Err(e),
        Ok(id) => {
            let k = kind_of_id(tb.trait_kinds, id);
            if k.sort != TypeSort::Trait {
                Err(RustIrError::NotTrait(tr.trait_name))
            } else {
                match lower_args_model(tb, ps, tr.args@, tr.args@.len()) {
                    Err(e) => Err(e),
                    Ok(ts) => if ts.len() != k.binders@.len() {
                        Err(
                            RustIrError::IncorrectNumberOfTypeParameters {
                                identifier: tr.trait_name,
                                expected: k.binders@.len() as usize,
                                actual: ts.len() as usize,
                            },
                        )
                    } else {
                        match kind_mismatch(k.binders@, ts, ts.len()) {
                            Some(i) => Err(
                                RustIrError::IncorrectTraitParameterKind {
                                    identifier: tr.trait_name,
                                    expected: k.binders@[i].sort(),
                                    actual: kind_of(ts[i].head),
                                },
                            ),
                            None => match lower_ty_model(tb, ps, *tr.self_ty) {
                                Err(e) => Err(e),
                                Ok(this) => Ok(node(Head::TraitRef(id.index), seq![this] + ts)),
                            },
                        }
                    },
                }
            }
        },
    }
}

/// The arguments of an associated type, checked against its declaration.
pub open spec fn associated_args_model(
    tb: Tables,
    ps: Seq<SpecParameter>,
    lookup: AssociatedTyLookup,
    name: Identifier,
    args: Seq<GenericArg>,
) -> LowerResult<Seq<SpecTerm>>
    decreases args, args.len() + 1,
{
    match lower_args_model(tb, ps, args, args.len()) {
        Err(e) => Err(e),
        Ok(ts) => if ts.len() != lookup.addl_variable_kinds@.len() {
            Err(
                RustIrError::IncorrectNumberOfAssociatedTypeParameters {
                    identifier: name,
                    expected: lookup.addl_variable_kinds@.len() as usize,
                    actual: ts.len() as usize,
                },
            )
        } else {
            match kind_mismatch(lookup.addl_variable_kinds@, ts, ts.len()) {
                Some(i) => Err(
                    RustIrError::IncorrectAssociatedTypeParameterKind {
                        identifier: name,
                        expected: lookup.addl_variable_kinds@[i].sort(),
                        actual: kind_of(ts[i].head),
                    },
                ),
                None => Ok(ts),
            }
        },
    }
}

/// The projection that syntax stands for: the associated type applied to
/// its own arguments followed by those of the trait reference.
pub open spec fn lower_projection_model(tb: Tables, ps: Seq<SpecParameter>, p: ProjectionTy) -> LowerResult<
    SpecTerm,
>
    decreases p, 0nat,
{
    match lower_trait_ref_model(tb, ps, p.trait_ref) {
        Err(e) => Err(e),
        Ok(tr) => {
            let trait_id = RawId { index: trait_of(tr) };
            match associated_index(tb.associated_ty_lookups, trait_id, p.name.text()) {
                None => Err(RustIrError::MissingAssociatedType(p.name)),
                Some(i) => {
                    let lookup = tb.associated_ty_lookups[i].2;
                    match associated_args_model(tb, ps, lookup, p.name, p.args@) {
                        Err(e) => Err(e),
                        Ok(ts) => Ok(node(Head::Projection(lookup.id.index), ts + tr.args)),
                    }
                },
            }
        },
    }
}

/// The number of the trait of a lowered trait reference or trait bound.
pub open spec fn trait_of(t: SpecTerm) -> u32 {
    match t.head {
        Head::TraitRef(id) => id,
        Head::TraitBound(id) => id,
        _ => 0,
    }
}

/// The bound on an associated type that syntax stands for.
pub open spec fn lower_alias_eq_bound_model(tb: Tables, ps: Seq<SpecParameter>, b: AliasEqBound) -> LowerResult<
    SpecTerm,
>
    decreases b, 0nat,
{
    match lower_trait_bound_model(tb, ps, b.trait_bound) {
        Err(e) => Err(e),
        Ok(on_trait) => {
            let trait_id = RawId { index: trait_of(on_trait) };
            match associated_index(tb.associated_ty_lookups, trait_id, b.name.text()) {
                None => Err(RustIrError::MissingAssociatedType(b.name)),
                Some(i) => {
                    let lookup = tb.associated_ty_lookups[i].2;
                    match associated_args_model(tb, ps, lookup, b.name, b.args@) {
                        Err(e) => Err(e),
                        Ok(ts) => match lower_ty_model(tb, ps, b.value) {
                            Err(e) => Err(e),
                            Ok(value) => Ok(
                                node(Head::AliasEqBound(lookup.id.index), seq![on_trait, list(ts), value]),
                            ),
                        },
                    }
                },
            }
        },
    }
}

/// The bound that syntax stands for.
pub open spec fn lower_inline_bound_model(tb: Tables, ps: Seq<SpecParameter>, b: InlineBound) -> LowerResult<
    SpecTerm,
>
    decreases b, 0nat,
{
    match b {
        InlineBound::TraitBound(on_trait) => lower_trait_bound_model(tb, ps, on_trait),
        InlineBound::AliasEqBound(on_alias) => lower_alias_eq_bound_model(tb, ps, on_alias),
    }
}

/// The bound under its binder that syntax stands for.
pub open spec fn lower_quantified_bound_model(
    tb: Tables,
    ps: Seq<SpecParameter>,
    b: QuantifiedInlineBound,
) -> LowerResult<SpecTerm>
    decreases b, 0nat,
{
    if shadows(ps, declared(b.variable_kinds@)) {
        Err(RustIrError::DuplicateOrShadowedParameters)
    } else {
        match lower_inline_bound_model(tb, introduced(ps, declared(b.variable_kinds@)), b.bound) {
            Err(e) => Err(e),
            Ok(t) => Ok(quantified(kinds_of(declared(b.variable_kinds@)), t)),
        }
    }
}

/// The bounds at the first `n` of the given positions.
pub open spec fn lower_bounds_at(
    tb: Tables,
    ps: Seq<SpecParameter>,
    bounds: Seq<QuantifiedInlineBound>,
    order: Seq<int>,
    n: nat,
) -> LowerResult<Seq<SpecTerm>>
    decreases bounds, n,
{
    if n == 0 || n > order.len() {
        Ok(Seq::empty())
    } else {
        match lower_bounds_at(tb, ps, bounds, order, (n - 1) as nat) {
            Err(e) => Err(e),
            Ok(ts) => if 0 <= order[n - 1] < bounds.len() {
                match lower_quantified_bound_model(tb, ps, bounds[order[n - 1]]) {
                    Err(e) => Err(e),
                    Ok(t) => Ok(ts.push(t)),
                }
            } else {
                Ok(ts)
            },
        }
    }
}

/// The positions of an order of bounds, the bounds on auto traits last.
pub open spec fn positions(order: (Seq<int>, Seq<(int, RawId)>)) -> Seq<int> {
    order.0 + Seq::new(order.1.len(), |i: int| order.1[i].0)
}

/// The list of bounds that syntax stands for, in the order in which bounds
/// are lowered.
pub open spec fn lower_bounds_model(tb: Tables, ps: Seq<SpecParameter>, bounds: Vec<QuantifiedInlineBound>) -> LowerResult<
    Seq<SpecTerm>,
>
    decreases bounds, 0nat,
{
    match bound_order(tb, ps, bounds@, bounds@.len()) {
        Err(e) => Err(e),
        Ok(order) => lower_bounds_at(tb, ps, bounds@, positions(order), positions(order).len()),
    }
}

/// Whether a result is the term that the model gives, or its error.
pub open spec fn lowered(r: LowerResult<Term>, m: LowerResult<SpecTerm>) -> bool {
    match m {
        Ok(t) => r is Ok && r->Ok_0@ == t,
        Err(e) => r == Err::<Term, RustIrError>(e),
    }
}

/// Whether a result is the list of terms that the model gives, or its error.
pub open spec fn lowered_list(r: LowerResult<Vec<Term>>, m: LowerResult<Seq<SpecTerm>>) -> bool {
    match m {
        Ok(ts) => r is Ok && views(r->Ok_0@) == ts,
        Err(e) => r == Err::<Vec<Term>, RustIrError>(e),
    }
}

/// A declared parameter as a kind and a name.
pub fn lower_variable_kind(vk: &crate::ast::VariableKind) -> (r: WithKind)
    ensures
        r@ == declaration(*vk),
{
    match vk {
        crate::ast::VariableKind::Ty(n) => WithKind { kind: VariableKind::Ty, name: n.str.clone() },
        crate::ast::VariableKind::IntegerTy(n) => WithKind { kind: VariableKind::IntegerTy, name: n.str.clone() },
        crate::ast::VariableKind::FloatTy(n) => WithKind { kind: VariableKind::FloatTy, name: n.str.clone() },
        crate::ast::VariableKind::Lifetime(n) => WithKind { kind: VariableKind::Lifetime, name: n.str.clone() },
        crate::ast::VariableKind::Const(n) => WithKind { kind: VariableKind::Const, name: n.str.clone() },
    }
}

/// Declared parameters as kinds and names.
pub fn lower_variable_kinds(vks: &Vec<crate::ast::VariableKind>) -> (r: Vec<WithKind>)
    ensures
        declarations(r@) == declared(vks@),
{
    let mut r: Vec<WithKind> = Vec::new();
    let mut i: usize = 0;
    while i < vks.len()
        invariant
            0 <= i <= vks.len(),
            r.len() == i,
            forall|j: int| 0 <= j < i ==> (#[trigger] r@[j])@ == declaration(vks@[j]),
        decreases vks.len() - i,
    {
        r.push(lower_variable_kind(&vks[i]));
        i += 1;
    }
    proof {
        assert(declarations(r@) =~= declared(vks@));
    }
    r
}

/// The calling convention that a string names.
pub fn lower_abi(abi: &FnAbi) -> (r: LowerResult<crate::symbol::FnAbi>)
    ensures
        r == abi_model(*abi),
{
    let rust = String::from_str("Rust");
    let c = String::from_str("C");
    if abi.0 == rust {
        Ok(crate::symbol::FnAbi::Rust)
    } else if abi.0 == c {
        Ok(crate::symbol::FnAbi::C)
    } else {
        Err(RustIrError::InvalidExternAbi(abi.0.clone()))
    }
}

/// The kinds of the variables of a binder, as a term.
pub fn kinds_to_term(kinds: &Vec<VariableKind>) -> (r: Term)
    ensures
        r@ == kinds_term(kinds@),
{
    let mut args: Vec<Term> = Vec::new();
    let mut i: usize = 0;
    while i < kinds.len()
        invariant
            0 <= i <= kinds.len(),
            args.len() == i,
            forall|j: int| 0 <= j < i ==> (#[trigger] args@[j])@ == SpecTerm::atom(Head::BinderKind(kinds@[j])),
        decreases kinds.len() - i,
    {
        args.push(Term::atom(Head::BinderKind(kinds[i])));
        i += 1;
    }
    let r = Term::new(Head::Binders, args);
    proof {
        assert(r@.args =~= kinds_term(kinds@).args);
    }
    r
}

/// A term with two sub-terms.
pub fn node2(head: Head, a: Term, b: Term) -> (r: Term)
    ensures
        r@ == node(head, seq![a@, b@]),
{
    crate::unify::binary(head, a, b)
}

/// A term with one sub-term.
pub fn node1(head: Head, a: Term) -> (r: Term)
    ensures
        r@ == node(head, seq![a@]),
{
    let mut args: Vec<Term> = Vec::new();
    args.push(a);
    let r = Term::new(head, args);
    proof {
        assert(r@.args =~= seq![a@]);
    }
    r
}

/// A value under a binder, as a term.
pub fn quantify(kinds: &Vec<VariableKind>, value: Term) -> (r: Term)
    ensures
        r@ == quantified(kinds@, value@),
{
    node2(Head::Quantified, kinds_to_term(kinds), value)
}

/// The terms `first` followed by copies of `rest`.
pub fn prepend(first: Term, rest: &Vec<Term>) -> (r: Vec<Term>)
    ensures
        views(r@) == seq![first@] + views(rest@),
{
    let mut r: Vec<Term> = Vec::new();
    r.push(first);
    proof {
        assert(views(r@) =~= seq![first@]);
    }
    append_terms(&mut r, clone_terms(rest));
    r
}

/// The where clauses that a bound under a binder makes of a self type.
pub fn into_where_clauses(bound: &Term, self_ty: &Term) -> (r: Vec<Term>)
    ensures
        views(r@) == where_clauses_of(bound@, self_ty@),
{
    let mut r: Vec<Term> = Vec::new();
    proof {
        lemma_view_args(*bound);
        assert(views(r@) =~= Seq::empty());
    }
    match bound.head {
        Head::Quantified => {},
        _ => {
            return r;
        },
    }
    if bound.args.len() != 2 {
        return r;
    }
    let kinds = &bound.args[0];
    let inner = &bound.args[1];
    proof {
        lemma_view_args(*inner);
    }
    let this = shifted_in(self_ty, 1);
    match inner.head {
        Head::TraitBound(id) => {
            let fact = Term::new(Head::Fact(Predicate::Implemented(id)), prepend(this, &inner.args));
            let q = node2(Head::Quantified, clone_term(kinds), fact);
            r.push(q);
            proof {
                assert(views(r@) =~= where_clauses_of(bound@, self_ty@));
            }
            r
        },
        Head::AliasEqBound(assoc) => {
            if inner.args.len() != 3 {
                return r;
            }
            let tb = &inner.args[0];
            proof {
                lemma_view_args(*tb);
                lemma_view_args(inner.args@[1]);
            }
            match tb.head {
                Head::TraitBound(id) => {
                    let fact = Term::new(
                        Head::Fact(Predicate::Implemented(id)),
                        prepend(clone_term(&this), &tb.args),
                    );
                    let q1 = node2(Head::Quantified, clone_term(kinds), fact);
                    let mut args = clone_terms(&inner.args[1].args);
                    append_terms(&mut args, prepend(this, &tb.args));
                    let projection = Term::new(Head::Projection(assoc), args);
                    let eq = node2(Head::Fact(Predicate::AliasEq), projection, clone_term(&inner.args[2]));
                    let q2 = node2(Head::Quantified, clone_term(kinds), eq);
                    r.push(q1);
                    r.push(q2);
                    proof {
                        assert(views(r@) =~= where_clauses_of(bound@, self_ty@));
                    }
                    r
                },
                _ => r,
            }
        },
        _ => r,
    }
}

/// The where clauses that bounds make of a self type.
pub fn into_all_where_clauses(bounds: &Vec<Term>, self_ty: &Term) -> (r: Vec<Term>)
    ensures
        views(r@) == all_where_clauses(views(bounds@), self_ty@, bounds@.len()),
{
    let mut r: Vec<Term> = Vec::new();
    proof {
        assert(views(r@) =~= Seq::empty());
    }
    let mut i: usize = 0;
    while i < bounds.len()
        invariant
            0 <= i <= bounds.len(),
            views(r@) == all_where_clauses(views(bounds@), self_ty@, i as nat),
        decreases bounds.len() - i,
    {
        append_terms(&mut r, into_where_clauses(&bounds[i], self_ty));
        i += 1;
    }
    r
}

/// The first position at which the kinds of parameters and arguments differ.
pub fn find_kind_mismatch(kinds: &Vec<VariableKind>, args: &Vec<Term>) -> (r: Option<usize>)
    requires
        kinds.len() == args.len(),
    ensures
        match r {
            Some(i) => kind_mismatch(kinds@, views(args@), args@.len()) == Some(i as int) && i < args.len(),
            None => kind_mismatch(kinds@, views(args@), args@.len()) is None,
        },
{
    let mut i: usize = 0;
    while i < args.len()
        invariant
            0 <= i <= args.len(),
            kinds.len() == args.len(),
            kind_mismatch(kinds@, views(args@), i as nat) is None,
        decreases args.len() - i,
    {
        proof {
            lemma_view_args(args@[i as int]);
        }
        if !(kinds[i].kind() == head_kind(&args[i].head)) {
            proof {
                assert(kind_mismatch(kinds@, views(args@), (i + 1) as nat) == Some(i as int));
                lemma_mismatch_stable(kinds@, views(args@), (i + 1) as nat, args@.len());
            }
            return Some(i);
        }
        i += 1;
    }
    None
}

/// The first mismatch of kinds among the first arguments is the first among more.
proof fn lemma_mismatch_stable(kinds: Seq<VariableKind>, args: Seq<SpecTerm>, n: nat, m: nat)
    requires
        n <= m <= args.len(),
        m <= kinds.len(),
        kind_mismatch(kinds, args, n) is Some,
    ensures
        kind_mismatch(kinds, args, m) == kind_mismatch(kinds, args, n),
    decreases m,
{
    if m > n {
        lemma_mismatch_stable(kinds, args, n, (m - 1) as nat);
    }
}

/// The type that syntax stands for.
pub fn lower_ty(env: &Env, ty: &Ty) -> (r: LowerResult<Term>)
    requires
        env.wf(),
    ensures
        lowered(r, lower_ty_model(env.tables(), parameters(env.parameter_map@), *ty)),
    decreases ty, 0nat,
{
    let ghost ps = parameters(env.parameter_map@);
    match ty {
        Ty::Id { name } => {
            let t = env.lookup_generic_arg(name)?;
            proof {
                lemma_view_args(t);
            }
            if head_has_sort(&t.head, Kind::Ty) {
                Ok(t)
            } else {
                Err(
                    RustIrError::IncorrectParameterKind {
                        identifier: name.clone_identifier(),
                        expected: Kind::Ty,
                        actual: head_kind(&t.head),
                    },
                )
            }
        },
        Ty::Dyn { bounds, lifetime } => {
            let mut this: Vec<WithKind> = Vec::new();
            this.push(WithKind { kind: VariableKind::Ty, name: String::from_str("__FIXME_SELF__") });
            proof {
                assert(declarations(this@) =~= seq![anonymous_self()]);
            }
            let inner = env.introduce(&this)?;
            let bs = lower_bounds(&inner, bounds)?;
            let l = lower_lifetime(env, lifetime)?;
            let me = Term::atom(Head::BoundVar { kind: Kind::Ty, depth: 0, index: 0 });
            let wcs = into_all_where_clauses(&bs, &me);
            let mut kinds: Vec<VariableKind> = Vec::new();
            kinds.push(VariableKind::Ty);
            proof {
                assert(kinds@ =~= seq![VariableKind::Ty]);
            }
            Ok(node2(Head::Dyn, quantify(&kinds, list_term(wcs)), l))
        },
        Ty::Apply { name, args } => {
            proof {
                lemma_lookup_is_entry(env.adt_ids@, name.text(), env.adt_ids@.len());
                lemma_lookup_is_entry(env.fn_def_ids@, name.text(), env.fn_def_ids@.len());
                lemma_lookup_is_entry(env.closure_ids@, name.text(), env.closure_ids@.len());
                lemma_lookup_is_entry(env.opaque_ty_ids@, name.text(), env.opaque_ty_ids@.len());
            }
            let (constructor, k) = match env.lookup_apply_type(name)? {
                ApplyTypeLookup::Parameter(_, _) => {
                    return Err(RustIrError::CannotApplyTypeParameter(name.clone_identifier()));
                },
                ApplyTypeLookup::Adt(id) => (TypeName::Adt(id.index), env.adt_kind(id)),
                ApplyTypeLookup::FnDef(id) => (TypeName::FnDef(id.index), env.fn_def_kind(id)),
                ApplyTypeLookup::Closure(id) => (TypeName::Closure(id.index), env.closure_kind(id)),
                ApplyTypeLookup::Opaque(id) => (TypeName::OpaqueType(id.index), env.opaque_kind(id)),
            };
            if k.binders.len() != args.len() {
                return Err(
                    RustIrError::IncorrectNumberOfTypeParameters {
                        identifier: name.clone_identifier(),
                        expected: k.binders.len(),
                        actual: args.len(),
                    },
                );
            }
            let ts = lower_args(env, args)?;
            match find_kind_mismatch(&k.binders, &ts) {
                Some(i) => {
                    proof {
                        lemma_view_args(ts@[i as int]);
                    }
                    Err(
                        RustIrError::IncorrectParameterKind {
                            identifier: name.clone_identifier(),
                            expected: k.binders[i].kind(),
                            actual: head_kind(&ts[i].head),
                        },
                    )
                },
                None => Ok(Term::new(Head::Apply(constructor), ts)),
            }
        },
        Ty::Projection { proj } => {
            let p = lower_projection(env, proj)?;
            Ok(node1(Head::Alias, p))
        },
        Ty::ForAll { lifetime_names, types, sig } => {
            let mut declared: Vec<WithKind> = Vec::new();
            let mut i: usize = 0;
            while i < lifetime_names.len()
                invariant
                    0 <= i <= lifetime_names.len(),
                    declared.len() == i,
                    forall|j: int|
                        0 <= j < i ==> (#[trigger] declared@[j])@ == (SpecWithKind {
                            kind: VariableKind::Lifetime,
                            name: lifetime_names@[j].text(),
                        }),
                decreases lifetime_names.len() - i,
            {
                declared.push(WithKind { kind: VariableKind::Lifetime, name: lifetime_names[i].str.clone() });
                i += 1;
            }
            proof {
                assert(declarations(declared@) =~= lifetimes(lifetime_names@));
            }
            let inner = env.introduce(&declared)?;
            let ts = lower_tys(&inner, types)?;
            let abi = lower_abi(&sig.abi)?;
            Ok(
                Term::new(
                    Head::Function {
                        binders: lifetime_names.len(),
                        safety: sig.safety,
                        abi,
                        variadic: sig.variadic,
                    },
                    ts,
                ),
            )
        },
        Ty::Tuple { types } => {
            let ts = lower_tys(env, types)?;
            Ok(Term::new(Head::Apply(TypeName::Tuple(types.len())), ts))
        },
        Ty::Scalar { ty } => Ok(Term::atom(Head::Apply(TypeName::Scalar(*ty)))),
        Ty::Array { ty, len } => {
            let t = lower_ty(env, ty)?;
            let c = lower_const(env, len)?;
            Ok(node2(Head::Apply(TypeName::Array), t, c))
        },
        Ty::Slice { ty } => {
            let t = lower_ty(env, ty)?;
            Ok(node1(Head::Apply(TypeName::Slice), t))
        },
        Ty::Raw { mutability, ty } => {
            let t = lower_ty(env, ty)?;
            Ok(node1(Head::Apply(TypeName::Raw(*mutability)), t))
        },
        Ty::Ref { mutability, lifetime, ty } => {
            let l = lower_lifetime(env, lifetime)?;
            let t = lower_ty(env, ty)?;
            Ok(node2(Head::Apply(TypeName::Ref(*mutability)), l, t))
        },
        Ty::Str => Ok(Term::atom(Head::Apply(TypeName::Str))),
        Ty::Never => Ok(Term::atom(Head::Apply(TypeName::Never))),
    }
}

/// The types of a list.
pub fn lower_tys(env: &Env, tys: &Vec<Ty>) -> (r: LowerResult<Vec<Term>>)
    requires
        env.wf(),
    ensures
        lowered_list(r, lower_tys_model(env.tables(), parameters(env.parameter_map@), tys@, tys@.len())),
    decreases tys, 0nat,
{
    let mut ts: Vec<Term> = Vec::new();
    proof {
        assert(views(ts@) =~= Seq::empty());
    }
    let mut i: usize = 0;
    while i < tys.len()
        invariant
            0 <= i <= tys.len(),
            env.wf(),
            lower_tys_model(env.tables(), parameters(env.parameter_map@), tys@, i as nat) == Ok::<
                Seq<SpecTerm>,
                RustIrError,
            >(views(ts@)),
        decreases tys.len() - i,
    {
        let ghost before = views(ts@);
        match lower_ty(env, &tys[i]) {
            Err(e) => {
                proof {
                    lemma_tys_error(env.tables(), parameters(env.parameter_map@), tys@, (i + 1) as nat, tys@.len());
                }
                return Err(e);
            },
            Ok(t) => {
                ts.push(t);
                proof {
                    assert(views(ts@) =~= before.push(t@));
                }
            },
        }
        i += 1;
    }
    Ok(ts)
}

/// An error among the first types is the error of the whole list.
proof fn lemma_tys_error(tb: Tables, ps: Seq<SpecParameter>, tys: Seq<Ty>, n: nat, m: nat)
    requires
        n <= m <= tys.len(),
        lower_tys_model(tb, ps, tys, n) is Err,
    ensures
        lower_tys_model(tb, ps, tys, m) == lower_tys_model(tb, ps, tys, n),
    decreases m,
{
    if m > n {
        lemma_tys_error(tb, ps, tys, n, (m - 1) as nat);
    }
}

/// An error among the first generic arguments is the error of the whole list.
proof fn lemma_args_error(tb: Tables, ps: Seq<SpecParameter>, args: Seq<GenericArg>, n: nat, m: nat)
    requires
        n <= m <= args.len(),
        lower_args_model(tb, ps, args, n) is Err,
    ensures
        lower_args_model(tb, ps, args, m) == lower_args_model(tb, ps, args, n),
    decreases m,
{
    if m > n {
        lemma_args_error(tb, ps, args, n, (m - 1) as nat);
    }
}

/// The lifetime that syntax stands for.
pub fn lower_lifetime(env: &Env, l: &Lifetime) -> (r: LowerResult<Term>)
    requires
        env.wf(),
    ensures
        lowered(r, lower_lifetime_model(env.tables(), parameters(env.parameter_map@), *l)),
{
    match l {
        Lifetime::Id { name } => {
            let t = env.lookup_generic_arg(name)?;
            proof {
                lemma_view_args(t);
            }
            if head_has_sort(&t.head, Kind::Lifetime) {
                Ok(t)
            } else {
                Err(
                    RustIrError::IncorrectParameterKind {
                        identifier: name.clone_identifier(),
                        expected: Kind::Lifetime,
                        actual: head_kind(&t.head),
                    },
                )
            }
        },
    }
}

/// The constant that syntax stands for.
pub fn lower_const(env: &Env, c: &Const) -> (r: LowerResult<Term>)
    requires
        env.wf(),
    ensures
        lowered(r, lower_const_model(env.tables(), parameters(env.parameter_map@), *c)),
{
    match c {
        Const::Id(name) => {
            let t = env.lookup_generic_arg(name)?;
            proof {
                lemma_view_args(t);
            }
            if head_has_sort(&t.head, Kind::Const) {
                Ok(t)
            } else {
                Err(
                    RustIrError::IncorrectParameterKind {
                        identifier: name.clone_identifier(),
                        expected: Kind::Const,
                        actual: head_kind(&t.head),
                    },
                )
            }
        },
        Const::Value(value) => Ok(Term::atom(Head::ConstValue(*value))),
    }
}

/// The generic argument that syntax stands for.
pub fn lower_generic_arg(env: &Env, arg: &GenericArg) -> (r: LowerResult<Term>)
    requires
        env.wf(),
    ensures
        lowered(r, lower_arg_model(env.tables(), parameters(env.parameter_map@), *arg)),
    decreases arg, 0nat,
{
    match arg {
        GenericArg::Ty(t) => lower_ty(env, t),
        GenericArg::Lifetime(l) => lower_lifetime(env, l),
        GenericArg::Id(name) => env.lookup_generic_arg(name),
        GenericArg::Const(c) => lower_const(env, c),
    }
}

/// The generic arguments of a list.
pub fn lower_args(env: &Env, args: &Vec<GenericArg>) -> (r: LowerResult<Vec<Term>>)
    requires
        env.wf(),
    ensures
        lowered_list(r, lower_args_model(env.tables(), parameters(env.parameter_map@), args@, args@.len())),
        r is Ok ==> r->Ok_0.len() == args.len(),
    decreases args, 0nat,
{
    let mut ts: Vec<Term> = Vec::new();
    proof {
        assert(views(ts@) =~= Seq::empty());
    }
    let mut i: usize = 0;
    while i < args.len()
        invariant
            0 <= i <= args.len(),
            env.wf(),
            ts.len() == i,
            lower_args_model(env.tables(), parameters(env.parameter_map@), args@, i as nat) == Ok::<
                Seq<SpecTerm>,
                RustIrError,
            >(views(ts@)),
        decreases args.len() - i,
    {
        let ghost before = views(ts@);
        match lower_generic_arg(env, &args[i]) {
            Err(e) => {
                proof {
                    lemma_args_error(env.tables(), parameters(env.parameter_map@), args@, (i + 1) as nat, args@.len());
                }
                return Err(e);
            },
            Ok(t) => {
                ts.push(t);
                proof {
                    assert(views(ts@) =~= before.push(t@));
                }
            },
        }
        i += 1;
    }
    Ok(ts)
}

/// The bound on a trait that syntax stands for.
pub fn lower_trait_bound(env: &Env, b: &TraitBound) -> (r: LowerResult<Term>)
    requires
        env.wf(),
    ensures
        lowered(r, lower_trait_bound_model(env.tables(), parameters(env.parameter_map@), *b)),
    decreases b, 0nat,
{
    proof {
        lemma_lookup_is_entry(env.trait_ids@, b.trait_name.text(), env.trait_ids@.len());
    }
    let id = env.lookup_trait(&b.trait_name)?;
    let k = env.trait_kind(id);
    if !(k.sort == TypeSort::Trait) {
        return Err(RustIrError::NotTrait(b.trait_name.clone_identifier()));
    }
    let ts = lower_args(env, &b.args_no_self)?;
    if ts.len() != k.binders.len() {
        return Err(
            RustIrError::IncorrectNumberOfTypeParameters {
                identifier: b.trait_name.clone_identifier(),
                expected: k.binders.len(),
                actual: ts.len(),
            },
        );
    }
    match find_kind_mismatch(&k.binders, &ts) {
        Some(i) => {
            proof {
                lemma_view_args(ts@[i as int]);
            }
            Err(
                RustIrError::IncorrectTraitParameterKind {
                    identifier: b.trait_name.clone_identifier(),
                    expected: k.binders[i].kind(),
                    actual: head_kind(&ts[i].head),
                },
            )
        },
        None => Ok(Term::new(Head::TraitBound(id.index), ts)),
    }
}

/// The trait reference that syntax stands for.
pub fn lower_trait_ref(env: &Env, tr: &TraitRef) -> (r: LowerResult<Term>)
    requires
        env.wf(),
    ensures
        lowered(r, lower_trait_ref_model(env.tables(), parameters(env.parameter_map@), *tr)),
    decreases tr, 0nat,
{
    proof {
        lemma_lookup_is_entry(env.trait_ids@, tr.trait_name.text(), env.trait_ids@.len());
    }
    let id = env.lookup_trait(&tr.trait_name)?;
    let k = env.trait_kind(id);
    if !(k.sort == TypeSort::Trait) {
        return Err(RustIrError::NotTrait(tr.trait_name.clone_identifier()));
    }
    let ts = lower_args(env, &tr.args)?;
    if ts.len() != k.binders.len() {
        return Err(
            RustIrError::IncorrectNumberOfTypeParameters {
                identifier: tr.trait_name.clone_identifier(),
                expected: k.binders.len(),
                actual: ts.len(),
            },
        );
    }
    match find_kind_mismatch(&k.binders, &ts) {
        Some(i) => {
            proof {
                lemma_view_args(ts@[i as int]);
            }
            Err(
                RustIrError::IncorrectTraitParameterKind {
                    identifier: tr.trait_name.clone_identifier(),
                    expected: k.binders[i].kind(),
                    actual: head_kind(&ts[i].head),
                },
            )
        },
        None => {
            let this = lower_ty(env, &tr.self_ty)?;
            Ok(Term::new(Head::TraitRef(id.index), prepend(this, &ts)))
        },
    }
}

/// The arguments of an associated type, checked against its declaration.
pub fn lower_associated_args(env: &Env, lookup: &AssociatedTyLookup, name: &Identifier, args: &Vec<GenericArg>) -> (r:
    LowerResult<Vec<Term>>)
    requires
        env.wf(),
    ensures
        lowered_list(r, associated_args_model(env.tables(), parameters(env.parameter_map@), *lookup, *name, args@)),
    decreases args, 1nat,
{
    let ts = lower_args(env, args)?;
    if ts.len() != lookup.addl_variable_kinds.len() {
        return Err(
            RustIrError::IncorrectNumberOfAssociatedTypeParameters {
                identifier: name.clone_identifier(),
                expected: lookup.addl_variable_kinds.len(),
                actual: ts.len(),
            },
        );
    }
    match find_kind_mismatch(&lookup.addl_variable_kinds, &ts) {
        Some(i) => {
            proof {
                lemma_view_args(ts@[i as int]);
            }
            Err(
                RustIrError::IncorrectAssociatedTypeParameterKind {
                    identifier: name.clone_identifier(),
                    expected: lookup.addl_variable_kinds[i].kind(),
                    actual: head_kind(&ts[i].head),
                },
            )
        },
        None => Ok(ts),
    }
}

/// The number of the trait of a lowered trait reference or trait bound.
pub fn trait_id_of(t: &Term) -> (r: RawId)
    ensures
        r.index == trait_of(t@),
{
    proof {
        lemma_view_args(*t);
    }
    match t.head {
        Head::TraitRef(id) => RawId { index: id },
        Head::TraitBound(id) => RawId { index: id },
        _ => RawId { index: 0 },
    }
}

/// The projection that syntax stands for.
pub fn lower_projection(env: &Env, p: &ProjectionTy) -> (r: LowerResult<Term>)
    requires
        env.wf(),
    ensures
        lowered(r, lower_projection_model(env.tables(), parameters(env.parameter_map@), *p)),
    decreases p, 0nat,
{
    let tr = lower_trait_ref(env, &p.trait_ref)?;
    proof {
        lemma_view_args(tr);
    }
    let lookup = env.lookup_associated_ty(trait_id_of(&tr), &p.name)?;
    let mut ts = lower_associated_args(env, lookup, &p.name, &p.args)?;
    append_terms(&mut ts, clone_terms(&tr.args));
    Ok(Term::new(Head::Projection(lookup.id.index), ts))
}

/// The bound on an associated type that syntax stands for.
pub fn lower_alias_eq_bound(env: &Env, b: &AliasEqBound) -> (r: LowerResult<Term>)
    requires
        env.wf(),
    ensures
        lowered(r, lower_alias_eq_bound_model(env.tables(), parameters(env.parameter_map@), *b)),
    decreases b, 0nat,
{
    let tb = lower_trait_bound(env, &b.trait_bound)?;
    let lookup = env.lookup_associated_ty(trait_id_of(&tb), &b.name)?;
    let ts = lower_associated_args(env, lookup, &b.name, &b.args)?;
    let value = lower_ty(env, &b.value)?;
    let mut args: Vec<Term> = Vec::new();
    args.push(tb);
    args.push(list_term(ts));
    args.push(value);
    let r = Term::new(Head::AliasEqBound(lookup.id.index), args);
    proof {
        assert(r@.args =~= seq![tb@, list(views(ts@)), value@]);
    }
    Ok(r)
}

/// The bound that syntax stands for.
pub fn lower_inline_bound(env: &Env, b: &InlineBound) -> (r: LowerResult<Term>)
    requires
        env.wf(),
    ensures
        lowered(r, lower_inline_bound_model(env.tables(), parameters(env.parameter_map@), *b)),
    decreases b, 0nat,
{
    match b {
        InlineBound::TraitBound(tb) => lower_trait_bound(env, tb),
        InlineBound::AliasEqBound(ab) => lower_alias_eq_bound(env, ab),
    }
}

/// The bound under its binder that syntax stands for.
pub fn lower_quantified_bound(env: &Env, b: &QuantifiedInlineBound) -> (r: LowerResult<Term>)
    requires
        env.wf(),
    ensures
        lowered(r, lower_quantified_bound_model(env.tables(), parameters(env.parameter_map@), *b)),
    decreases b, 0nat,
{
    let declared = lower_variable_kinds(&b.variable_kinds);
    let inner = env.introduce(&declared)?;
    let t = lower_inline_bound(&inner, &b.bound)?;
    Ok(quantify(&anonymize(&declared), t))
}

/// Positions as integers.
pub open spec fn ints(v: Seq<usize>) -> Seq<int> {
    Seq::new(v.len(), |i: int| v[i] as int)
}

/// Positions with the numbers of their traits.
pub open spec fn id_pairs(v: Seq<(usize, RawId)>) -> Seq<(int, RawId)> {
    Seq::new(v.len(), |i: int| (v[i].0 as int, v[i].1))
}

/// Puts a bound on an auto trait behind the bounds on traits of no larger number.
fn insert_sorted(auto: &mut Vec<(usize, RawId)>, x: (usize, RawId))
    ensures
        id_pairs(final(auto)@) == insert_by_id(id_pairs(old(auto)@), (x.0 as int, x.1), old(auto)@.len()),
        final(auto)@.len() == old(auto)@.len() + 1,
        forall|j: int|
            0 <= j < final(auto)@.len() ==> (#[trigger] final(auto)@[j]) == x || exists|k: int|
                0 <= k < old(auto)@.len() && old(auto)@[k] == final(auto)@[j],
{
    let ghost s = id_pairs(auto@);
    let ghost y = (x.0 as int, x.1);
    let mut n: usize = auto.len();
    while n > 0 && auto[n - 1].1.index > x.1.index
        invariant
            0 <= n <= auto.len(),
            auto@ == old(auto)@,
            s == id_pairs(auto@),
            y == (x.0 as int, x.1),
            insert_by_id(s, y, s.len()) == insert_by_id(s, y, n as nat),
        decreases n,
    {
        n -= 1;
    }
    auto.insert(n, x);
    proof {
        let target = insert_by_id(s, y, n as nat);
        if n == 0 {
            assert(id_pairs(auto@) =~= seq![y] + s);
        } else {
            assert(id_pairs(auto@) =~= s.subrange(0, n as int) + seq![y] + s.subrange(n as int, s.len() as int));
        }
        assert forall|j: int| 0 <= j < auto@.len() implies (#[trigger] auto@[j]) == x || exists|k: int|
            0 <= k < old(auto)@.len() && old(auto)@[k] == auto@[j] by {
            if j < n {
                assert(old(auto)@[j] == auto@[j]);
            } else if j > n {
                assert(old(auto)@[j - 1] == auto@[j]);
            }
        }
    }
}

/// The name of the trait of a bound.
pub fn trait_identifier(b: &InlineBound) -> (r: &Identifier)
    ensures
        *r == bound_trait(*b),
{
    match b {
        InlineBound::TraitBound(tb) => &tb.trait_name,
        InlineBound::AliasEqBound(ab) => &ab.trait_bound.trait_name,
    }
}

/// A trait that is not found among the first bounds is not found in the whole list.
proof fn lemma_order_error(
    tb: Tables,
    ps: Seq<SpecParameter>,
    bounds: Seq<QuantifiedInlineBound>,
    n: nat,
    m: nat,
)
    requires
        n <= m <= bounds.len(),
        bound_order(tb, ps, bounds, n) is Err,
    ensures
        bound_order(tb, ps, bounds, m) == bound_order(tb, ps, bounds, n),
    decreases m,
{
    if m > n {
        lemma_order_error(tb, ps, bounds, n, (m - 1) as nat);
    }
}

/// An error among the first bounds is the error of the whole list.
proof fn lemma_bounds_error(
    tb: Tables,
    ps: Seq<SpecParameter>,
    bounds: Seq<QuantifiedInlineBound>,
    order: Seq<int>,
    n: nat,
    m: nat,
)
    requires
        n <= m <= order.len(),
        lower_bounds_at(tb, ps, bounds, order, n) is Err,
    ensures
        lower_bounds_at(tb, ps, bounds, order, m) == lower_bounds_at(tb, ps, bounds, order, n),
    decreases m,
{
    if m > n {
        lemma_bounds_error(tb, ps, bounds, order, n, (m - 1) as nat);
    }
}

/// The list of bounds that syntax stands for: the bounds on traits that
/// are not auto traits come first, in their order, then the bounds on
/// auto traits, by the number of the trait.
pub fn lower_bounds(env: &Env, bounds: &Vec<QuantifiedInlineBound>) -> (r: LowerResult<Vec<Term>>)
    requires
        env.wf(),
    ensures
        lowered_list(r, lower_bounds_model(env.tables(), parameters(env.parameter_map@), *bounds)),
    decreases bounds, 1nat,
{
    let ghost ps = parameters(env.parameter_map@);
    let ghost tb = env.tables();
    let mut regular: Vec<usize> = Vec::new();
    let mut auto: Vec<(usize, RawId)> = Vec::new();
    proof {
        assert(ints(regular@) =~= Seq::empty());
        assert(id_pairs(auto@) =~= Seq::empty());
    }
    let mut i: usize = 0;
    while i < bounds.len()
        invariant
            0 <= i <= bounds.len(),
            env.wf(),
            ps == parameters(env.parameter_map@),
            tb == env.tables(),
            bound_order(tb, ps, bounds@, i as nat) == Ok::<(Seq<int>, Seq<(int, RawId)>), RustIrError>(
                (ints(regular@), id_pairs(auto@)),
            ),
            forall|j: int| 0 <= j < regular@.len() ==> regular@[j] < i,
            forall|j: int| 0 <= j < auto@.len() ==> (#[trigger] auto@[j]).0 < i,
        decreases bounds.len() - i,
    {
        let name = trait_identifier(&bounds[i].bound);
        proof {
            lemma_lookup_is_entry(env.trait_ids@, name.text(), env.trait_ids@.len());
        }
        match env.lookup_trait(name) {
            Err(e) => {
                proof {
                    lemma_order_error(tb, ps, bounds@, (i + 1) as nat, bounds@.len());
                }
                return Err(e);
            },
            Ok(id) => {
                if env.auto_trait(id) {
                    insert_sorted(&mut auto, (i, id));
                } else {
                    let ghost before = ints(regular@);
                    regular.push(i);
                    proof {
                        assert(ints(regular@) =~= before.push(i as int));
                    }
                }
            },
        }
        i += 1;
    }
    let ghost first = ints(regular@);
    let ghost last = id_pairs(auto@);
    let mut order = regular;
    let mut a: usize = 0;
    while a < auto.len()
        invariant
            0 <= a <= auto.len(),
            last == id_pairs(auto@),
            ints(order@) == first + Seq::new(a as nat, |k: int| last[k].0),
            forall|j: int| 0 <= j < order@.len() ==> order@[j] < bounds.len(),
            forall|j: int| 0 <= j < auto@.len() ==> (#[trigger] auto@[j]).0 < bounds.len(),
        decreases auto.len() - a,
    {
        let ghost before = ints(order@);
        order.push(auto[a].0);
        proof {
            assert(ints(order@) =~= before.push(auto@[a as int].0 as int));
            assert(ints(order@) =~= first + Seq::new((a + 1) as nat, |k: int| last[k].0));
        }
        a += 1;
    }
    proof {
        assert(ints(order@) =~= positions((first, last)));
    }
    lower_bounds_in_order(env, bounds, &order)
}

/// Lowering one more bound adds the bound at the next position.
proof fn lemma_bounds_step(
    tb: Tables,
    ps: Seq<SpecParameter>,
    bounds: Seq<QuantifiedInlineBound>,
    order: Seq<int>,
    k: nat,
)
    requires
        k < order.len(),
        0 <= order[k as int] < bounds.len(),
        lower_bounds_at(tb, ps, bounds, order, k) is Ok,
    ensures
        lower_bounds_at(tb, ps, bounds, order, k + 1) == match lower_quantified_bound_model(
            tb,
            ps,
            bounds[order[k as int]],
        ) {
            Err(e) => Err::<Seq<SpecTerm>, RustIrError>(e),
            Ok(t) => Ok(lower_bounds_at(tb, ps, bounds, order, k)->Ok_0.push(t)),
        },
{
}

/// The bounds at the given positions, in the order of the positions.
pub fn lower_bounds_in_order(env: &Env, bounds: &Vec<QuantifiedInlineBound>, order: &Vec<usize>) -> (r: LowerResult<
    Vec<Term>,
>)
    requires
        env.wf(),
        forall|j: int| 0 <= j < order@.len() ==> order@[j] < bounds.len(),
    ensures
        lowered_list(
            r,
            lower_bounds_at(env.tables(), parameters(env.parameter_map@), bounds@, ints(order@), order@.len()),
        ),
    decreases bounds, 0nat,
{
    let ghost ps = parameters(env.parameter_map@);
    let ghost tb = env.tables();
    let mut ts: Vec<Term> = Vec::new();
    proof {
        assert(views(ts@) =~= Seq::empty());
    }
    let mut k: usize = 0;
    while k < order.len()
        invariant
            0 <= k <= order.len(),
            env.wf(),
            ps == parameters(env.parameter_map@),
            tb == env.tables(),
            forall|j: int| 0 <= j < order@.len() ==> order@[j] < bounds.len(),
            lower_bounds_at(tb, ps, bounds@, ints(order@), k as nat) == Ok::<Seq<SpecTerm>, RustIrError>(
                views(ts@),
            ),
        decreases order.len() - k,
    {
        let ghost before = views(ts@);
        proof {
            lemma_bounds_step(tb, ps, bounds@, ints(order@), k as nat);
        }
        match lower_quantified_bound(env, &bounds[order[k]]) {
            Err(e) => {
                proof {
                    lemma_bounds_error(tb, ps, bounds@, ints(order@), (k + 1) as nat, order@.len());
                }
                return Err(e);
            },
            Ok(t) => {
                ts.push(t);
                proof {
                    assert(views(ts@) =~= before.push(t@));
                }
            },
        }
        k += 1;
    }
    Ok(ts)
}


} // verus!
