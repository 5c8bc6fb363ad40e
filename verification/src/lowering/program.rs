//! Lowering of the items of a program.
//!
//! Each item becomes a datum: its number, what kind of item it is, and one
//! term that holds its lowered parts under the binders that declare its
//! parameters. A value under a binder is a `Quantified` node; several
//! parts side by side are a `List` node.

use vstd::prelude::*;
use crate::ast::AdtDefn;
use crate::ast::AdtFlags;
use crate::ast::AdtRepr;
use crate::ast::AssocTyDefn;
use crate::ast::AssocTyValue;
use crate::ast::ClosureDefn;
use crate::ast::ClosureKind;
use crate::ast::Field;
use crate::ast::FnDefn;
use crate::ast::Impl;
use crate::ast::ImplType;
use crate::ast::OpaqueTyDefn;
use crate::ast::Polarity;
use crate::ast::TraitDefn;
use crate::ast::TraitFlags;
use crate::ast::Variant;
use crate::ast::WellKnownTrait;
use crate::symbol::FnAbi;
use crate::symbol::Head;
use crate::symbol::Safety;
use crate::symbol::TypeName;
use crate::symbol::VariableKind;
use crate::term::SpecTerm;
use crate::term::Term;
use crate::term::views;
use crate::slg::list;
use crate::solve::list_term;
use crate::lowering::env::Env;
use crate::lowering::env::ProgramLowerer;
use crate::lowering::env::lookup;
use crate::lowering::env::table_get;
use crate::lowering::lowerer::Gathered;
use crate::lowering::lowerer::Associated;
use crate::lowering::lowerer::associated;
use crate::lowering::lowerer::first_offender;
use crate::lowering::lowerer::gathered;
use crate::lowering::lowerer::offender_name;
use crate::lowering::lowerer::raw_id;
use crate::lowering::goal::lower_clause;
use crate::lowering::goal::lower_clause_model;
use crate::lowering::goal::lower_goal_in;
use crate::lowering::goal::lower_goal_model;
use crate::lowering::ty::trait_of;
use crate::lowering::ty::trait_id_of;
use crate::term::lemma_view_args;
use crate::ex_clause::append_terms;
use crate::ast::Item;
use crate::ast::Program;
use crate::ast::Goal;
use crate::lowering::env::LowerResult;
use crate::lowering::env::RawId;
use crate::lowering::env::SpecParameter;
use crate::lowering::env::SpecWithKind;
use crate::lowering::env::Tables;
use crate::lowering::env::WithKind;
use crate::lowering::env::anonymize;
use crate::lowering::env::associated_index;
use crate::lowering::env::declarations;
use crate::lowering::env::introduced;
use crate::lowering::env::kinds_of;
use crate::lowering::env::parameters;
use crate::lowering::env::shadows;
use crate::lowering::error::RustIrError;
use crate::lowering::goal::lower_where_clauses;
use crate::lowering::goal::lower_where_clauses_model;
use crate::lowering::goal::two;
use crate::lowering::ty::abi_model;
use crate::lowering::ty::all_where_clauses;
use crate::lowering::ty::anonymous_self;
use crate::lowering::ty::declared;
use crate::lowering::ty::into_all_where_clauses;
use crate::lowering::ty::lower_abi;
use crate::lowering::ty::lower_bounds;
use crate::lowering::ty::lower_bounds_model;
use crate::lowering::ty::lower_trait_ref;
use crate::lowering::ty::lower_trait_ref_model;
use crate::lowering::ty::lower_ty;
use crate::lowering::ty::lower_ty_model;
use crate::lowering::ty::lower_tys;
use crate::lowering::ty::lower_tys_model;
use crate::lowering::ty::lower_variable_kinds;
use crate::lowering::ty::lowered;
use crate::lowering::ty::node;
use crate::lowering::ty::quantified;
use crate::lowering::ty::quantify;
use crate::lowering::ty::self_var;
use crate::lowering::ty::trait_self;
use vstd::string::StringExecFns;

verus! {

/// What kind of item a datum is of, with what is known of the item
/// besides its lowered parts.
#[derive(Clone, Copy, Debug)]
#[allow(inconsistent_fields)]
pub enum ItemMeta {
    /// The term holds, under the binder of the adt, the list of its
    /// variants, each a list of field types, and the list of its where
    /// clauses.
    Adt { flags: AdtFlags, repr: AdtRepr },
    /// The term holds, under the binder of the function, its inputs and
    /// output, under a binder that declares nothing, and the list of its
    /// where clauses; the inputs and output are the list of argument types
    /// and the return type.
    FnDef { safety: Safety, abi: FnAbi, variadic: bool },
    /// The term holds the inputs and output of the closure, under its
    /// binder, and the tuple of its upvars, under its binder again.
    Closure { kind: ClosureKind },
    /// The term holds, under the binder of the trait, the list of its where
    /// clauses. The first parameter is the self type.
    Trait { flags: TraitFlags, well_known: Option<WellKnownTrait> },
    /// The term holds, under the binder of the impl, the trait reference
    /// and the list of where clauses.
    Impl { polarity: Polarity, impl_type: ImplType },
    /// The term holds, under the binder of the associated type, whose
    /// parameters come before those of the trait, the list of its bounds
    /// and the list of its where clauses.
    AssociatedTy { trait_id: RawId },
    /// The term holds, under the binder of the value, whose parameters
    /// come before those of the impl, the type.
    AssociatedTyValue { impl_id: RawId, associated_ty_id: RawId },
    /// The term holds, under the binder of the opaque type, the list of the
    /// where clauses that its bounds make of the opaque type and the list
    /// of its where clauses, each under a binder for the opaque type
    /// itself.
    OpaqueTy,
}

/// The model of a datum.
pub struct SpecDatum {
    pub id: RawId,
    pub meta: ItemMeta,
    pub name: Seq<char>,
    pub ids: Seq<RawId>,
    pub term: SpecTerm,
}

/// A lowered item: its number, what it is, its name, the numbers of the
/// associated types or values that belong to it, and its lowered parts.
#[derive(Debug)]
pub struct Datum {
    pub id: RawId,
    pub meta: ItemMeta,
    pub name: String,
    pub ids: Vec<RawId>,
    pub term: Term,
}

impl View for Datum {
    type V = SpecDatum;

    open spec fn view(&self) -> SpecDatum {
        SpecDatum { id: self.id, meta: self.meta, name: self.name@, ids: self.ids@, term: self.term@ }
    }
}

/// Whether a result is the datum that the model gives, or its error.
pub open spec fn lowered_datum(r: LowerResult<Datum>, m: LowerResult<SpecDatum>) -> bool {
    match m {
        Ok(d) => r is Ok && r->Ok_0@ == d,
        Err(e) => r == Err::<Datum, RustIrError>(e),
    }
}

/// The field types of the first `n` fields.
pub open spec fn lower_fields_model(tb: Tables, ps: Seq<SpecParameter>, fields: Seq<Field>, n: nat) -> LowerResult<
    Seq<SpecTerm>,
>
    decreases n,
{
    if n == 0 || n > fields.len() {
        Ok(Seq::empty())
    } else {
        match lower_fields_model(tb, ps, fields, (n - 1) as nat) {
            Err(e) => Err(e),
            Ok(ts) => match lower_ty_model(tb, ps, fields[n - 1].ty) {
                Err(e) => Err(e),
                Ok(t) => Ok(ts.push(t)),
            },
        }
    }
}

/// The first `n` variants, each the list of its field types.
pub open spec fn lower_variants_model(tb: Tables, ps: Seq<SpecParameter>, variants: Seq<Variant>, n: nat) -> LowerResult<
    Seq<SpecTerm>,
>
    decreases n,
{
    if n == 0 || n > variants.len() {
        Ok(Seq::empty())
    } else {
        match lower_variants_model(tb, ps, variants, (n - 1) as nat) {
            Err(e) => Err(e),
            Ok(ts) => match lower_fields_model(tb, ps, variants[n - 1].fields@, variants[n - 1].fields@.len()) {
                Err(e) => Err(e),
                Ok(fs) => Ok(ts.push(list(fs))),
            },
        }
    }
}

/// The datum of an adt. A fundamental adt has exactly one parameter.
pub open spec fn lower_adt_model(tb: Tables, ps: Seq<SpecParameter>, d: AdtDefn, id: RawId) -> LowerResult<SpecDatum> {
    let decl = declared(d.variable_kinds@);
    if d.flags.fundamental && decl.len() != 1 {
        Err(RustIrError::InvalidFundamentalTypesParameters(d.name))
    } else if shadows(ps, decl) {
        Err(RustIrError::DuplicateOrShadowedParameters)
    } else {
        let inner = introduced(ps, decl);
        match lower_variants_model(tb, inner, d.variants@, d.variants@.len()) {
            Err(e) => Err(e),
            Ok(vs) => match lower_where_clauses_model(tb, inner, d.where_clauses@, d.where_clauses@.len()) {
                Err(e) => Err(e),
                Ok(wcs) => Ok(
                    SpecDatum {
                        id,
                        meta: ItemMeta::Adt { flags: d.flags, repr: d.repr },
                        name: d.name.text(),
                        ids: Seq::empty(),
                        term: quantified(kinds_of(decl), list(seq![list(vs), list(wcs)])),
                    },
                ),
            },
        }
    }
}

/// The inputs and output of a function or closure: the return type is
/// lowered before the argument types.
pub open spec fn inputs_and_output_model(tb: Tables, ps: Seq<SpecParameter>, args: Seq<crate::ast::Ty>, ret: crate::ast::Ty) -> LowerResult<
    SpecTerm,
> {
    match lower_ty_model(tb, ps, ret) {
        Err(e) => Err(e),
        Ok(r) => match lower_tys_model(tb, ps, args, args.len()) {
            Err(e) => Err(e),
            Ok(ts) => Ok(list(seq![list(ts), r])),
        },
    }
}

/// The datum of a function definition.
pub open spec fn lower_fn_def_model(tb: Tables, ps: Seq<SpecParameter>, d: FnDefn, id: RawId) -> LowerResult<SpecDatum> {
    let decl = declared(d.variable_kinds@);
    if shadows(ps, decl) {
        Err(RustIrError::DuplicateOrShadowedParameters)
    } else {
        let inner = introduced(ps, decl);
        match lower_where_clauses_model(tb, inner, d.where_clauses@, d.where_clauses@.len()) {
            Err(e) => Err(e),
            Ok(wcs) => match inputs_and_output_model(
                tb,
                introduced(inner, Seq::empty()),
                d.argument_types@,
                d.return_type,
            ) {
                Err(e) => Err(e),
                Ok(io) => match abi_model(d.sig.abi) {
                    Err(e) => Err(e),
                    Ok(abi) => Ok(
                        SpecDatum {
                            id,
                            meta: ItemMeta::FnDef { safety: d.sig.safety, abi, variadic: d.sig.variadic },
                            name: d.name.text(),
                            ids: Seq::empty(),
                            term: quantified(kinds_of(decl), list(seq![quantified(Seq::empty(), io), list(wcs)])),
                        },
                    ),
                },
            }
        }
    }
}

/// The datum of a closure.
pub open spec fn lower_closure_model(tb: Tables, ps: Seq<SpecParameter>, d: ClosureDefn, id: RawId) -> LowerResult<
    SpecDatum,
> {
    let decl = declared(d.variable_kinds@);
    if shadows(ps, decl) {
        Err(RustIrError::DuplicateOrShadowedParameters)
    } else {
        let inner = introduced(ps, decl);
        match inputs_and_output_model(tb, inner, d.argument_types@, d.return_type) {
            Err(e) => Err(e),
            Ok(io) => match lower_tys_model(tb, inner, d.upvars@, d.upvars@.len()) {
                Err(e) => Err(e),
                Ok(us) => Ok(
                    SpecDatum {
                        id,
                        meta: ItemMeta::Closure { kind: d.kind },
                        name: d.name.text(),
                        ids: Seq::empty(),
                        term: list(
                            seq![
                                quantified(kinds_of(decl), io),
                                quantified(
                                    kinds_of(decl),
                                    node(Head::Apply(TypeName::Tuple(d.upvars@.len() as usize)), us),
                                ),
                            ],
                        ),
                    },
                ),
            },
        }
    }
}

/// The numbers of the first `n` associated types of a trait.
pub open spec fn associated_ids_model(tb: Tables, trait_id: RawId, defns: Seq<AssocTyDefn>, n: nat) -> LowerResult<
    Seq<RawId>,
>
    decreases n,
{
    if n == 0 || n > defns.len() {
        Ok(Seq::empty())
    } else {
        match associated_ids_model(tb, trait_id, defns, (n - 1) as nat) {
            Err(e) => Err(e),
            Ok(ids) => match associated_index(tb.associated_ty_lookups, trait_id, defns[n - 1].name.text()) {
                None => Err(RustIrError::MissingAssociatedType(defns[n - 1].name)),
                Some(i) => Ok(ids.push(tb.associated_ty_lookups[i].2.id)),
            },
        }
    }
}

/// The parameters of a trait: its self type, then those it declares.
pub open spec fn trait_parameters(d: TraitDefn) -> Seq<SpecWithKind> {
    seq![trait_self()] + declared(d.variable_kinds@)
}

/// The datum of a trait. An auto trait has no parameter but its self type
/// and no where clause.
pub open spec fn lower_trait_model(tb: Tables, ps: Seq<SpecParameter>, d: TraitDefn, id: RawId) -> LowerResult<
    SpecDatum,
> {
    let decl = trait_parameters(d);
    if shadows(ps, decl) {
        Err(RustIrError::DuplicateOrShadowedParameters)
    } else if d.flags.auto && decl.len() > 1 {
        Err(RustIrError::AutoTraitParameters(d.name))
    } else if d.flags.auto && d.where_clauses@.len() > 0 {
        Err(RustIrError::AutoTraitWhereClauses(d.name))
    } else {
        match lower_where_clauses_model(tb, introduced(ps, decl), d.where_clauses@, d.where_clauses@.len()) {
            Err(e) => Err(e),
            Ok(wcs) => match associated_ids_model(tb, id, d.assoc_ty_defns@, d.assoc_ty_defns@.len()) {
                Err(e) => Err(e),
                Ok(ids) => Ok(
                    SpecDatum {
                        id,
                        meta: ItemMeta::Trait { flags: d.flags, well_known: d.well_known },
                        name: d.name.text(),
                        ids,
                        term: quantified(kinds_of(decl), list(wcs)),
                    },
                ),
            },
        }
    }
}

/// The position of the last of the first `n` entries for this impl and name.
pub open spec fn value_upto(entries: Seq<(RawId, String, RawId)>, impl_id: RawId, name: Seq<char>, n: nat) -> Option<
    RawId,
>
    decreases n,
{
    if n == 0 || n > entries.len() {
        None
    } else if entries[n - 1].0 == impl_id && entries[n - 1].1@ == name {
        Some(entries[n - 1].2)
    } else {
        value_upto(entries, impl_id, name, (n - 1) as nat)
    }
}

/// The numbers of the first `n` values of associated types of an impl.
pub open spec fn value_ids_model(
    value_ids: Seq<(RawId, String, RawId)>,
    impl_id: RawId,
    values: Seq<AssocTyValue>,
    n: nat,
) -> LowerResult<Seq<RawId>>
    decreases n,
{
    if n == 0 || n > values.len() {
        Ok(Seq::empty())
    } else {
        match value_ids_model(value_ids, impl_id, values, (n - 1) as nat) {
            Err(e) => Err(e),
            Ok(ids) => match value_upto(value_ids, impl_id, values[n - 1].name.text(), value_ids.len()) {
                None => Err(RustIrError::MissingAssociatedType(values[n - 1].name)),
                Some(found) => Ok(ids.push(found)),
            },
        }
    }
}

/// The datum of an impl. A negative impl gives no associated type a value.
pub open spec fn lower_impl_model(
    tb: Tables,
    ps: Seq<SpecParameter>,
    d: Impl,
    id: RawId,
    value_ids: Seq<(RawId, String, RawId)>,
) -> LowerResult<SpecDatum> {
    let decl = declared(d.variable_kinds@);
    if shadows(ps, decl) {
        Err(RustIrError::DuplicateOrShadowedParameters)
    } else {
        let inner = introduced(ps, decl);
        match lower_trait_ref_model(tb, inner, d.trait_ref) {
            Err(e) => Err(e),
            Ok(tr) => if d.polarity == Polarity::Negative && d.assoc_ty_values@.len() > 0 {
                Err(RustIrError::NegativeImplAssociatedValues(d.trait_ref.trait_name))
            } else {
                match lower_where_clauses_model(tb, inner, d.where_clauses@, d.where_clauses@.len()) {
                    Err(e) => Err(e),
                    Ok(wcs) => match value_ids_model(value_ids, id, d.assoc_ty_values@, d.assoc_ty_values@.len()) {
                        Err(e) => Err(e),
                        Ok(ids) => Ok(
                            SpecDatum {
                                id,
                                meta: ItemMeta::Impl { polarity: d.polarity, impl_type: d.impl_type },
                                name: d.trait_ref.trait_name.text(),
                                ids,
                                term: quantified(kinds_of(decl), list(seq![tr, list(wcs)])),
                            },
                        ),
                    },
                }
            },
        }
    }
}

/// The datum of an associated type of a trait: its parameters come before
/// those of the trait.
pub open spec fn lower_associated_ty_model(
    tb: Tables,
    ps: Seq<SpecParameter>,
    t: TraitDefn,
    trait_id: RawId,
    a: AssocTyDefn,
) -> LowerResult<SpecDatum> {
    match associated_index(tb.associated_ty_lookups, trait_id, a.name.text()) {
        None => Err(RustIrError::MissingAssociatedType(a.name)),
        Some(i) => {
            let decl = declared(a.variable_kinds@) + trait_parameters(t);
            if shadows(ps, decl) {
                Err(RustIrError::DuplicateOrShadowedParameters)
            } else {
                let inner = introduced(ps, decl);
                match lower_bounds_model(tb, inner, a.bounds) {
                    Err(e) => Err(e),
                    Ok(bs) => match lower_where_clauses_model(tb, inner, a.where_clauses@, a.where_clauses@.len()) {
                        Err(e) => Err(e),
                        Ok(wcs) => Ok(
                            SpecDatum {
                                id: tb.associated_ty_lookups[i].2.id,
                                meta: ItemMeta::AssociatedTy { trait_id },
                                name: a.name.text(),
                                ids: Seq::empty(),
                                term: quantified(kinds_of(decl), list(seq![list(bs), list(wcs)])),
                            },
                        ),
                    },
                }
            }
        },
    }
}

/// The datum of the value that an impl of the trait `trait_id` gives an
/// associated type: its parameters come before those of the impl.
pub open spec fn lower_associated_value_model(
    tb: Tables,
    ps: Seq<SpecParameter>,
    d: Impl,
    impl_id: RawId,
    trait_id: RawId,
    value_ids: Seq<(RawId, String, RawId)>,
    v: AssocTyValue,
) -> LowerResult<SpecDatum> {
    match value_upto(value_ids, impl_id, v.name.text(), value_ids.len()) {
        None => Err(RustIrError::MissingAssociatedType(v.name)),
        Some(id) => match associated_index(tb.associated_ty_lookups, trait_id, v.name.text()) {
            None => Err(RustIrError::MissingAssociatedType(v.name)),
            Some(i) => {
                let decl = declared(v.variable_kinds@) + declared(d.variable_kinds@);
                if shadows(ps, decl) {
                    Err(RustIrError::DuplicateOrShadowedParameters)
                } else {
                    match lower_ty_model(tb, introduced(ps, decl), v.value) {
                        Err(e) => Err(e),
                        Ok(t) => Ok(
                            SpecDatum {
                                id,
                                meta: ItemMeta::AssociatedTyValue {
                                    impl_id,
                                    associated_ty_id: tb.associated_ty_lookups[i].2.id,
                                },
                                name: v.name.text(),
                                ids: Seq::empty(),
                                term: quantified(kinds_of(decl), t),
                            },
                        ),
                    }
                }
            },
        },
    }
}

/// The datum of an opaque type and its hidden type, which stands under the
/// binder of the opaque type.
pub open spec fn lower_opaque_model(tb: Tables, ps: Seq<SpecParameter>, d: OpaqueTyDefn, id: RawId) -> LowerResult<
    (SpecDatum, SpecTerm),
> {
    let decl = declared(d.variable_kinds@);
    if shadows(ps, decl) {
        Err(RustIrError::DuplicateOrShadowedParameters)
    } else {
        let inner = introduced(ps, decl);
        match lower_ty_model(tb, inner, d.ty) {
            Err(e) => Err(e),
            Ok(hidden) => if shadows(inner, seq![anonymous_self()]) {
                Err(RustIrError::DuplicateOrShadowedParameters)
            } else {
                let innermost = introduced(inner, seq![anonymous_self()]);
                match lower_bounds_model(tb, innermost, d.bounds) {
                    Err(e) => Err(e),
                    Ok(bs) => match lower_where_clauses_model(
                        tb,
                        innermost,
                        d.where_clauses@,
                        d.where_clauses@.len(),
                    ) {
                        Err(e) => Err(e),
                        Ok(wcs) => Ok(
                            (
                                SpecDatum {
                                    id,
                                    meta: ItemMeta::OpaqueTy,
                                    name: d.name.text(),
                                    ids: Seq::empty(),
                                    term: quantified(
                                        kinds_of(decl),
                                        list(
                                            seq![
                                                quantified(
                                                    seq![VariableKind::Ty],
                                                    list(all_where_clauses(bs, self_var(0), bs.len())),
                                                ),
                                                quantified(seq![VariableKind::Ty], list(wcs)),
                                            ],
                                        ),
                                    ),
                                },
                                hidden,
                            ),
                        ),
                    },
                }
            },
        }
    }
}

/// An error among the first fields is the error of the whole list.
proof fn lemma_fields_error(tb: Tables, ps: Seq<SpecParameter>, fields: Seq<Field>, n: nat, m: nat)
    requires
        n <= m <= fields.len(),
        lower_fields_model(tb, ps, fields, n) is Err,
    ensures
        lower_fields_model(tb, ps, fields, m) == lower_fields_model(tb, ps, fields, n),
    decreases m,
{
    if m > n {
        lemma_fields_error(tb, ps, fields, n, (m - 1) as nat);
    }
}

/// An error among the first variants is the error of the whole list.
proof fn lemma_variants_error(tb: Tables, ps: Seq<SpecParameter>, variants: Seq<Variant>, n: nat, m: nat)
    requires
        n <= m <= variants.len(),
        lower_variants_model(tb, ps, variants, n) is Err,
    ensures
        lower_variants_model(tb, ps, variants, m) == lower_variants_model(tb, ps, variants, n),
    decreases m,
{
    if m > n {
        lemma_variants_error(tb, ps, variants, n, (m - 1) as nat);
    }
}

/// An associated type that is missing among the first is missing in the whole list.
proof fn lemma_associated_ids_error(tb: Tables, trait_id: RawId, defns: Seq<AssocTyDefn>, n: nat, m: nat)
    requires
        n <= m <= defns.len(),
        associated_ids_model(tb, trait_id, defns, n) is Err,
    ensures
        associated_ids_model(tb, trait_id, defns, m) == associated_ids_model(tb, trait_id, defns, n),
    decreases m,
{
    if m > n {
        lemma_associated_ids_error(tb, trait_id, defns, n, (m - 1) as nat);
    }
}

/// A value that is missing among the first is missing in the whole list.
proof fn lemma_value_ids_error(
    value_ids: Seq<(RawId, String, RawId)>,
    impl_id: RawId,
    values: Seq<AssocTyValue>,
    n: nat,
    m: nat,
)
    requires
        n <= m <= values.len(),
        value_ids_model(value_ids, impl_id, values, n) is Err,
    ensures
        value_ids_model(value_ids, impl_id, values, m) == value_ids_model(value_ids, impl_id, values, n),
    decreases m,
{
    if m > n {
        lemma_value_ids_error(value_ids, impl_id, values, n, (m - 1) as nat);
    }
}

/// The types of the fields of a variant.
fn lower_fields(env: &Env, fields: &Vec<Field>) -> (r: LowerResult<Vec<Term>>)
    requires
        env.wf(),
    ensures
        crate::lowering::ty::lowered_list(
            r,
            lower_fields_model(env.tables(), parameters(env.parameter_map@), fields@, fields@.len()),
        ),
{
    let ghost ps = parameters(env.parameter_map@);
    let ghost tb = env.tables();
    let mut ts: Vec<Term> = Vec::new();
    proof {
        assert(views(ts@) =~= Seq::empty());
    }
    let mut i: usize = 0;
    while i < fields.len()
        invariant
            0 <= i <= fields.len(),
            env.wf(),
            ps == parameters(env.parameter_map@),
            tb == env.tables(),
            lower_fields_model(tb, ps, fields@, i as nat) == Ok::<Seq<SpecTerm>, RustIrError>(views(ts@)),
        decreases fields.len() - i,
    {
        let ghost before = views(ts@);
        match lower_ty(env, &fields[i].ty) {
            Err(e) => {
                proof {
                    lemma_fields_error(tb, ps, fields@, (i + 1) as nat, fields@.len());
                }
                return Err(e);
            },
            Ok(t) => {
                ts.push(t);
                proof {
                    assert(views(ts@) =~= before.push(t@));
                }
            },
        }
        i += 1;
    }
    Ok(ts)
}

/// The variants of an adt, each the list of its field types.
fn lower_variants(env: &Env, variants: &Vec<Variant>) -> (r: LowerResult<Vec<Term>>)
    requires
        env.wf(),
    ensures
        crate::lowering::ty::lowered_list(
            r,
            lower_variants_model(env.tables(), parameters(env.parameter_map@), variants@, variants@.len()),
        ),
{
    let ghost ps = parameters(env.parameter_map@);
    let ghost tb = env.tables();
    let mut ts: Vec<Term> = Vec::new();
    proof {
        assert(views(ts@) =~= Seq::empty());
    }
    let mut i: usize = 0;
    while i < variants.len()
        invariant
            0 <= i <= variants.len(),
            env.wf(),
            ps == parameters(env.parameter_map@),
            tb == env.tables(),
            lower_variants_model(tb, ps, variants@, i as nat) == Ok::<Seq<SpecTerm>, RustIrError>(views(ts@)),
        decreases variants.len() - i,
    {
        let ghost before = views(ts@);
        match lower_fields(env, &variants[i].fields) {
            Err(e) => {
                proof {
                    lemma_variants_error(tb, ps, variants@, (i + 1) as nat, variants@.len());
                }
                return Err(e);
            },
            Ok(fs) => {
                let t = list_term(fs);
                ts.push(t);
                proof {
                    assert(views(ts@) =~= before.push(t@));
                }
            },
        }
        i += 1;
    }
    Ok(ts)
}

/// The datum of an adt.
pub fn lower_adt(adt_defn: &AdtDefn, adt_id: RawId, env: &Env) -> (r: LowerResult<Datum>)
    requires
        env.wf(),
    ensures
        lowered_datum(r, lower_adt_model(env.tables(), parameters(env.parameter_map@), *adt_defn, adt_id)),
{
    let decl = lower_variable_kinds(&adt_defn.variable_kinds);
    if adt_defn.flags.fundamental && decl.len() != 1 {
        return Err(RustIrError::InvalidFundamentalTypesParameters(adt_defn.name.clone_identifier()));
    }
    let inner = env.introduce(&decl)?;
    let vs = lower_variants(&inner, &adt_defn.variants)?;
    let wcs = lower_where_clauses(&inner, &adt_defn.where_clauses)?;
    let term = quantify(&anonymize(&decl), list_term(two(list_term(vs), list_term(wcs))));
    Ok(
        Datum {
            id: adt_id,
            meta: ItemMeta::Adt { flags: adt_defn.flags, repr: adt_defn.repr },
            name: adt_defn.name.str.clone(),
            ids: Vec::new(),
            term,
        },
    )
}

/// The inputs and output of a function or closure.
fn lower_inputs_and_output(env: &Env, args: &Vec<crate::ast::Ty>, ret: &crate::ast::Ty) -> (r: LowerResult<Term>)
    requires
        env.wf(),
    ensures
        lowered(r, inputs_and_output_model(env.tables(), parameters(env.parameter_map@), args@, *ret)),
{
    let ts = lower_tys(env, args);
    let r = lower_ty(env, ret)?;
    let ts = ts?;
    Ok(list_term(two(list_term(ts), r)))
}

/// The datum of a function definition.
pub fn lower_fn_def(fn_defn: &FnDefn, fn_def_id: RawId, env: &Env) -> (r: LowerResult<Datum>)
    requires
        env.wf(),
    ensures
        lowered_datum(r, lower_fn_def_model(env.tables(), parameters(env.parameter_map@), *fn_defn, fn_def_id)),
{
    let decl = lower_variable_kinds(&fn_defn.variable_kinds);
    let inner = env.introduce(&decl)?;
    let wcs = lower_where_clauses(&inner, &fn_defn.where_clauses)?;
    let none: Vec<WithKind> = Vec::new();
    proof {
        assert(declarations(none@) =~= Seq::empty());
        assert(!shadows(parameters(inner.parameter_map@), declarations(none@)));
    }
    let innermost = inner.introduce(&none)?;
    let io = lower_inputs_and_output(&innermost, &fn_defn.argument_types, &fn_defn.return_type)?;
    let abi = lower_abi(&fn_defn.sig.abi)?;
    let no_kinds = anonymize(&none);
    proof {
        assert(no_kinds@ =~= Seq::empty());
    }
    let term = quantify(&anonymize(&decl), list_term(two(quantify(&no_kinds, io), list_term(wcs))));
    Ok(
        Datum {
            id: fn_def_id,
            meta: ItemMeta::FnDef { safety: fn_defn.sig.safety, abi, variadic: fn_defn.sig.variadic },
            name: fn_defn.name.str.clone(),
            ids: Vec::new(),
            term,
        },
    )
}

/// The datum of a closure.
pub fn lower_closure(defn: &ClosureDefn, id: RawId, env: &Env) -> (r: LowerResult<Datum>)
    requires
        env.wf(),
    ensures
        lowered_datum(r, lower_closure_model(env.tables(), parameters(env.parameter_map@), *defn, id)),
{
    let decl = lower_variable_kinds(&defn.variable_kinds);
    let inner = env.introduce(&decl)?;
    let io = lower_inputs_and_output(&inner, &defn.argument_types, &defn.return_type)?;
    let us = lower_tys(&inner, &defn.upvars)?;
    let kinds = anonymize(&decl);
    let tuple = Term::new(Head::Apply(TypeName::Tuple(defn.upvars.len())), us);
    let term = list_term(two(quantify(&kinds, io), quantify(&kinds, tuple)));
    Ok(
        Datum {
            id,
            meta: ItemMeta::Closure { kind: defn.kind },
            name: defn.name.str.clone(),
            ids: Vec::new(),
            term,
        },
    )
}

/// The numbers of the associated types of a trait.
fn associated_ids(env: &Env, trait_id: RawId, defns: &Vec<AssocTyDefn>) -> (r: LowerResult<Vec<RawId>>)
    ensures
        match associated_ids_model(env.tables(), trait_id, defns@, defns@.len()) {
            Ok(ids) => r is Ok && r->Ok_0@ == ids,
            Err(e) => r == Err::<Vec<RawId>, RustIrError>(e),
        },
{
    let ghost tb = env.tables();
    let mut ids: Vec<RawId> = Vec::new();
    let mut i: usize = 0;
    while i < defns.len()
        invariant
            0 <= i <= defns.len(),
            tb == env.tables(),
            associated_ids_model(tb, trait_id, defns@, i as nat) == Ok::<Seq<RawId>, RustIrError>(ids@),
        decreases defns.len() - i,
    {
        match env.lookup_associated_ty(trait_id, &defns[i].name) {
            Err(e) => {
                proof {
                    lemma_associated_ids_error(tb, trait_id, defns@, (i + 1) as nat, defns@.len());
                }
                return Err(e);
            },
            Ok(lookup) => {
                ids.push(lookup.id);
            },
        }
        i += 1;
    }
    Ok(ids)
}

/// The parameters of a trait: its self type, then those it declares.
pub fn all_trait_parameters(d: &TraitDefn) -> (r: Vec<WithKind>)
    ensures
        declarations(r@) == trait_parameters(*d),
{
    let mut r: Vec<WithKind> = Vec::new();
    r.push(WithKind { kind: VariableKind::Ty, name: String::from_str("Self") });
    let rest = lower_variable_kinds(&d.variable_kinds);
    let mut i: usize = 0;
    while i < rest.len()
        invariant
            0 <= i <= rest.len(),
            r.len() == 1 + i,
            r@[0]@ == trait_self(),
            declarations(rest@) == declared(d.variable_kinds@),
            forall|j: int| 0 <= j < i ==> (#[trigger] r@[1 + j])@ == rest@[j]@,
        decreases rest.len() - i,
    {
        r.push(WithKind { kind: rest[i].kind, name: rest[i].name.clone() });
        i += 1;
    }
    proof {
        let target = trait_parameters(*d);
        assert(declarations(r@).len() == target.len());
        assert forall|k: int| 0 <= k < target.len() implies declarations(r@)[k] == target[k] by {
            if k >= 1 {
                let j = k - 1;
                assert(r@[1 + j]@ == rest@[j]@);
                assert(declarations(rest@)[j] == rest@[j]@);
            }
        }
        assert(declarations(r@) =~= target);
    }
    r
}

/// The datum of a trait.
pub fn lower_trait(trait_defn: &TraitDefn, trait_id: RawId, env: &Env) -> (r: LowerResult<Datum>)
    requires
        env.wf(),
    ensures
        lowered_datum(r, lower_trait_model(env.tables(), parameters(env.parameter_map@), *trait_defn, trait_id)),
{
    let decl = all_trait_parameters(trait_defn);
    let inner = env.introduce(&decl)?;
    if trait_defn.flags.auto {
        if decl.len() > 1 {
            return Err(RustIrError::AutoTraitParameters(trait_defn.name.clone_identifier()));
        }
        if trait_defn.where_clauses.len() > 0 {
            return Err(RustIrError::AutoTraitWhereClauses(trait_defn.name.clone_identifier()));
        }
    }
    let wcs = lower_where_clauses(&inner, &trait_defn.where_clauses)?;
    let ids = associated_ids(env, trait_id, &trait_defn.assoc_ty_defns)?;
    let term = quantify(&anonymize(&decl), list_term(wcs));
    Ok(
        Datum {
            id: trait_id,
            meta: ItemMeta::Trait { flags: trait_defn.flags, well_known: trait_defn.well_known },
            name: trait_defn.name.str.clone(),
            ids,
            term,
        },
    )
}

/// The number that a table of values gives the value of an associated
/// type of an impl.
pub fn value_get(entries: &Vec<(RawId, String, RawId)>, impl_id: RawId, name: &String) -> (r: Option<RawId>)
    ensures
        r == value_upto(entries@, impl_id, name@, entries@.len()),
{
    let mut i: usize = entries.len();
    while i > 0
        invariant
            0 <= i <= entries.len(),
            value_upto(entries@, impl_id, name@, entries@.len()) == value_upto(entries@, impl_id, name@, i as nat),
        decreases i,
    {
        if entries[i - 1].0 == impl_id && entries[i - 1].1 == *name {
            return Some(entries[i - 1].2);
        }
        i -= 1;
    }
    None
}

/// The numbers of the values that an impl gives associated types.
fn value_ids_of(value_ids: &Vec<(RawId, String, RawId)>, impl_id: RawId, values: &Vec<AssocTyValue>) -> (r:
    LowerResult<Vec<RawId>>)
    ensures
        match value_ids_model(value_ids@, impl_id, values@, values@.len()) {
            Ok(ids) => r is Ok && r->Ok_0@ == ids,
            Err(e) => r == Err::<Vec<RawId>, RustIrError>(e),
        },
{
    let mut ids: Vec<RawId> = Vec::new();
    let mut i: usize = 0;
    while i < values.len()
        invariant
            0 <= i <= values.len(),
            value_ids_model(value_ids@, impl_id, values@, i as nat) == Ok::<Seq<RawId>, RustIrError>(ids@),
        decreases values.len() - i,
    {
        match value_get(value_ids, impl_id, &values[i].name.str) {
            None => {
                proof {
                    lemma_value_ids_error(value_ids@, impl_id, values@, (i + 1) as nat, values@.len());
                }
                return Err(RustIrError::MissingAssociatedType(values[i].name.clone_identifier()));
            },
            Some(found) => {
                ids.push(found);
            },
        }
        i += 1;
    }
    Ok(ids)
}

/// The datum of an impl.
pub fn lower_impl(impl_: &Impl, empty_env: &Env, impl_id: RawId, associated_ty_value_ids: &Vec<(RawId, String, RawId)>) -> (r:
    LowerResult<Datum>)
    requires
        empty_env.wf(),
    ensures
        lowered_datum(
            r,
            lower_impl_model(
                empty_env.tables(),
                parameters(empty_env.parameter_map@),
                *impl_,
                impl_id,
                associated_ty_value_ids@,
            ),
        ),
{
    let decl = lower_variable_kinds(&impl_.variable_kinds);
    let inner = empty_env.introduce(&decl)?;
    let tr = lower_trait_ref(&inner, &impl_.trait_ref)?;
    let negative = match impl_.polarity {
        Polarity::Negative => true,
        Polarity::Positive => false,
    };
    if negative && impl_.assoc_ty_values.len() > 0 {
        return Err(RustIrError::NegativeImplAssociatedValues(impl_.trait_ref.trait_name.clone_identifier()));
    }
    let wcs = lower_where_clauses(&inner, &impl_.where_clauses)?;
    let ids = value_ids_of(associated_ty_value_ids, impl_id, &impl_.assoc_ty_values)?;
    let term = quantify(&anonymize(&decl), list_term(two(tr, list_term(wcs))));
    Ok(
        Datum {
            id: impl_id,
            meta: ItemMeta::Impl { polarity: impl_.polarity, impl_type: impl_.impl_type },
            name: impl_.trait_ref.trait_name.str.clone(),
            ids,
            term,
        },
    )
}

/// The declarations `first` followed by the declarations `rest`.
pub fn joined(first: Vec<WithKind>, rest: &Vec<WithKind>) -> (r: Vec<WithKind>)
    ensures
        declarations(r@) == declarations(first@) + declarations(rest@),
{
    let mut r = first;
    let ghost start = declarations(r@);
    let mut i: usize = 0;
    while i < rest.len()
        invariant
            0 <= i <= rest.len(),
            declarations(r@) == start + declarations(rest@).subrange(0, i as int),
        decreases rest.len() - i,
    {
        let ghost before = declarations(r@);
        let w = WithKind { kind: rest[i].kind, name: rest[i].name.clone() };
        r.push(w);
        proof {
            assert(declarations(r@) =~= before.push(rest@[i as int]@));
            assert(start + declarations(rest@).subrange(0, i + 1) =~= (start + declarations(rest@).subrange(
                0,
                i as int,
            )).push(declarations(rest@)[i as int]));
        }
        i += 1;
    }
    proof {
        assert(declarations(rest@).subrange(0, rest@.len() as int) =~= declarations(rest@));
    }
    r
}

/// The datum of an associated type of a trait.
pub fn lower_associated_ty(env: &Env, t: &TraitDefn, trait_id: RawId, a: &AssocTyDefn) -> (r: LowerResult<Datum>)
    requires
        env.wf(),
    ensures
        lowered_datum(
            r,
            lower_associated_ty_model(env.tables(), parameters(env.parameter_map@), *t, trait_id, *a),
        ),
{
    let id = env.lookup_associated_ty(trait_id, &a.name)?.id;
    let decl = joined(lower_variable_kinds(&a.variable_kinds), &all_trait_parameters(t));
    let inner = env.introduce(&decl)?;
    let bs = lower_bounds(&inner, &a.bounds)?;
    let wcs = lower_where_clauses(&inner, &a.where_clauses)?;
    let term = quantify(&anonymize(&decl), list_term(two(list_term(bs), list_term(wcs))));
    Ok(
        Datum {
            id,
            meta: ItemMeta::AssociatedTy { trait_id },
            name: a.name.str.clone(),
            ids: Vec::new(),
            term,
        },
    )
}

/// The datum of the value that an impl gives an associated type.
pub fn lower_associated_value(
    env: &Env,
    d: &Impl,
    impl_id: RawId,
    trait_id: RawId,
    value_ids: &Vec<(RawId, String, RawId)>,
    v: &AssocTyValue,
) -> (r: LowerResult<Datum>)
    requires
        env.wf(),
    ensures
        lowered_datum(
            r,
            lower_associated_value_model(
                env.tables(),
                parameters(env.parameter_map@),
                *d,
                impl_id,
                trait_id,
                value_ids@,
                *v,
            ),
        ),
{
    let id = match value_get(value_ids, impl_id, &v.name.str) {
        None => {
            return Err(RustIrError::MissingAssociatedType(v.name.clone_identifier()));
        },
        Some(id) => id,
    };
    let associated_ty_id = env.lookup_associated_ty(trait_id, &v.name)?.id;
    let decl = joined(lower_variable_kinds(&v.variable_kinds), &lower_variable_kinds(&d.variable_kinds));
    let inner = env.introduce(&decl)?;
    let t = lower_ty(&inner, &v.value)?;
    let term = quantify(&anonymize(&decl), t);
    Ok(
        Datum {
            id,
            meta: ItemMeta::AssociatedTyValue { impl_id, associated_ty_id },
            name: v.name.str.clone(),
            ids: Vec::new(),
            term,
        },
    )
}

/// The datum of an opaque type and its hidden type.
pub fn lower_opaque(env: &Env, d: &OpaqueTyDefn, id: RawId) -> (r: LowerResult<(Datum, Term)>)
    requires
        env.wf(),
    ensures
        match lower_opaque_model(env.tables(), parameters(env.parameter_map@), *d, id) {
            Ok((datum, hidden)) => r is Ok && (r->Ok_0).0@ == datum && (r->Ok_0).1@ == hidden,
            Err(e) => r == Err::<(Datum, Term), RustIrError>(e),
        },
{
    let decl = lower_variable_kinds(&d.variable_kinds);
    let inner = env.introduce(&decl)?;
    let hidden = lower_ty(&inner, &d.ty)?;
    let mut this: Vec<WithKind> = Vec::new();
    this.push(WithKind { kind: VariableKind::Ty, name: String::from_str("__FIXME_SELF__") });
    proof {
        assert(declarations(this@) =~= seq![anonymous_self()]);
    }
    let innermost = inner.introduce(&this)?;
    let bs = lower_bounds(&innermost, &d.bounds)?;
    let wcs = lower_where_clauses(&innermost, &d.where_clauses)?;
    let me = Term::atom(Head::BoundVar { kind: crate::symbol::Kind::Ty, depth: 0, index: 0 });
    let from_bounds = into_all_where_clauses(&bs, &me);
    let mut kinds: Vec<VariableKind> = Vec::new();
    kinds.push(VariableKind::Ty);
    proof {
        assert(kinds@ =~= seq![VariableKind::Ty]);
    }
    let term = quantify(
        &anonymize(&decl),
        list_term(two(quantify(&kinds, list_term(from_bounds)), quantify(&kinds, list_term(wcs)))),
    );
    Ok((Datum { id, meta: ItemMeta::OpaqueTy, name: d.name.str.clone(), ids: Vec::new(), term }, hidden))
}

/// The model of what the items of a program lower to.
pub struct SpecProgramData {
    pub data: Seq<SpecDatum>,
    pub hidden_opaque_types: Seq<(RawId, SpecTerm)>,
    pub custom_clauses: Seq<SpecTerm>,
    pub well_known_traits: Seq<(WellKnownTrait, RawId)>,
    pub foreign_ty_ids: Seq<(Seq<char>, RawId)>,
}

/// The views of a list of data.
pub open spec fn datum_views(ds: Seq<Datum>) -> Seq<SpecDatum> {
    Seq::new(ds.len(), |i: int| ds[i]@)
}

/// The views of a table of hidden types.
pub open spec fn hidden_views(hs: Seq<(RawId, Term)>) -> Seq<(RawId, SpecTerm)> {
    Seq::new(hs.len(), |i: int| (hs[i].0, hs[i].1@))
}

/// The trait that the datum of an impl is for.
pub open spec fn impl_trait(d: SpecDatum) -> RawId {
    RawId { index: trait_of(d.term.args[1].args[0]) }
}

/// The data of the first `n` associated types of a trait.
pub open spec fn lower_associated_tys_model(tb: Tables, t: TraitDefn, trait_id: RawId, n: nat) -> LowerResult<
    Seq<SpecDatum>,
>
    decreases n,
{
    if n == 0 || n > t.assoc_ty_defns@.len() {
        Ok(Seq::empty())
    } else {
        match lower_associated_tys_model(tb, t, trait_id, (n - 1) as nat) {
            Err(e) => Err(e),
            Ok(ds) => match lower_associated_ty_model(tb, Seq::empty(), t, trait_id, t.assoc_ty_defns@[n - 1]) {
                Err(e) => Err(e),
                Ok(d) => Ok(ds.push(d)),
            },
        }
    }
}

/// The data of the first `n` values of associated types of an impl.
pub open spec fn lower_associated_values_model(
    tb: Tables,
    d: Impl,
    impl_id: RawId,
    trait_id: RawId,
    value_ids: Seq<(RawId, String, RawId)>,
    n: nat,
) -> LowerResult<Seq<SpecDatum>>
    decreases n,
{
    if n == 0 || n > d.assoc_ty_values@.len() {
        Ok(Seq::empty())
    } else {
        match lower_associated_values_model(tb, d, impl_id, trait_id, value_ids, (n - 1) as nat) {
            Err(e) => Err(e),
            Ok(ds) => match lower_associated_value_model(
                tb,
                Seq::empty(),
                d,
                impl_id,
                trait_id,
                value_ids,
                d.assoc_ty_values@[n - 1],
            ) {
                Err(e) => Err(e),
                Ok(v) => Ok(ds.push(v)),
            },
        }
    }
}

/// What an item lowers to. An opaque type is lowered under the number
/// that its name has in the table.
#[verifier::opaque]
pub open spec fn lower_item_model(
    tb: Tables,
    value_ids: Seq<(RawId, String, RawId)>,
    item: Item,
    id: RawId,
) -> LowerResult<SpecProgramData> {
    let acc = no_data();
    match item {
        Item::AdtDefn(d) => match lower_adt_model(tb, Seq::empty(), d, id) {
            Err(e) => Err(e),
            Ok(datum) => Ok(SpecProgramData { data: acc.data.push(datum), ..acc }),
        },
        Item::FnDefn(d) => match lower_fn_def_model(tb, Seq::empty(), d, id) {
            Err(e) => Err(e),
            Ok(datum) => Ok(SpecProgramData { data: acc.data.push(datum), ..acc }),
        },
        Item::ClosureDefn(d) => match lower_closure_model(tb, Seq::empty(), d, id) {
            Err(e) => Err(e),
            Ok(datum) => Ok(SpecProgramData { data: acc.data.push(datum), ..acc }),
        },
        Item::TraitDefn(d) => match lower_trait_model(tb, Seq::empty(), d, id) {
            Err(e) => Err(e),
            Ok(datum) => match lower_associated_tys_model(tb, d, id, d.assoc_ty_defns@.len()) {
                Err(e) => Err(e),
                Ok(ds) => Ok(
                    SpecProgramData {
                        data: acc.data.push(datum) + ds,
                        well_known_traits: match d.well_known {
                            Some(w) => acc.well_known_traits.push((w, id)),
                            None => acc.well_known_traits,
                        },
                        ..acc
                    },
                ),
            },
        },
        Item::Impl(d) => match lower_impl_model(tb, Seq::empty(), d, id, value_ids) {
            Err(e) => Err(e),
            Ok(datum) => match lower_associated_values_model(
                tb,
                d,
                id,
                impl_trait(datum),
                value_ids,
                d.assoc_ty_values@.len(),
            ) {
                Err(e) => Err(e),
                Ok(ds) => Ok(SpecProgramData { data: acc.data.push(datum) + ds, ..acc }),
            },
        },
        Item::Clause(c) => match lower_clause_model(tb, Seq::empty(), c) {
            Err(e) => Err(e),
            Ok(cs) => Ok(SpecProgramData { custom_clauses: acc.custom_clauses + cs, ..acc }),
        },
        Item::OpaqueTyDefn(d) => match lookup(tb.opaque_ty_ids, d.name.text()) {
            None => Ok(acc),
            Some(found) => match lower_opaque_model(tb, Seq::empty(), d, found) {
                Err(e) => Err(e),
                Ok((datum, hidden)) => Ok(
                    SpecProgramData {
                        data: acc.data.push(datum),
                        hidden_opaque_types: acc.hidden_opaque_types.push((found, hidden)),
                        ..acc
                    },
                ),
            },
        },
        Item::Foreign(f) => Ok(
            SpecProgramData { foreign_ty_ids: acc.foreign_ty_ids.push((f.0.text(), id)), ..acc },
        ),
    }
}

/// What the first `n` items lower to: the first error, or all that they
/// add, in their order.
pub open spec fn lower_items_model(
    tb: Tables,
    value_ids: Seq<(RawId, String, RawId)>,
    items: Seq<Item>,
    n: nat,
) -> LowerResult<SpecProgramData>
    decreases n,
{
    if n == 0 || n > items.len() {
        Ok(no_data())
    } else {
        match lower_items_model(tb, value_ids, items, (n - 1) as nat) {
            Err(e) => Err(e),
            Ok(acc) => match lower_item_model(tb, value_ids, items[n - 1], raw_id(n - 1)) {
                Err(e) => Err(e),
                Ok(parts) => Ok(both(acc, parts)),
            },
        }
    }
}

/// A lowered program: the tables of its names, and what its items
/// lowered to.
#[derive(Debug)]
pub struct LoweredProgram {
    pub names: ProgramLowerer,
    pub data: Vec<Datum>,
    pub hidden_opaque_types: Vec<(RawId, Term)>,
    pub custom_clauses: Vec<Term>,
    pub well_known_traits: Vec<(WellKnownTrait, RawId)>,
    pub foreign_ty_ids: Vec<(String, RawId)>,
}

impl LoweredProgram {
    /// What the items of the program lowered to.
    pub open spec fn data_view(&self) -> SpecProgramData {
        SpecProgramData {
            data: datum_views(self.data@),
            hidden_opaque_types: hidden_views(self.hidden_opaque_types@),
            custom_clauses: views(self.custom_clauses@),
            well_known_traits: self.well_known_traits@,
            foreign_ty_ids: crate::lowering::lowerer::id_views(self.foreign_ty_ids@),
        }
    }

    /// Whether the tables of the program fit together.
    pub open spec fn wf(&self) -> bool {
        self.names.wf()
    }

    /// The tables in which a goal is lowered: those of the names of the
    /// program, with its foreign types.
    pub open spec fn goal_tables(&self) -> Tables {
        Tables {
            adt_ids: self.names.adt_ids@,
            adt_kinds: self.names.adt_kinds@,
            fn_def_ids: self.names.fn_def_ids@,
            fn_def_kinds: self.names.fn_def_kinds@,
            closure_ids: self.names.closure_ids@,
            closure_kinds: self.names.closure_kinds@,
            trait_ids: self.names.trait_ids@,
            trait_kinds: self.names.trait_kinds@,
            opaque_ty_ids: self.names.opaque_ty_ids@,
            opaque_ty_kinds: self.names.opaque_ty_kinds@,
            associated_ty_lookups: self.names.associated_ty_lookups@,
            auto_traits: self.names.auto_traits@,
            foreign_ty_ids: self.foreign_ty_ids@,
        }
    }
}

/// The tables without an entry.
pub open spec fn nothing_gathered() -> Gathered {
    Gathered {
        adt_ids: Seq::empty(),
        adt_kinds: Seq::empty(),
        fn_def_ids: Seq::empty(),
        fn_def_kinds: Seq::empty(),
        closure_ids: Seq::empty(),
        closure_kinds: Seq::empty(),
        trait_ids: Seq::empty(),
        trait_kinds: Seq::empty(),
        auto_traits: Seq::empty(),
        object_safe_traits: Seq::empty(),
        opaque_ty_ids: Seq::empty(),
        opaque_ty_kinds: Seq::empty(),
    }
}

/// The tables of associated types without an entry, where the items
/// have the numbers below `n`.
pub open spec fn nothing_associated(n: nat) -> Associated {
    Associated { lookups: Seq::empty(), value_ids: Seq::empty(), next: n }
}

/// Whether every item, associated type and value of the program can have
/// a number.
pub open spec fn numbers_fit(program: Program) -> bool {
    associated(nothing_associated(program.items@.len()), program.items@, program.items@.len()).next <= u32::MAX
}

/// Whether the tables are those that the names of the items make.
pub open spec fn names_of(names: ProgramLowerer, items: Seq<Item>) -> bool {
    &&& names.wf()
    &&& names.gathered_view() == gathered(nothing_gathered(), items, items.len())
    &&& names.associated_view(0).lookups == associated(nothing_associated(items.len()), items, items.len()).lookups
    &&& names.associated_view(0).value_ids == associated(
        nothing_associated(items.len()),
        items,
        items.len(),
    ).value_ids
    &&& names.foreign_ty_ids@.len() == 0
}

/// The tables of a lowerer.
pub open spec fn tables_of(names: ProgramLowerer) -> Tables {
    Tables {
        adt_ids: names.adt_ids@,
        adt_kinds: names.adt_kinds@,
        fn_def_ids: names.fn_def_ids@,
        fn_def_kinds: names.fn_def_kinds@,
        closure_ids: names.closure_ids@,
        closure_kinds: names.closure_kinds@,
        trait_ids: names.trait_ids@,
        trait_kinds: names.trait_kinds@,
        opaque_ty_ids: names.opaque_ty_ids@,
        opaque_ty_kinds: names.opaque_ty_kinds@,
        associated_ty_lookups: names.associated_ty_lookups@,
        auto_traits: names.auto_traits@,
        foreign_ty_ids: names.foreign_ty_ids@,
    }
}

/// Whether a result is what the program lowers to: the error of an auto
/// trait with associated types; else the first error among the items,
/// lowered with the names of all items in scope; else the tables of the
/// names and all that the items lower to.
pub open spec fn program_lowered(program: Program, r: LowerResult<LoweredProgram>) -> bool {
    match first_offender(program.items@, program.items@.len()) {
        Some(i) => r == Err::<LoweredProgram, RustIrError>(
            RustIrError::AutoTraitAssociatedTypes(offender_name(program.items@, i)),
        ),
        None => exists|names: ProgramLowerer| #[trigger]
            names_of(names, program.items@) && match lower_items_model(
                tables_of(names),
                names.associated_ty_value_ids@,
                program.items@,
                program.items@.len(),
            ) {
                Err(e) => r == Err::<LoweredProgram, RustIrError>(e),
                Ok(data) => r is Ok && r->Ok_0.names == names && r->Ok_0.data_view() == data,
            },
    }
}

/// An error among the first associated types is the error of the whole list.
proof fn lemma_associated_tys_error(tb: Tables, t: TraitDefn, trait_id: RawId, n: nat, m: nat)
    requires
        n <= m <= t.assoc_ty_defns@.len(),
        lower_associated_tys_model(tb, t, trait_id, n) is Err,
    ensures
        lower_associated_tys_model(tb, t, trait_id, m) == lower_associated_tys_model(tb, t, trait_id, n),
    decreases m,
{
    if m > n {
        lemma_associated_tys_error(tb, t, trait_id, n, (m - 1) as nat);
    }
}

/// An error among the first values is the error of the whole list.
proof fn lemma_associated_values_error(
    tb: Tables,
    d: Impl,
    impl_id: RawId,
    trait_id: RawId,
    value_ids: Seq<(RawId, String, RawId)>,
    n: nat,
    m: nat,
)
    requires
        n <= m <= d.assoc_ty_values@.len(),
        lower_associated_values_model(tb, d, impl_id, trait_id, value_ids, n) is Err,
    ensures
        lower_associated_values_model(tb, d, impl_id, trait_id, value_ids, m) == lower_associated_values_model(
            tb,
            d,
            impl_id,
            trait_id,
            value_ids,
            n,
        ),
    decreases m,
{
    if m > n {
        lemma_associated_values_error(tb, d, impl_id, trait_id, value_ids, n, (m - 1) as nat);
    }
}

/// An error among the first items is the error of the whole program.
proof fn lemma_items_error(tb: Tables, value_ids: Seq<(RawId, String, RawId)>, items: Seq<Item>, n: nat, m: nat)
    requires
        n <= m <= items.len(),
        lower_items_model(tb, value_ids, items, n) is Err,
    ensures
        lower_items_model(tb, value_ids, items, m) == lower_items_model(tb, value_ids, items, n),
    decreases m,
{
    if m > n {
        lemma_items_error(tb, value_ids, items, n, (m - 1) as nat);
    }
}

/// Appends the data of the associated types of a trait.
fn lower_associated_tys(env: &Env, t: &TraitDefn, trait_id: RawId, out: &mut Vec<Datum>) -> (r: LowerResult<()>)
    requires
        env.wf(),
        env.parameter_map@.len() == 0,
    ensures
        match lower_associated_tys_model(env.tables(), *t, trait_id, t.assoc_ty_defns@.len()) {
            Err(e) => r == Err::<(), RustIrError>(e),
            Ok(ds) => r is Ok && datum_views(final(out)@) == datum_views(old(out)@) + ds,
        },
{
    let ghost tb = env.tables();
    let ghost start = datum_views(out@);
    proof {
        assert(parameters(env.parameter_map@) =~= Seq::empty());
        assert(datum_views(out@) =~= start + Seq::empty());
    }
    let mut i: usize = 0;
    while i < t.assoc_ty_defns.len()
        invariant
            0 <= i <= t.assoc_ty_defns.len(),
            env.wf(),
            tb == env.tables(),
            parameters(env.parameter_map@) == Seq::<SpecParameter>::empty(),
            lower_associated_tys_model(tb, *t, trait_id, i as nat) is Ok,
            datum_views(out@) == start + lower_associated_tys_model(tb, *t, trait_id, i as nat)->Ok_0,
        decreases t.assoc_ty_defns.len() - i,
    {
        let ghost before = datum_views(out@);
        match lower_associated_ty(env, t, trait_id, &t.assoc_ty_defns[i]) {
            Err(e) => {
                proof {
                    lemma_associated_tys_error(tb, *t, trait_id, (i + 1) as nat, t.assoc_ty_defns@.len());
                }
                return Err(e);
            },
            Ok(d) => {
                out.push(d);
                proof {
                    assert(datum_views(out@) =~= before.push(d@));
                    let ds = lower_associated_tys_model(tb, *t, trait_id, i as nat)->Ok_0;
                    assert(start + ds.push(d@) =~= (start + ds).push(d@));
                }
            },
        }
        i += 1;
    }
    Ok(())
}

/// Appends the data of the values that an impl gives associated types.
fn lower_associated_values(
    env: &Env,
    d: &Impl,
    impl_id: RawId,
    trait_id: RawId,
    value_ids: &Vec<(RawId, String, RawId)>,
    out: &mut Vec<Datum>,
) -> (r: LowerResult<()>)
    requires
        env.wf(),
        env.parameter_map@.len() == 0,
    ensures
        match lower_associated_values_model(
            env.tables(),
            *d,
            impl_id,
            trait_id,
            value_ids@,
            d.assoc_ty_values@.len(),
        ) {
            Err(e) => r == Err::<(), RustIrError>(e),
            Ok(ds) => r is Ok && datum_views(final(out)@) == datum_views(old(out)@) + ds,
        },
{
    let ghost tb = env.tables();
    let ghost start = datum_views(out@);
    proof {
        assert(parameters(env.parameter_map@) =~= Seq::empty());
        assert(datum_views(out@) =~= start + Seq::empty());
    }
    let mut i: usize = 0;
    while i < d.assoc_ty_values.len()
        invariant
            0 <= i <= d.assoc_ty_values.len(),
            env.wf(),
            tb == env.tables(),
            parameters(env.parameter_map@) == Seq::<SpecParameter>::empty(),
            lower_associated_values_model(tb, *d, impl_id, trait_id, value_ids@, i as nat) is Ok,
            datum_views(out@) == start + lower_associated_values_model(
                tb,
                *d,
                impl_id,
                trait_id,
                value_ids@,
                i as nat,
            )->Ok_0,
        decreases d.assoc_ty_values.len() - i,
    {
        let ghost before = datum_views(out@);
        match lower_associated_value(env, d, impl_id, trait_id, value_ids, &d.assoc_ty_values[i]) {
            Err(e) => {
                proof {
                    lemma_associated_values_error(
                        tb,
                        *d,
                        impl_id,
                        trait_id,
                        value_ids@,
                        (i + 1) as nat,
                        d.assoc_ty_values@.len(),
                    );
                }
                return Err(e);
            },
            Ok(v) => {
                out.push(v);
                proof {
                    assert(datum_views(out@) =~= before.push(v@));
                    let ds = lower_associated_values_model(tb, *d, impl_id, trait_id, value_ids@, i as nat)->Ok_0;
                    assert(start + ds.push(v@) =~= (start + ds).push(v@));
                }
            },
        }
        i += 1;
    }
    Ok(())
}

/// The trait that the datum of an impl is for.
pub fn trait_of_impl(d: &Datum) -> (r: RawId)
    requires
        d@.term.args.len() == 2,
        d@.term.args[1].args.len() == 2,
    ensures
        r == impl_trait(d@),
{
    proof {
        lemma_view_args(d.term);
        lemma_view_args(d.term.args@[1]);
    }
    trait_id_of(&d.term.args[1].args[0])
}

/// Lowers one item into a program that holds nothing yet.
fn lower_item(env: &Env, value_ids: &Vec<(RawId, String, RawId)>, item: &Item, id: RawId, acc: &mut LoweredProgram) -> (r:
    LowerResult<()>)
    requires
        env.wf(),
        env.parameter_map@.len() == 0,
        old(acc).data_view() == no_data(),
    ensures
        final(acc).names == old(acc).names,
        match lower_item_model(env.tables(), value_ids@, *item, id) {
            Err(e) => r == Err::<(), RustIrError>(e),
            Ok(data) => r is Ok && final(acc).data_view() == data,
        },
{
    proof {
        reveal(lower_item_model);
        assert(parameters(env.parameter_map@) =~= Seq::empty());
    }
    match item {
        Item::AdtDefn(d) => {
            let datum = lower_adt(d, id, env)?;
            acc.data.push(datum);
            proof {
                assert(datum_views(acc.data@) =~= datum_views(old(acc).data@).push(datum@));
            }
        },
        Item::FnDefn(d) => {
            let datum = lower_fn_def(d, id, env)?;
            acc.data.push(datum);
            proof {
                assert(datum_views(acc.data@) =~= datum_views(old(acc).data@).push(datum@));
            }
        },
        Item::ClosureDefn(d) => {
            let datum = lower_closure(d, id, env)?;
            acc.data.push(datum);
            proof {
                assert(datum_views(acc.data@) =~= datum_views(old(acc).data@).push(datum@));
            }
        },
        Item::TraitDefn(d) => {
            let datum = lower_trait(d, id, env)?;
            let mut more: Vec<Datum> = Vec::new();
            proof {
                assert(datum_views(more@) =~= Seq::empty());
            }
            lower_associated_tys(env, d, id, &mut more)?;
            let ghost ds = datum_views(more@);
            let ghost first = datum@;
            acc.data.push(datum);
            proof {
                assert(datum_views(acc.data@) =~= datum_views(old(acc).data@).push(first));
            }
            append_data(&mut acc.data, more);
            match d.well_known {
                Some(w) => {
                    acc.well_known_traits.push((w, id));
                },
                None => {},
            }
            proof {
                assert(Seq::<SpecDatum>::empty() + ds =~= ds);
            }
        },
        Item::Impl(d) => {
            let datum = lower_impl(d, env, id, value_ids)?;
            proof {
                let tr = lower_trait_ref_model(
                    env.tables(),
                    introduced(Seq::empty(), declared(d.variable_kinds@)),
                    d.trait_ref,
                )->Ok_0;
                assert(datum@.term.args[1] == list(seq![tr, datum@.term.args[1].args[1]]));
            }
            let trait_id = trait_of_impl(&datum);
            let mut more: Vec<Datum> = Vec::new();
            proof {
                assert(datum_views(more@) =~= Seq::empty());
            }
            lower_associated_values(env, d, id, trait_id, value_ids, &mut more)?;
            let ghost ds = datum_views(more@);
            let ghost first = datum@;
            acc.data.push(datum);
            proof {
                assert(datum_views(acc.data@) =~= datum_views(old(acc).data@).push(first));
            }
            append_data(&mut acc.data, more);
            proof {
                assert(Seq::<SpecDatum>::empty() + ds =~= ds);
            }
        },
        Item::Clause(c) => {
            let cs = lower_clause(env, c)?;
            append_terms(&mut acc.custom_clauses, cs);
        },
        Item::OpaqueTyDefn(d) => {
            match table_get(env.opaque_ty_ids, &d.name.str) {
                None => {},
                Some(found) => {
                    let (datum, hidden) = lower_opaque(env, d, found)?;
                    acc.data.push(datum);
                    acc.hidden_opaque_types.push((found, hidden));
                    proof {
                        assert(datum_views(acc.data@) =~= datum_views(old(acc).data@).push(datum@));
                        assert(hidden_views(acc.hidden_opaque_types@) =~= hidden_views(
                            old(acc).hidden_opaque_types@,
                        ).push((found, hidden@)));
                    }
                },
            }
        },
        Item::Foreign(f) => {
            acc.foreign_ty_ids.push((f.0.str.clone(), id));
            proof {
                assert(crate::lowering::lowerer::id_views(acc.foreign_ty_ids@)
                    =~= crate::lowering::lowerer::id_views(old(acc).foreign_ty_ids@).push((f.0.text(), id)));
            }
        },
    }
    Ok(())
}

/// Moves the data of `from` to the end of `to`.
pub fn append_data(to: &mut Vec<Datum>, from: Vec<Datum>)
    ensures
        datum_views(final(to)@) == datum_views(old(to)@) + datum_views(from@),
{
    let mut from = from;
    let ghost all = datum_views(from@);
    let mut rev: Vec<Datum> = Vec::new();
    while from.len() > 0
        invariant
            from.len() + rev.len() == all.len(),
            forall|j: int| 0 <= j < from.len() ==> (#[trigger] from@[j])@ == all[j],
            forall|j: int| 0 <= j < rev.len() ==> (#[trigger] rev@[j])@ == all[all.len() - 1 - j],
        decreases from.len(),
    {
        let t = from.pop().unwrap();
        rev.push(t);
    }
    let ghost start = datum_views(to@);
    while rev.len() > 0
        invariant
            rev.len() <= all.len(),
            forall|j: int| 0 <= j < rev.len() ==> (#[trigger] rev@[j])@ == all[all.len() - 1 - j],
            datum_views(to@) == start + all.subrange(0, all.len() - rev.len()),
        decreases rev.len(),
    {
        let ghost before = datum_views(to@);
        let ghost k = all.len() - rev.len();
        let t = rev.pop().unwrap();
        to.push(t);
        proof {
            assert(t@ == all[k]);
            assert(datum_views(to@) =~= before.push(t@));
            assert(start + all.subrange(0, k + 1) =~= (start + all.subrange(0, k)).push(all[k]));
        }
    }
    proof {
        assert(all.subrange(0, all.len() as int) =~= all);
    }
}

/// Lowers a program: gathers the names of its items, then lowers each
/// item with all the names in scope.
pub fn lower_program(program: &Program) -> (r: LowerResult<LoweredProgram>)
    requires
        numbers_fit(*program),
    ensures
        program_lowered(*program, r),
{
    let mut lowerer = ProgramLowerer::new();
    proof {
        assert(lowerer.gathered_view().adt_ids =~= Seq::empty());
        assert(lowerer.gathered_view().adt_kinds =~= Seq::empty());
        assert(lowerer.gathered_view().fn_def_ids =~= Seq::empty());
        assert(lowerer.gathered_view().fn_def_kinds =~= Seq::empty());
        assert(lowerer.gathered_view().closure_ids =~= Seq::empty());
        assert(lowerer.gathered_view().closure_kinds =~= Seq::empty());
        assert(lowerer.gathered_view().trait_ids =~= Seq::empty());
        assert(lowerer.gathered_view().trait_kinds =~= Seq::empty());
        assert(lowerer.gathered_view().auto_traits =~= Seq::empty());
        assert(lowerer.gathered_view().object_safe_traits =~= Seq::empty());
        assert(lowerer.gathered_view().opaque_ty_ids =~= Seq::empty());
        assert(lowerer.gathered_view().opaque_ty_kinds =~= Seq::empty());
        assert(lowerer.gathered_view() == nothing_gathered());
        assert(lowerer.associated_view(program.items@.len()).lookups =~= Seq::empty());
        assert(lowerer.associated_view(program.items@.len()).value_ids =~= Seq::empty());
        assert(lowerer.associated_view(program.items@.len()) == nothing_associated(program.items@.len()));
        assert(lowerer.wf());
    }
    let raw_ids = match lowerer.gather_ids(program) {
        Err(e) => {
            return Err(e);
        },
        Ok(raw_ids) => raw_ids,
    };
    let ghost names = lowerer;
    let ghost tb = tables_of(names);
    let ghost vids = names.associated_ty_value_ids@;
    proof {
        assert(names_of(names, program.items@));
    }
    let mut lowered = LoweredProgram {
        names: lowerer,
        data: Vec::new(),
        hidden_opaque_types: Vec::new(),
        custom_clauses: Vec::new(),
        well_known_traits: Vec::new(),
        foreign_ty_ids: Vec::new(),
    };
    proof {
        assert(lowered.data_view().data =~= Seq::empty());
        assert(lowered.data_view().hidden_opaque_types =~= Seq::empty());
        assert(lowered.data_view().custom_clauses =~= Seq::empty());
        assert(lowered.data_view().well_known_traits =~= Seq::empty());
        assert(lowered.data_view().foreign_ty_ids =~= Seq::empty());
    }
    let mut i: usize = 0;
    while i < program.items.len()
        invariant
            0 <= i <= program.items.len(),
            raw_ids@ == Seq::new(program.items@.len(), |j: int| raw_id(j)),
            lowered.names == names,
            names_of(names, program.items@),
            first_offender(program.items@, program.items@.len()) is None,
            tb == tables_of(names),
            vids == names.associated_ty_value_ids@,
            lower_items_model(tb, vids, program.items@, i as nat) == Ok::<SpecProgramData, RustIrError>(
                lowered.data_view(),
            ),
        decreases program.items.len() - i,
    {
        let step = {
            let env = Env::from_lowerer(&lowered.names);
            proof {
                assert(env.tables() == tb);
            }
            let mut parts = LoweredProgram {
                names: ProgramLowerer::new(),
                data: Vec::new(),
                hidden_opaque_types: Vec::new(),
                custom_clauses: Vec::new(),
                well_known_traits: Vec::new(),
                foreign_ty_ids: Vec::new(),
            };
            proof {
                assert(parts.data_view().data =~= Seq::empty());
                assert(parts.data_view().hidden_opaque_types =~= Seq::empty());
                assert(parts.data_view().custom_clauses =~= Seq::empty());
                assert(parts.data_view().well_known_traits =~= Seq::empty());
                assert(parts.data_view().foreign_ty_ids =~= Seq::empty());
                assert(parts.data_view() == no_data());
            }
            match lower_item(&env, &lowered.names.associated_ty_value_ids, &program.items[i], raw_ids[i], &mut parts) {
                Err(e) => Err(e),
                Ok(()) => Ok(parts),
            }
        };
        match step {
            Err(e) => {
                proof {
                    lemma_items_error(tb, vids, program.items@, (i + 1) as nat, program.items@.len());
                    assert(lower_items_model(tb, vids, program.items@, program.items@.len()) == Err::<
                        SpecProgramData,
                        RustIrError,
                    >(e));
                    assert(names_of(names, program.items@));
                }
                return Err(e);
            },
            Ok(parts) => {
                let ghost acc0 = lowered.data_view();
                let ghost parts0 = parts.data_view();
                let LoweredProgram { names: _, data, hidden_opaque_types, custom_clauses, well_known_traits, foreign_ty_ids } =
                    parts;
                append_data(&mut lowered.data, data);
                append_hidden(&mut lowered.hidden_opaque_types, hidden_opaque_types);
                append_terms(&mut lowered.custom_clauses, custom_clauses);
                append_well_known(&mut lowered.well_known_traits, well_known_traits);
                append_names(&mut lowered.foreign_ty_ids, foreign_ty_ids);
                proof {
                    assert(lowered.data_view() == both(acc0, parts0));
                }
            },
        }
        i += 1;
    }
    proof {
        assert(names_of(names, program.items@));
    }
    Ok(lowered)
}

/// What the items lowered to, with nothing in it.
pub open spec fn no_data() -> SpecProgramData {
    SpecProgramData {
        data: Seq::empty(),
        hidden_opaque_types: Seq::empty(),
        custom_clauses: Seq::empty(),
        well_known_traits: Seq::empty(),
        foreign_ty_ids: Seq::empty(),
    }
}

/// What two runs of items lowered to, one after the other.
pub open spec fn both(a: SpecProgramData, b: SpecProgramData) -> SpecProgramData {
    SpecProgramData {
        data: a.data + b.data,
        hidden_opaque_types: a.hidden_opaque_types + b.hidden_opaque_types,
        custom_clauses: a.custom_clauses + b.custom_clauses,
        well_known_traits: a.well_known_traits + b.well_known_traits,
        foreign_ty_ids: a.foreign_ty_ids + b.foreign_ty_ids,
    }
}

/// Moves the hidden types of `from` to the end of `to`.
fn append_hidden(to: &mut Vec<(RawId, Term)>, from: Vec<(RawId, Term)>)
    ensures
        hidden_views(final(to)@) == hidden_views(old(to)@) + hidden_views(from@),
{
    let mut from = from;
    let ghost all = hidden_views(from@);
    let mut rev: Vec<(RawId, Term)> = Vec::new();
    while from.len() > 0
        invariant
            from.len() + rev.len() == all.len(),
            forall|j: int| 0 <= j < from.len() ==> hidden_views(from@)[j] == all[j],
            forall|j: int| 0 <= j < rev.len() ==> hidden_views(rev@)[j] == all[all.len() - 1 - j],
        decreases from.len(),
    {
        let ghost f0 = hidden_views(from@);
        let ghost r0 = hidden_views(rev@);
        let t = from.pop().unwrap();
        rev.push(t);
        proof {
            assert forall|j: int| 0 <= j < from.len() implies hidden_views(from@)[j] == all[j] by {
                assert(hidden_views(from@)[j] == f0[j]);
            }
            assert forall|j: int| 0 <= j < rev.len() implies hidden_views(rev@)[j] == all[all.len() - 1 - j] by {
                if j < rev.len() - 1 {
                    assert(hidden_views(rev@)[j] == r0[j]);
                } else {
                    assert(hidden_views(rev@)[j] == f0[f0.len() - 1]);
                }
            }
        }
    }
    let ghost start = hidden_views(to@);
    while rev.len() > 0
        invariant
            rev.len() <= all.len(),
            forall|j: int| 0 <= j < rev.len() ==> hidden_views(rev@)[j] == all[all.len() - 1 - j],
            hidden_views(to@) == start + all.subrange(0, all.len() - rev.len()),
        decreases rev.len(),
    {
        let ghost before = hidden_views(to@);
        let ghost r0 = hidden_views(rev@);
        let ghost k = all.len() - rev.len();
        let t = rev.pop().unwrap();
        to.push(t);
        proof {
            assert(r0[r0.len() - 1] == (t.0, t.1@));
            assert(hidden_views(to@) =~= before.push((t.0, t.1@)));
            assert(start + all.subrange(0, k + 1) =~= (start + all.subrange(0, k)).push(all[k]));
            assert forall|j: int| 0 <= j < rev.len() implies hidden_views(rev@)[j] == all[all.len() - 1 - j] by {
                assert(hidden_views(rev@)[j] == r0[j]);
            }
        }
    }
    proof {
        assert(all.subrange(0, all.len() as int) =~= all);
    }
}

/// Copies the well-known traits of `from` to the end of `to`.
fn append_well_known(to: &mut Vec<(WellKnownTrait, RawId)>, from: Vec<(WellKnownTrait, RawId)>)
    ensures
        final(to)@ == old(to)@ + from@,
{
    let mut i: usize = 0;
    while i < from.len()
        invariant
            0 <= i <= from.len(),
            to@ == old(to)@ + from@.subrange(0, i as int),
        decreases from.len() - i,
    {
        let ghost before = to@;
        to.push(from[i]);
        proof {
            assert(old(to)@ + from@.subrange(0, i + 1) =~= (old(to)@ + from@.subrange(0, i as int)).push(
                from@[i as int],
            ));
        }
        i += 1;
    }
    proof {
        assert(from@.subrange(0, from@.len() as int) =~= from@);
    }
}

/// Copies the names of `from` to the end of `to`.
fn append_names(to: &mut Vec<(String, RawId)>, from: Vec<(String, RawId)>)
    ensures
        crate::lowering::lowerer::id_views(final(to)@) == crate::lowering::lowerer::id_views(old(to)@)
            + crate::lowering::lowerer::id_views(from@),
{
    let ghost start = crate::lowering::lowerer::id_views(to@);
    let ghost all = crate::lowering::lowerer::id_views(from@);
    let mut i: usize = 0;
    while i < from.len()
        invariant
            0 <= i <= from.len(),
            all == crate::lowering::lowerer::id_views(from@),
            crate::lowering::lowerer::id_views(to@) == start + all.subrange(0, i as int),
        decreases from.len() - i,
    {
        let ghost before = crate::lowering::lowerer::id_views(to@);
        to.push((from[i].0.clone(), from[i].1));
        proof {
            assert(crate::lowering::lowerer::id_views(to@) =~= before.push(all[i as int]));
            assert(start + all.subrange(0, i + 1) =~= (start + all.subrange(0, i as int)).push(all[i as int]));
        }
        i += 1;
    }
    proof {
        assert(all.subrange(0, all.len() as int) =~= all);
    }
}

/// Lowers a goal with the names of a lowered program in scope.
pub fn lower_goal(goal: &Goal, program: &LoweredProgram) -> (r: LowerResult<Term>)
    requires
        program.wf(),
    ensures
        lowered(r, lower_goal_model(program.goal_tables(), Seq::empty(), *goal)),
{
    let env = Env {
        adt_ids: &program.names.adt_ids,
        adt_kinds: &program.names.adt_kinds,
        fn_def_ids: &program.names.fn_def_ids,
        fn_def_kinds: &program.names.fn_def_kinds,
        closure_ids: &program.names.closure_ids,
        closure_kinds: &program.names.closure_kinds,
        trait_ids: &program.names.trait_ids,
        trait_kinds: &program.names.trait_kinds,
        opaque_ty_ids: &program.names.opaque_ty_ids,
        opaque_ty_kinds: &program.names.opaque_ty_kinds,
        associated_ty_lookups: &program.names.associated_ty_lookups,
        auto_traits: &program.names.auto_traits,
        foreign_ty_ids: &program.foreign_ty_ids,
        parameter_map: Vec::new(),
    };
    proof {
        assert(parameters(env.parameter_map@) =~= Seq::empty());
        assert(env.tables() == program.goal_tables());
    }
    lower_goal_in(&env, goal)
}

} // verus!
