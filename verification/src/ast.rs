//! The syntax of programs and goals, as a parser hands it over.

use vstd::prelude::*;
use crate::symbol::Mutability;
use crate::symbol::Safety;
use crate::symbol::Scalar;

verus! {

/// A name as it is written in the source.
#[derive(Debug)]
pub struct Identifier {
    pub str: String,
}

impl Identifier {
    /// The characters of the name.
    pub open spec fn text(self) -> Seq<char> {
        self.str@
    }

    /// A copy of the name.
    pub fn clone_identifier(&self) -> (r: Identifier)
        ensures
            r == *self,
    {
        Identifier { str: self.str.clone() }
    }
}

/// A declared parameter.
#[derive(Debug)]
pub enum VariableKind {
    Ty(Identifier),
    IntegerTy(Identifier),
    FloatTy(Identifier),
    Lifetime(Identifier),
    Const(Identifier),
}

/// A program: its items in the order in which they are written.
#[derive(Debug)]
pub struct Program {
    pub items: Vec<Item>,
}

/// One item of a program.
#[derive(Debug)]
pub enum Item {
    AdtDefn(AdtDefn),
    FnDefn(FnDefn),
    ClosureDefn(ClosureDefn),
    TraitDefn(TraitDefn),
    OpaqueTyDefn(OpaqueTyDefn),
    Impl(Impl),
    Clause(Clause),
    Foreign(ForeignDefn),
}

/// A foreign type: `extern type Name;`.
#[derive(Debug)]
pub struct ForeignDefn(pub Identifier);

/// Whether an adt is a struct, an enum or a union.
#[derive(Clone, Copy, PartialEq, Eq, Structural, Debug)]
pub enum AdtKind {
    Struct,
    Enum,
    Union,
}

/// What is declared of an adt besides its parameters and fields.
#[derive(Clone, Copy, PartialEq, Eq, Structural, Debug)]
pub struct AdtFlags {
    pub upstream: bool,
    pub fundamental: bool,
    pub phantom_data: bool,
    pub kind: AdtKind,
}

/// The layout that an adt asks for.
#[derive(Clone, Copy, PartialEq, Eq, Structural, Debug)]
pub struct AdtRepr {
    pub repr_c: bool,
    pub repr_packed: bool,
}

/// A field of a variant.
#[derive(Debug)]
pub struct Field {
    pub name: Identifier,
    pub ty: Ty,
}

/// A variant of an adt.
#[derive(Debug)]
pub struct Variant {
    pub name: Identifier,
    pub fields: Vec<Field>,
}

/// The definition of a struct, an enum or a union.
#[derive(Debug)]
pub struct AdtDefn {
    pub name: Identifier,
    pub variable_kinds: Vec<VariableKind>,
    pub where_clauses: Vec<QuantifiedWhereClause>,
    pub variants: Vec<Variant>,
    pub flags: AdtFlags,
    pub repr: AdtRepr,
}

/// The calling convention of a function, as written.
#[derive(Debug)]
pub struct FnAbi(pub String);

/// The calling convention, safety and variadicity of a function.
#[derive(Debug)]
pub struct FnSig {
    pub abi: FnAbi,
    pub safety: Safety,
    pub variadic: bool,
}

/// The definition of a function.
#[derive(Debug)]
pub struct FnDefn {
    pub name: Identifier,
    pub variable_kinds: Vec<VariableKind>,
    pub where_clauses: Vec<QuantifiedWhereClause>,
    pub argument_types: Vec<Ty>,
    pub return_type: Ty,
    pub sig: FnSig,
}

/// Which of the closure traits a closure implements.
#[derive(Clone, Copy, PartialEq, Eq, Structural, Debug)]
pub enum ClosureKind {
    Fn,
    FnMut,
    FnOnce,
}

/// The definition of a closure.
#[derive(Debug)]
pub struct ClosureDefn {
    pub name: Identifier,
    pub kind: ClosureKind,
    pub argument_types: Vec<Ty>,
    pub return_type: Ty,
    pub variable_kinds: Vec<VariableKind>,
    pub upvars: Vec<Ty>,
}

/// What is declared of a trait besides its parameters.
#[derive(Clone, Copy, PartialEq, Eq, Structural, Debug)]
pub struct TraitFlags {
    pub auto: bool,
    pub marker: bool,
    pub upstream: bool,
    pub fundamental: bool,
    pub non_enumerable: bool,
    pub coinductive: bool,
    pub object_safe: bool,
}

/// The traits that the solver knows by name.
#[derive(Clone, Copy, PartialEq, Eq, Structural, Debug)]
pub enum WellKnownTrait {
    Sized,
    Copy,
    Clone,
    Drop,
    FnOnce,
    FnMut,
    Fn,
    Unsize,
}

/// The declaration of an associated type in a trait.
#[derive(Debug)]
pub struct AssocTyDefn {
    pub name: Identifier,
    pub variable_kinds: Vec<VariableKind>,
    pub bounds: Vec<QuantifiedInlineBound>,
    pub where_clauses: Vec<QuantifiedWhereClause>,
}

/// The definition of a trait.
#[derive(Debug)]
pub struct TraitDefn {
    pub name: Identifier,
    pub variable_kinds: Vec<VariableKind>,
    pub where_clauses: Vec<QuantifiedWhereClause>,
    pub assoc_ty_defns: Vec<AssocTyDefn>,
    pub flags: TraitFlags,
    pub well_known: Option<WellKnownTrait>,
}

/// The definition of an opaque type: `opaque type Name<..>: Bounds = Hidden;`.
#[derive(Debug)]
pub struct OpaqueTyDefn {
    pub ty: Ty,
    pub variable_kinds: Vec<VariableKind>,
    pub name: Identifier,
    pub bounds: Vec<QuantifiedInlineBound>,
    pub where_clauses: Vec<QuantifiedWhereClause>,
}

/// Whether an impl says that a trait is implemented or that it is not.
#[derive(Clone, Copy, PartialEq, Eq, Structural, Debug)]
pub enum Polarity {
    Positive,
    Negative,
}

/// Whether an impl is of the current crate.
#[derive(Clone, Copy, PartialEq, Eq, Structural, Debug)]
pub enum ImplType {
    Local,
    External,
}

/// The value that an impl gives an associated type.
#[derive(Debug)]
pub struct AssocTyValue {
    pub name: Identifier,
    pub variable_kinds: Vec<VariableKind>,
    pub value: Ty,
    pub default: bool,
}

/// An impl of a trait for a type.
#[derive(Debug)]
pub struct Impl {
    pub variable_kinds: Vec<VariableKind>,
    pub trait_ref: TraitRef,
    pub polarity: Polarity,
    pub where_clauses: Vec<QuantifiedWhereClause>,
    pub assoc_ty_values: Vec<AssocTyValue>,
    pub impl_type: ImplType,
}

/// A generic argument; a bare name may be of any sort.
#[derive(Debug)]
pub enum GenericArg {
    Ty(Ty),
    Lifetime(Lifetime),
    Id(Identifier),
    Const(Const),
}

/// A constant: a name or a value.
#[derive(Debug)]
pub enum Const {
    Id(Identifier),
    Value(u32),
}

/// A lifetime: a name.
#[derive(Debug)]
pub enum Lifetime {
    Id { name: Identifier },
}

/// A type.
#[derive(Debug)]
#[allow(inconsistent_fields)]
pub enum Ty {
    Id { name: Identifier },
    Dyn { bounds: Vec<QuantifiedInlineBound>, lifetime: Lifetime },
    Apply { name: Identifier, args: Vec<GenericArg> },
    Projection { proj: ProjectionTy },
    ForAll { lifetime_names: Vec<Identifier>, types: Vec<Ty>, sig: FnSig },
    Tuple { types: Vec<Ty> },
    Scalar { ty: Scalar },
    Slice { ty: Box<Ty> },
    Array { ty: Box<Ty>, len: Const },
    Raw { mutability: Mutability, ty: Box<Ty> },
    Ref { mutability: Mutability, lifetime: Lifetime, ty: Box<Ty> },
    Str,
    Never,
}

/// A projection: `<T as Trait>::Name<args>`.
#[derive(Debug)]
pub struct ProjectionTy {
    pub trait_ref: TraitRef,
    pub name: Identifier,
    pub args: Vec<GenericArg>,
}

/// A trait reference: the trait, the type it is asked of, and the
/// arguments of the trait.
#[derive(Debug)]
pub struct TraitRef {
    pub trait_name: Identifier,
    pub self_ty: Box<Ty>,
    pub args: Vec<GenericArg>,
}

/// A bound `Trait<args>` on a type that is not named.
#[derive(Debug)]
pub struct TraitBound {
    pub trait_name: Identifier,
    pub args_no_self: Vec<GenericArg>,
}

/// A bound `Trait<args, Name<args> = Value>` on a type that is not named.
#[derive(Debug)]
pub struct AliasEqBound {
    pub trait_bound: TraitBound,
    pub name: Identifier,
    pub args: Vec<GenericArg>,
    pub value: Ty,
}

/// A bound on a type that is not named.
#[derive(Debug)]
pub enum InlineBound {
    TraitBound(TraitBound),
    AliasEqBound(AliasEqBound),
}

/// A bound under a binder: `forall<..> Bound`.
#[derive(Debug)]
pub struct QuantifiedInlineBound {
    pub variable_kinds: Vec<VariableKind>,
    pub bound: InlineBound,
}

/// A where clause.
#[derive(Debug)]
#[allow(inconsistent_fields)]
pub enum WhereClause {
    Implemented { trait_ref: TraitRef },
    ProjectionEq { projection: ProjectionTy, ty: Ty },
    LifetimeOutlives { a: Lifetime, b: Lifetime },
    TypeOutlives { ty: Ty, lifetime: Lifetime },
}

/// A where clause under a binder: `forall<..> WhereClause`.
#[derive(Debug)]
pub struct QuantifiedWhereClause {
    pub variable_kinds: Vec<VariableKind>,
    pub where_clause: WhereClause,
}

/// An atomic fact.
#[derive(Debug)]
#[allow(inconsistent_fields)]
pub enum DomainGoal {
    Holds { where_clause: WhereClause },
    Normalize { projection: ProjectionTy, ty: Ty },
    TyWellFormed { ty: Ty },
    TraitRefWellFormed { trait_ref: TraitRef },
    TyFromEnv { ty: Ty },
    TraitRefFromEnv { trait_ref: TraitRef },
    IsLocal { ty: Ty },
    IsUpstream { ty: Ty },
    IsFullyVisible { ty: Ty },
    LocalImplAllowed { trait_ref: TraitRef },
    Compatible,
    DownstreamType { ty: Ty },
    Reveal,
    ObjectSafe { id: Identifier },
}

/// A goal without sub-goals: an atomic fact or an equation.
#[derive(Debug)]
pub enum LeafGoal {
    DomainGoal { goal: DomainGoal },
    UnifyGenericArgs { a: GenericArg, b: GenericArg },
}

/// A goal.
#[derive(Debug)]
pub enum Goal {
    ForAll(Vec<VariableKind>, Box<Goal>),
    Exists(Vec<VariableKind>, Box<Goal>),
    Implies(Vec<Clause>, Box<Goal>),
    And(Box<Goal>, Vec<Goal>),
    Not(Box<Goal>),
    /// The goal holds in every compatible extension of the program.
    Compatible(Box<Goal>),
    Leaf(LeafGoal),
}

/// A clause: `forall<..> { consequence if conditions }`.
#[derive(Debug)]
pub struct Clause {
    pub variable_kinds: Vec<VariableKind>,
    pub consequence: DomainGoal,
    pub conditions: Vec<Goal>,
}

} // verus!
