//! The symbols that head a term.

use vstd::prelude::*;

verus! {

/// The sort of a term that can stand for a generic argument.
#[derive(Clone, Copy, PartialEq, Eq, Structural, Debug)]
pub enum Kind {
    Ty,
    Lifetime,
    Const,
}

/// The kind of a variable that a binder introduces.
#[derive(Clone, Copy, PartialEq, Eq, Structural, Debug)]
pub enum VariableKind {
    Ty,
    IntegerTy,
    FloatTy,
    Lifetime,
    Const,
}

impl VariableKind {
    /// The sort of the terms that may fill a slot of this kind.
    pub open spec fn sort(self) -> Kind {
        match self {
            VariableKind::Ty => Kind::Ty,
            VariableKind::IntegerTy => Kind::Ty,
            VariableKind::FloatTy => Kind::Ty,
            VariableKind::Lifetime => Kind::Lifetime,
            VariableKind::Const => Kind::Const,
        }
    }

    /// The sort of the terms that may fill a slot of this kind.
    pub fn kind(&self) -> (k: Kind)
        ensures
            k == self.sort(),
    {
        match self {
            VariableKind::Ty => Kind::Ty,
            VariableKind::IntegerTy => Kind::Ty,
            VariableKind::FloatTy => Kind::Ty,
            VariableKind::Lifetime => Kind::Lifetime,
            VariableKind::Const => Kind::Const,
        }
    }
}

/// The signed integer types.
#[derive(Clone, Copy, PartialEq, Eq, Structural, Debug)]
pub enum IntTy {
    Isize,
    I8,
    I16,
    I32,
    I64,
    I128,
}

/// The unsigned integer types.
#[derive(Clone, Copy, PartialEq, Eq, Structural, Debug)]
pub enum UintTy {
    Usize,
    U8,
    U16,
    U32,
    U64,
    U128,
}

/// The floating point types.
#[derive(Clone, Copy, PartialEq, Eq, Structural, Debug)]
pub enum FloatTy {
    F32,
    F64,
}

/// The scalar types.
#[derive(Clone, Copy, PartialEq, Eq, Structural, Debug)]
pub enum Scalar {
    Bool,
    Char,
    Int(IntTy),
    Uint(UintTy),
    Float(FloatTy),
}

/// Whether a pointer may be written through.
#[derive(Clone, Copy, PartialEq, Eq, Structural, Debug)]
pub enum Mutability {
    Mut,
    Not,
}

/// Whether a function is safe to call.
#[derive(Clone, Copy, PartialEq, Eq, Structural, Debug)]
pub enum Safety {
    Safe,
    Unsafe,
}

/// The calling conventions.
#[derive(Clone, Copy, PartialEq, Eq, Structural, Debug)]
pub enum FnAbi {
    Rust,
    C,
}

/// The name of an applied type constructor.
#[derive(Clone, Copy, PartialEq, Eq, Structural, Debug)]
pub enum TypeName {
    Adt(u32),
    FnDef(u32),
    Closure(u32),
    Foreign(u32),
    /// The placeholder that stands for an opaque type whose hidden type is not revealed.
    OpaqueType(u32),
    /// The placeholder that stands for an associated type that no implementation fixes.
    AssociatedType(u32),
    Tuple(usize),
    Scalar(Scalar),
    Array,
    Slice,
    Raw(Mutability),
    Ref(Mutability),
    Str,
    Never,
}

/// The predicate of an atomic fact.
#[derive(Clone, Copy, PartialEq, Eq, Structural, Debug)]
pub enum Predicate {
    /// `Implemented(trait)`; the arguments are the self type and the trait's parameters.
    Implemented(u32),
    /// The arguments are an alias type and the type it equals.
    AliasEq,
    /// The arguments are an alias type and the type it normalizes to.
    Normalize,
    LifetimeOutlives,
    TypeOutlives,
    WellFormedTy,
    WellFormedTrait(u32),
    FromEnvTy,
    FromEnvTrait(u32),
    IsLocal,
    IsUpstream,
    IsFullyVisible,
    LocalImplAllowed(u32),
    Compatible,
    DownstreamType,
    Reveal,
    ObjectSafe(u32),
}

/// How a clause ranks among the clauses for one goal.
#[derive(Clone, Copy, PartialEq, Eq, Structural, Debug)]
pub enum ClausePriority {
    High,
    Low,
}

/// The symbol at the root of a term.
#[derive(Clone, Copy, PartialEq, Eq, Structural, Debug)]
pub enum Head {
    /// A variable bound by the binder `depth` levels out, at slot `index`.
    BoundVar { kind: Kind, depth: u32, index: usize },
    /// An inference variable of the table.
    InferenceVar { kind: Kind, var: usize },
    /// A universally quantified name of the given universe.
    Placeholder { kind: Kind, universe: usize, index: usize },
    /// An applied type constructor.
    Apply(TypeName),
    /// An alias type; its one argument is the alias, a projection or an
    /// opaque type.
    Alias,
    /// The projection of an associated type; the arguments are those of the
    /// associated type followed by those of the trait reference.
    Projection(u32),
    /// An opaque type, not yet replaced by its placeholder or its hidden type.
    OpaqueAlias(u32),
    /// A function pointer type that binds `binders` lifetimes; the arguments
    /// are the parameter types followed by the return type.
    Function { binders: usize, safety: Safety, abi: FnAbi, variadic: bool },
    /// A trait object type; the arguments are the list of its bounds, under
    /// a binder for its own self type, and a lifetime.
    Dyn,
    /// A constant of the given value.
    ConstValue(u32),
    /// An atomic fact.
    Fact(Predicate),
    /// A universally quantified goal; the arguments are the binder kinds and the body.
    ForAll,
    /// An existentially quantified goal; the arguments are the binder kinds and the body.
    Exists,
    /// The arguments are the hypotheses, each a clause, followed by the goal.
    Implies,
    /// A conjunction.
    All,
    /// A negation.
    Not,
    /// The goal that its two arguments are equal.
    Equal,
    /// The goal that cannot be decided.
    CannotProve,
    /// A clause; the arguments are the binder kinds, the consequence and the conditions.
    Clause(ClausePriority),
    /// A value under a binder; the arguments are the binder kinds and the value.
    Quantified,
    /// A trait with its arguments, the self type first.
    TraitRef(u32),
    /// A bound `Trait<args>` on a type that is not named.
    TraitBound(u32),
    /// A bound `Trait<args, Item<params> = value>` on a type that is not
    /// named; the arguments are the trait bound, the list of parameters of
    /// the associated type, and the value.
    AliasEqBound(u32),
    /// The kinds of the variables that the enclosing node binds.
    Binders,
    /// One binder kind.
    BinderKind(VariableKind),
    /// A goal in an environment; the arguments are the environment's clauses followed by the goal.
    InEnvironment,
    /// An ordered list of terms.
    List,
    /// The constraint that two lifetimes are equal.
    LifetimeEq,
}

impl Head {
    /// A leaf is a variable of one of the three sorts; a fold rewrites leaves only.
    pub open spec fn is_leaf(self) -> bool {
        self is BoundVar || self is InferenceVar || self is Placeholder
    }

    /// Whether the children of a node with this head stand under one more binder.
    pub open spec fn binds(self) -> bool {
        self is Function || self is Quantified || self is ForAll || self is Exists || self is Clause
    }

    /// Whether a node with this head is an alias type.
    pub open spec fn is_alias(self) -> bool {
        self is Alias
    }

    /// Whether the symbol is a variable symbol.
    pub fn leaf(&self) -> (r: bool)
        ensures
            r == self.is_leaf(),
    {
        match self {
            Head::BoundVar { .. } => true,
            Head::InferenceVar { .. } => true,
            Head::Placeholder { .. } => true,
            _ => false,
        }
    }

    /// Whether the children of a node with this symbol stand under one more binder.
    pub fn binder(&self) -> (r: bool)
        ensures
            r == self.binds(),
    {
        match self {
            Head::Function { .. } => true,
            Head::Quantified => true,
            Head::ForAll => true,
            Head::Exists => true,
            Head::Clause(_) => true,
            _ => false,
        }
    }

    /// Whether a node with this symbol is an alias type.
    pub fn alias(&self) -> (r: bool)
        ensures
            r == self.is_alias(),
    {
        match self {
            Head::Alias => true,
            _ => false,
        }
    }
}

/// The depth under one more binder; it saturates at the largest depth.
pub open spec fn depth_succ(depth: u32) -> u32 {
    if depth < u32::MAX {
        (depth + 1) as u32
    } else {
        depth
    }
}

/// The depth of the children of a node with head `head` that stands at `depth`.
pub open spec fn child_depth(head: Head, depth: u32) -> u32 {
    if head.binds() {
        depth_succ(depth)
    } else {
        depth
    }
}

/// The depth of the children of a node with this symbol that stands at `depth`.
pub fn next_depth(head: &Head, depth: u32) -> (d: u32)
    ensures
        d == child_depth(*head, depth),
{
    if head.binder() && depth < u32::MAX {
        depth + 1
    } else {
        depth
    }
}

} // verus!
