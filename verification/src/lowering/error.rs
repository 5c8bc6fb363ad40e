//! What can be wrong with a program or a goal.

use vstd::prelude::*;
use crate::ast::Identifier;
use crate::symbol::Kind;

verus! {

/// An error of lowering.
#[derive(Debug)]
#[allow(inconsistent_fields)]
pub enum RustIrError {
    InvalidParameterName(Identifier),
    InvalidTraitName(Identifier),
    NotStruct(Identifier),
    NotTrait(Identifier),
    DuplicateOrShadowedParameters,
    AutoTraitAssociatedTypes(Identifier),
    AutoTraitParameters(Identifier),
    AutoTraitWhereClauses(Identifier),
    InvalidFundamentalTypesParameters(Identifier),
    NegativeImplAssociatedValues(Identifier),
    MissingAssociatedType(Identifier),
    IncorrectNumberOfTypeParameters { identifier: Identifier, expected: usize, actual: usize },
    IncorrectNumberOfAssociatedTypeParameters { identifier: Identifier, expected: usize, actual: usize },
    IncorrectParameterKind { identifier: Identifier, expected: Kind, actual: Kind },
    IncorrectTraitParameterKind { identifier: Identifier, expected: Kind, actual: Kind },
    IncorrectAssociatedTypeParameterKind { identifier: Identifier, expected: Kind, actual: Kind },
    CannotApplyTypeParameter(Identifier),
    InvalidExternAbi(String),
}

} // verus!
