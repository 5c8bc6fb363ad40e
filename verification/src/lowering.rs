//! Lowering: from the syntax of programs and goals to terms.

pub mod env;
pub mod error;
pub mod ty;
pub mod goal;
pub mod lowerer;
pub mod program;

use vstd::prelude::*;
use crate::ast::FnAbi;
use crate::ast::Program;
use crate::ast::VariableKind;
use crate::lowering::env::LowerResult;
use crate::lowering::env::WithKind;
use crate::lowering::program::LoweredProgram;
use crate::lowering::program::lower_program;
use crate::lowering::program::numbers_fit;
use crate::lowering::program::program_lowered;
use crate::lowering::ty::abi_model;
use crate::lowering::ty::declaration;
use crate::lowering::ty::lower_abi;
use crate::lowering::ty::lower_variable_kind;

verus! {

/// Syntax that lowers without names in scope.
pub trait Lower {
    type Lowered;

    /// Whether the syntax is within the limits of the machine.
    spec fn can_lower(&self) -> bool;

    /// Whether `r` is what the syntax lowers to.
    spec fn lowers_to(&self, r: Self::Lowered) -> bool;

    fn lower(&self) -> (r: Self::Lowered)
        requires
            self.can_lower(),
        ensures
            self.lowers_to(r),
    ;
}

impl Lower for Program {
    type Lowered = LowerResult<LoweredProgram>;

    open spec fn can_lower(&self) -> bool {
        numbers_fit(*self)
    }

    open spec fn lowers_to(&self, r: LowerResult<LoweredProgram>) -> bool {
        program_lowered(*self, r)
    }

    fn lower(&self) -> (r: LowerResult<LoweredProgram>) {
        lower_program(self)
    }
}

impl Lower for VariableKind {
    type Lowered = WithKind;

    open spec fn can_lower(&self) -> bool {
        true
    }

    open spec fn lowers_to(&self, r: WithKind) -> bool {
        r@ == declaration(*self)
    }

    fn lower(&self) -> (r: WithKind) {
        lower_variable_kind(self)
    }
}

impl Lower for FnAbi {
    type Lowered = LowerResult<crate::symbol::FnAbi>;

    open spec fn can_lower(&self) -> bool {
        true
    }

    open spec fn lowers_to(&self, r: LowerResult<crate::symbol::FnAbi>) -> bool {
        r == abi_model(*self)
    }

    fn lower(&self) -> (r: LowerResult<crate::symbol::FnAbi>) {
        lower_abi(self)
    }
}

} // verus!
