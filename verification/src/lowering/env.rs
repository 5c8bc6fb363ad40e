//! Names in scope: the tables that resolve the names of a program, and the
//! parameters that the binders around a piece of syntax declare.

use vstd::prelude::*;
use crate::ast::Identifier;
use crate::symbol::Head;
use crate::symbol::TypeName;
use crate::symbol::VariableKind;
use crate::term::SpecTerm;
use crate::term::Term;
use crate::lowering::error::RustIrError;

verus! {

/// The number of an item of a program.
#[derive(Clone, Copy, PartialEq, Eq, Structural, Debug)]
pub struct RawId {
    pub index: u32,
}

/// What kind of item a name stands for.
#[derive(Clone, Copy, PartialEq, Eq, Structural, Debug)]
pub enum TypeSort {
    Adt,
    FnDef,
    Closure,
    Trait,
    Opaque,
}

/// What is known of a declared item before its body is lowered: its sort,
/// its name and the kinds of its parameters.
#[derive(Debug)]
pub struct TypeKind {
    pub sort: TypeSort,
    pub name: String,
    pub binders: Vec<VariableKind>,
}

/// A variable of a binder: how many binders out, and which slot.
#[derive(Clone, Copy, PartialEq, Eq, Structural, Debug)]
pub struct BoundVar {
    pub depth: u32,
    pub index: usize,
}

impl BoundVar {
    /// The variable as seen from under one more binder.
    pub open spec fn shifted(self) -> BoundVar {
        BoundVar { depth: crate::symbol::depth_succ(self.depth), index: self.index }
    }

    /// The variable as seen from under one more binder.
    pub fn shifted_in(self) -> (r: BoundVar)
        ensures
            r == self.shifted(),
    {
        BoundVar { depth: if self.depth < u32::MAX {
            self.depth + 1
        } else {
            self.depth
        }, index: self.index }
    }
}

/// A parameter in scope: its name, its kind and the variable it stands for.
#[derive(Debug)]
pub struct Parameter {
    pub name: String,
    pub kind: VariableKind,
    pub var: BoundVar,
}

/// The model of a parameter in scope.
pub struct SpecParameter {
    pub name: Seq<char>,
    pub kind: VariableKind,
    pub var: BoundVar,
}

impl View for Parameter {
    type V = SpecParameter;

    open spec fn view(&self) -> SpecParameter {
        SpecParameter { name: self.name@, kind: self.kind, var: self.var }
    }
}

/// The models of a list of parameters.
pub open spec fn parameters(ps: Seq<Parameter>) -> Seq<SpecParameter> {
    Seq::new(ps.len(), |i: int| ps[i]@)
}

/// A declared parameter: a kind and a name.
#[derive(Debug)]
pub struct WithKind {
    pub kind: VariableKind,
    pub name: String,
}

/// The model of a declared parameter.
pub struct SpecWithKind {
    pub kind: VariableKind,
    pub name: Seq<char>,
}

impl View for WithKind {
    type V = SpecWithKind;

    open spec fn view(&self) -> SpecWithKind {
        SpecWithKind { kind: self.kind, name: self.name@ }
    }
}

/// The models of a list of declared parameters.
pub open spec fn declarations(bs: Seq<WithKind>) -> Seq<SpecWithKind> {
    Seq::new(bs.len(), |i: int| bs[i]@)
}

/// What is known of a declared associated type: its number and the kinds
/// of the parameters that it has beyond those of its trait.
#[derive(Debug)]
pub struct AssociatedTyLookup {
    pub id: RawId,
    pub addl_variable_kinds: Vec<VariableKind>,
}

/// What the name at the head of an applied type stands for.
#[derive(Clone, Copy, PartialEq, Eq, Structural, Debug)]
pub enum ApplyTypeLookup {
    Parameter(VariableKind, BoundVar),
    Adt(RawId),
    FnDef(RawId),
    Closure(RawId),
    Opaque(RawId),
}

/// What lowering returns: the lowered value or the first error.
pub type LowerResult<T> = Result<T, RustIrError>;

/// The value that the last of the first `n` entries with this name gives it.
pub open spec fn lookup_upto(entries: Seq<(String, RawId)>, name: Seq<char>, n: nat) -> Option<RawId>
    decreases n,
{
    if n == 0 || n > entries.len() {
        None
    } else if entries[n - 1].0@ == name {
        Some(entries[n - 1].1)
    } else {
        lookup_upto(entries, name, (n - 1) as nat)
    }
}

/// The number that a table gives a name: that of its last entry with the name.
pub open spec fn lookup(entries: Seq<(String, RawId)>, name: Seq<char>) -> Option<RawId> {
    lookup_upto(entries, name, entries.len())
}

/// The number that a table gives a name.
pub fn table_get(entries: &Vec<(String, RawId)>, name: &String) -> (r: Option<RawId>)
    ensures
        r == lookup(entries@, name@),
{
    let mut i: usize = entries.len();
    while i > 0
        invariant
            0 <= i <= entries.len(),
            lookup(entries@, name@) == lookup_upto(entries@, name@, i as nat),
        decreases i,
    {
        if entries[i - 1].0 == *name {
            return Some(entries[i - 1].1);
        }
        i -= 1;
    }
    None
}

/// The position of the last of the first `n` entries for this number.
pub open spec fn kind_index_upto(entries: Seq<(RawId, TypeKind)>, id: RawId, n: nat) -> Option<int>
    decreases n,
{
    if n == 0 || n > entries.len() {
        None
    } else if entries[n - 1].0 == id {
        Some(n - 1)
    } else {
        kind_index_upto(entries, id, (n - 1) as nat)
    }
}

/// The position of the entry that a table of kinds has for a number.
pub open spec fn kind_index(entries: Seq<(RawId, TypeKind)>, id: RawId) -> Option<int> {
    kind_index_upto(entries, id, entries.len())
}

/// The entry that a table of kinds has for a number.
pub fn kind_get(entries: &Vec<(RawId, TypeKind)>, id: RawId) -> (r: Option<usize>)
    ensures
        match r {
            Some(i) => kind_index(entries@, id) == Some(i as int) && i < entries.len(),
            None => kind_index(entries@, id) is None,
        },
{
    let mut i: usize = entries.len();
    while i > 0
        invariant
            0 <= i <= entries.len(),
            kind_index(entries@, id) == kind_index_upto(entries@, id, i as nat),
        decreases i,
    {
        if entries[i - 1].0 == id {
            return Some(i - 1);
        }
        i -= 1;
    }
    None
}

/// The position of the last of the first `n` parameters with this name.
pub open spec fn parameter_upto(ps: Seq<SpecParameter>, name: Seq<char>, n: nat) -> Option<int>
    decreases n,
{
    if n == 0 || n > ps.len() {
        None
    } else if ps[n - 1].name == name {
        Some(n - 1)
    } else {
        parameter_upto(ps, name, (n - 1) as nat)
    }
}

/// The position of the parameter with this name.
pub open spec fn parameter_index(ps: Seq<SpecParameter>, name: Seq<char>) -> Option<int> {
    parameter_upto(ps, name, ps.len())
}

/// The position of the parameter with this name.
pub fn parameter_get(ps: &Vec<Parameter>, name: &String) -> (r: Option<usize>)
    ensures
        match r {
            Some(i) => parameter_index(parameters(ps@), name@) == Some(i as int) && i < ps.len(),
            None => parameter_index(parameters(ps@), name@) is None,
        },
{
    let mut i: usize = ps.len();
    while i > 0
        invariant
            0 <= i <= ps.len(),
            parameter_index(parameters(ps@), name@) == parameter_upto(parameters(ps@), name@, i as nat),
        decreases i,
    {
        if ps[i - 1].name == *name {
            return Some(i - 1);
        }
        i -= 1;
    }
    None
}

/// The position of the last of the first `n` entries for this trait and name.
pub open spec fn associated_upto(
    entries: Seq<(RawId, String, AssociatedTyLookup)>,
    trait_id: RawId,
    name: Seq<char>,
    n: nat,
) -> Option<int>
    decreases n,
{
    if n == 0 || n > entries.len() {
        None
    } else if entries[n - 1].0 == trait_id && entries[n - 1].1@ == name {
        Some(n - 1)
    } else {
        associated_upto(entries, trait_id, name, (n - 1) as nat)
    }
}

/// The position of the entry for an associated type of a trait.
pub open spec fn associated_index(
    entries: Seq<(RawId, String, AssociatedTyLookup)>,
    trait_id: RawId,
    name: Seq<char>,
) -> Option<int> {
    associated_upto(entries, trait_id, name, entries.len())
}

/// Whether the last of the first `n` entries for a trait says it is an auto trait.
pub open spec fn auto_upto(entries: Seq<(RawId, bool)>, id: RawId, n: nat) -> Option<bool>
    decreases n,
{
    if n == 0 || n > entries.len() {
        None
    } else if entries[n - 1].0 == id {
        Some(entries[n - 1].1)
    } else {
        auto_upto(entries, id, (n - 1) as nat)
    }
}

/// The names of a program and what each stands for.
#[derive(Debug)]
pub struct ProgramLowerer {
    pub adt_ids: Vec<(String, RawId)>,
    pub fn_def_ids: Vec<(String, RawId)>,
    pub closure_ids: Vec<(String, RawId)>,
    pub trait_ids: Vec<(String, RawId)>,
    pub auto_traits: Vec<(RawId, bool)>,
    pub opaque_ty_ids: Vec<(String, RawId)>,
    pub associated_ty_lookups: Vec<(RawId, String, AssociatedTyLookup)>,
    pub associated_ty_value_ids: Vec<(RawId, String, RawId)>,
    pub adt_kinds: Vec<(RawId, TypeKind)>,
    pub fn_def_kinds: Vec<(RawId, TypeKind)>,
    pub closure_kinds: Vec<(RawId, TypeKind)>,
    pub trait_kinds: Vec<(RawId, TypeKind)>,
    pub opaque_ty_kinds: Vec<(RawId, TypeKind)>,
    pub foreign_ty_ids: Vec<(String, RawId)>,
    pub object_safe_traits: Vec<RawId>,
}

/// The names in scope where a piece of syntax is lowered. In each table
/// the last entry for a name or a number is the one that counts.
#[derive(Debug)]
pub struct Env<'k> {
    pub adt_ids: &'k Vec<(String, RawId)>,
    pub adt_kinds: &'k Vec<(RawId, TypeKind)>,
    pub fn_def_ids: &'k Vec<(String, RawId)>,
    pub fn_def_kinds: &'k Vec<(RawId, TypeKind)>,
    pub closure_ids: &'k Vec<(String, RawId)>,
    pub closure_kinds: &'k Vec<(RawId, TypeKind)>,
    pub trait_ids: &'k Vec<(String, RawId)>,
    pub trait_kinds: &'k Vec<(RawId, TypeKind)>,
    pub opaque_ty_ids: &'k Vec<(String, RawId)>,
    pub opaque_ty_kinds: &'k Vec<(RawId, TypeKind)>,
    pub associated_ty_lookups: &'k Vec<(RawId, String, AssociatedTyLookup)>,
    pub auto_traits: &'k Vec<(RawId, bool)>,
    pub foreign_ty_ids: &'k Vec<(String, RawId)>,
    /// The parameters in scope. No two have the same name: a parameter
    /// cannot shadow another.
    pub parameter_map: Vec<Parameter>,
}

/// Whether every number that a table of names gives has an entry in the
/// table of kinds.
pub open spec fn kinds_cover(ids: Seq<(String, RawId)>, kinds: Seq<(RawId, TypeKind)>) -> bool {
    forall|i: int| 0 <= i < ids.len() ==> kind_index(kinds, (#[trigger] ids[i]).1) is Some
}

/// The number that a table gives a name is the number of one of its entries.
pub proof fn lemma_lookup_is_entry(entries: Seq<(String, RawId)>, name: Seq<char>, n: nat)
    ensures
        match lookup_upto(entries, name, n) {
            Some(id) => exists|i: int| 0 <= i < entries.len() && (#[trigger] entries[i]).1 == id,
            None => true,
        },
    decreases n,
{
    if n > 0 && n <= entries.len() {
        if entries[n - 1].0@ == name {
            assert(entries[n - 1].1 == lookup_upto(entries, name, n)->0);
        } else {
            lemma_lookup_is_entry(entries, name, (n - 1) as nat);
        }
    }
}

/// The tables of an environment, as lists of entries. In each the last
/// entry for a name or a number is the one that counts.
pub struct Tables {
    pub adt_ids: Seq<(String, RawId)>,
    pub adt_kinds: Seq<(RawId, TypeKind)>,
    pub fn_def_ids: Seq<(String, RawId)>,
    pub fn_def_kinds: Seq<(RawId, TypeKind)>,
    pub closure_ids: Seq<(String, RawId)>,
    pub closure_kinds: Seq<(RawId, TypeKind)>,
    pub trait_ids: Seq<(String, RawId)>,
    pub trait_kinds: Seq<(RawId, TypeKind)>,
    pub opaque_ty_ids: Seq<(String, RawId)>,
    pub opaque_ty_kinds: Seq<(RawId, TypeKind)>,
    pub associated_ty_lookups: Seq<(RawId, String, AssociatedTyLookup)>,
    pub auto_traits: Seq<(RawId, bool)>,
    pub foreign_ty_ids: Seq<(String, RawId)>,
}

impl Tables {
    /// Whether the tables fit together: every adt, function, closure and
    /// opaque type that has a name has a kind, and every trait that has a
    /// name has a kind and is known to be an auto trait or not.
    pub open spec fn wf(self) -> bool {
        &&& kinds_cover(self.adt_ids, self.adt_kinds)
        &&& kinds_cover(self.fn_def_ids, self.fn_def_kinds)
        &&& kinds_cover(self.closure_ids, self.closure_kinds)
        &&& kinds_cover(self.trait_ids, self.trait_kinds)
        &&& kinds_cover(self.opaque_ty_ids, self.opaque_ty_kinds)
        &&& forall|i: int|
            0 <= i < self.trait_ids.len() ==> auto_upto(
                self.auto_traits,
                (#[trigger] self.trait_ids[i]).1,
                self.auto_traits.len(),
            ) is Some
    }

    /// What the name at the head of an applied type stands for where the
    /// parameters `ps` are in scope: a parameter, else an adt, else a
    /// function, else a closure, else an opaque type.
    pub open spec fn apply_type_at(self, ps: Seq<SpecParameter>, name: Seq<char>) -> Option<ApplyTypeLookup> {
        match parameter_index(ps, name) {
            Some(i) => Some(ApplyTypeLookup::Parameter(ps[i].kind, ps[i].var)),
            None => match lookup(self.adt_ids, name) {
                Some(id) => Some(ApplyTypeLookup::Adt(id)),
                None => match lookup(self.fn_def_ids, name) {
                    Some(id) => Some(ApplyTypeLookup::FnDef(id)),
                    None => match lookup(self.closure_ids, name) {
                        Some(id) => Some(ApplyTypeLookup::Closure(id)),
                        None => match lookup(self.opaque_ty_ids, name) {
                            Some(id) => Some(ApplyTypeLookup::Opaque(id)),
                            None => None,
                        },
                    },
                },
            },
        }
    }

    /// The trait that a name stands for where the parameters `ps` are in
    /// scope; a parameter and an adt are no trait, and a name that stands
    /// for nothing is no trait's name.
    pub open spec fn trait_at(self, ps: Seq<SpecParameter>, name: Identifier) -> LowerResult<RawId> {
        if parameter_index(ps, name.text()) is Some {
            Err(RustIrError::NotTrait(name))
        } else if lookup(self.adt_ids, name.text()) is Some {
            Err(RustIrError::NotTrait(name))
        } else {
            match lookup(self.trait_ids, name.text()) {
                Some(id) => Ok(id),
                None => Err(RustIrError::InvalidTraitName(name)),
            }
        }
    }

    /// The generic argument that a bare name stands for where the
    /// parameters `ps` are in scope: the variable of a parameter, an adt, a
    /// function, a closure or an opaque type without parameters, or a
    /// foreign type. The bare name of an item that takes parameters is
    /// refused: it has not as many arguments as the item asks for.
    pub open spec fn generic_arg_at(self, ps: Seq<SpecParameter>, name: Identifier) -> LowerResult<SpecTerm> {
        match self.apply_type_at(ps, name.text()) {
            Some(ApplyTypeLookup::Parameter(kind, var)) => Ok(
                SpecTerm::atom(Head::BoundVar { kind: kind.sort(), depth: var.depth, index: var.index }),
            ),
            Some(ApplyTypeLookup::Adt(id)) => applied_model(
                kind_of_id(self.adt_kinds, id),
                TypeName::Adt(id.index),
                name,
            ),
            Some(ApplyTypeLookup::FnDef(id)) => applied_model(
                kind_of_id(self.fn_def_kinds, id),
                TypeName::FnDef(id.index),
                name,
            ),
            Some(ApplyTypeLookup::Closure(id)) => applied_model(
                kind_of_id(self.closure_kinds, id),
                TypeName::Closure(id.index),
                name,
            ),
            Some(ApplyTypeLookup::Opaque(id)) => opaque_model(kind_of_id(self.opaque_ty_kinds, id), id, name),
            None => match lookup(self.foreign_ty_ids, name.text()) {
                Some(id) => Ok(SpecTerm::atom(Head::Apply(TypeName::Foreign(id.index)))),
                None => if lookup(self.trait_ids, name.text()) is Some {
                    Err(RustIrError::NotStruct(name))
                } else {
                    Err(RustIrError::InvalidParameterName(name))
                },
            },
        }
    }
}

impl<'k> Env<'k> {
    /// The tables of the environment.
    pub open spec fn tables(&self) -> Tables {
        Tables {
            adt_ids: self.adt_ids@,
            adt_kinds: self.adt_kinds@,
            fn_def_ids: self.fn_def_ids@,
            fn_def_kinds: self.fn_def_kinds@,
            closure_ids: self.closure_ids@,
            closure_kinds: self.closure_kinds@,
            trait_ids: self.trait_ids@,
            trait_kinds: self.trait_kinds@,
            opaque_ty_ids: self.opaque_ty_ids@,
            opaque_ty_kinds: self.opaque_ty_kinds@,
            associated_ty_lookups: self.associated_ty_lookups@,
            auto_traits: self.auto_traits@,
            foreign_ty_ids: self.foreign_ty_ids@,
        }
    }

    /// Whether the tables fit together.
    pub open spec fn wf(&self) -> bool {
        self.tables().wf()
    }

    /// What the name at the head of an applied type stands for.
    pub open spec fn apply_type_model(&self, name: Seq<char>) -> Option<ApplyTypeLookup> {
        self.tables().apply_type_at(parameters(self.parameter_map@), name)
    }

    /// What the name at the head of an applied type stands for.
    pub fn lookup_apply_type(&self, name: &Identifier) -> (r: LowerResult<ApplyTypeLookup>)
        ensures
            match self.apply_type_model(name.text()) {
                Some(found) => r == Ok::<ApplyTypeLookup, RustIrError>(found),
                None => r == Err::<ApplyTypeLookup, RustIrError>(RustIrError::NotStruct(*name)),
            },
    {
        if let Some(i) = parameter_get(&self.parameter_map, &name.str) {
            Ok(ApplyTypeLookup::Parameter(self.parameter_map[i].kind, self.parameter_map[i].var))
        } else if let Some(id) = table_get(self.adt_ids, &name.str) {
            Ok(ApplyTypeLookup::Adt(id))
        } else if let Some(id) = table_get(self.fn_def_ids, &name.str) {
            Ok(ApplyTypeLookup::FnDef(id))
        } else if let Some(id) = table_get(self.closure_ids, &name.str) {
            Ok(ApplyTypeLookup::Closure(id))
        } else if let Some(id) = table_get(self.opaque_ty_ids, &name.str) {
            Ok(ApplyTypeLookup::Opaque(id))
        } else {
            Err(RustIrError::NotStruct(name.clone_identifier()))
        }
    }

    /// The trait that a name stands for.
    pub open spec fn trait_model(&self, name: Identifier) -> LowerResult<RawId> {
        self.tables().trait_at(parameters(self.parameter_map@), name)
    }

    /// The trait that a name stands for.
    pub fn lookup_trait(&self, name: &Identifier) -> (r: LowerResult<RawId>)
        ensures
            r == self.trait_model(*name),
    {
        if let Some(_) = parameter_get(&self.parameter_map, &name.str) {
            Err(RustIrError::NotTrait(name.clone_identifier()))
        } else if let Some(_) = table_get(self.adt_ids, &name.str) {
            Err(RustIrError::NotTrait(name.clone_identifier()))
        } else if let Some(id) = table_get(self.trait_ids, &name.str) {
            Ok(id)
        } else {
            Err(RustIrError::InvalidTraitName(name.clone_identifier()))
        }
    }

    /// Whether the trait is an auto trait.
    pub fn auto_trait(&self, id: RawId) -> (r: bool)
        requires
            auto_upto(self.auto_traits@, id, self.auto_traits@.len()) is Some,
        ensures
            Some(r) == auto_upto(self.auto_traits@, id, self.auto_traits@.len()),
    {
        let mut i: usize = self.auto_traits.len();
        while i > 0
            invariant
                0 <= i <= self.auto_traits.len(),
                auto_upto(self.auto_traits@, id, self.auto_traits@.len()) == auto_upto(
                    self.auto_traits@,
                    id,
                    i as nat,
                ),
                auto_upto(self.auto_traits@, id, self.auto_traits@.len()) is Some,
            decreases i,
        {
            if self.auto_traits[i - 1].0 == id {
                return self.auto_traits[i - 1].1;
            }
            i -= 1;
        }
        false
    }

    /// The kind of a trait.
    pub fn trait_kind(&self, id: RawId) -> (r: &TypeKind)
        requires
            kind_index(self.trait_kinds@, id) is Some,
        ensures
            *r == self.trait_kinds@[kind_index(self.trait_kinds@, id)->0].1,
    {
        let i = kind_get(self.trait_kinds, id).unwrap();
        &self.trait_kinds[i].1
    }

    /// The kind of an adt.
    pub fn adt_kind(&self, id: RawId) -> (r: &TypeKind)
        requires
            kind_index(self.adt_kinds@, id) is Some,
        ensures
            *r == self.adt_kinds@[kind_index(self.adt_kinds@, id)->0].1,
    {
        let i = kind_get(self.adt_kinds, id).unwrap();
        &self.adt_kinds[i].1
    }

    /// The kind of a function definition.
    pub fn fn_def_kind(&self, id: RawId) -> (r: &TypeKind)
        requires
            kind_index(self.fn_def_kinds@, id) is Some,
        ensures
            *r == self.fn_def_kinds@[kind_index(self.fn_def_kinds@, id)->0].1,
    {
        let i = kind_get(self.fn_def_kinds, id).unwrap();
        &self.fn_def_kinds[i].1
    }

    /// The kind of a closure.
    pub fn closure_kind(&self, id: RawId) -> (r: &TypeKind)
        requires
            kind_index(self.closure_kinds@, id) is Some,
        ensures
            *r == self.closure_kinds@[kind_index(self.closure_kinds@, id)->0].1,
    {
        let i = kind_get(self.closure_kinds, id).unwrap();
        &self.closure_kinds[i].1
    }

    /// The kind of an opaque type.
    pub fn opaque_kind(&self, id: RawId) -> (r: &TypeKind)
        requires
            kind_index(self.opaque_ty_kinds@, id) is Some,
        ensures
            *r == self.opaque_ty_kinds@[kind_index(self.opaque_ty_kinds@, id)->0].1,
    {
        let i = kind_get(self.opaque_ty_kinds, id).unwrap();
        &self.opaque_ty_kinds[i].1
    }

    /// What is known of the associated type `ident` of a trait.
    pub fn lookup_associated_ty(&self, trait_id: RawId, ident: &Identifier) -> (r: LowerResult<
        &AssociatedTyLookup,
    >)
        ensures
            match associated_index(self.associated_ty_lookups@, trait_id, ident.text()) {
                Some(i) => r is Ok && *r->Ok_0 == self.associated_ty_lookups@[i].2,
                None => r == Err::<&AssociatedTyLookup, RustIrError>(
                    RustIrError::MissingAssociatedType(*ident),
                ),
            },
    {
        let mut i: usize = self.associated_ty_lookups.len();
        while i > 0
            invariant
                0 <= i <= self.associated_ty_lookups.len(),
                associated_index(self.associated_ty_lookups@, trait_id, ident.text()) == associated_upto(
                    self.associated_ty_lookups@,
                    trait_id,
                    ident.text(),
                    i as nat,
                ),
            decreases i,
        {
            if self.associated_ty_lookups[i - 1].0 == trait_id && self.associated_ty_lookups[i - 1].1
                == ident.str {
                return Ok(&self.associated_ty_lookups[i - 1].2);
            }
            i -= 1;
        }
        Err(RustIrError::MissingAssociatedType(ident.clone_identifier()))
    }
}

/// Whether one of the declared parameters has the name of a parameter in
/// scope or of a parameter declared before it.
pub open spec fn shadows(ps: Seq<SpecParameter>, binders: Seq<SpecWithKind>) -> bool {
    exists|i: int|
        0 <= i < binders.len() && (parameter_index(ps, (#[trigger] binders[i]).name) is Some || exists|j: int|
            0 <= j < i && (#[trigger] binders[j]).name == binders[i].name)
}

/// The parameters in scope under a binder that declares `binders`: those
/// in scope before, each one binder further out, and the declared ones in
/// their order.
pub open spec fn introduced(ps: Seq<SpecParameter>, binders: Seq<SpecWithKind>) -> Seq<SpecParameter> {
    Seq::new(
        ps.len() + binders.len(),
        |i: int|
            if i < ps.len() {
                SpecParameter { name: ps[i].name, kind: ps[i].kind, var: ps[i].var.shifted() }
            } else {
                SpecParameter {
                    name: binders[i - ps.len()].name,
                    kind: binders[i - ps.len()].kind,
                    var: BoundVar { depth: 0, index: (i - ps.len()) as usize },
                }
            },
    )
}

/// The kinds of declared parameters.
pub open spec fn kinds_of(binders: Seq<SpecWithKind>) -> Seq<VariableKind> {
    Seq::new(binders.len(), |i: int| binders[i].kind)
}

/// The kinds of declared parameters.
pub fn anonymize(binders: &Vec<WithKind>) -> (r: Vec<VariableKind>)
    ensures
        r@ == kinds_of(declarations(binders@)),
{
    let mut r: Vec<VariableKind> = Vec::new();
    let mut i: usize = 0;
    while i < binders.len()
        invariant
            0 <= i <= binders.len(),
            r.len() == i,
            forall|j: int| 0 <= j < i ==> r@[j] == binders@[j].kind,
        decreases binders.len() - i,
    {
        r.push(binders[i].kind);
        i += 1;
    }
    proof {
        assert(r@ =~= kinds_of(declarations(binders@)));
    }
    r
}

/// The applied type without arguments that a name stands for, if the item
/// it names takes no parameters.
pub open spec fn applied_model(k: TypeKind, constructor: TypeName, name: Identifier) -> LowerResult<SpecTerm> {
    if k.binders@.len() > 0 {
        Err(
            RustIrError::IncorrectNumberOfTypeParameters {
                identifier: name,
                expected: k.binders@.len() as usize,
                actual: 0,
            },
        )
    } else {
        Ok(SpecTerm::atom(Head::Apply(constructor)))
    }
}

/// The kind that a table of kinds has for a number.
pub open spec fn kind_of_id(entries: Seq<(RawId, TypeKind)>, id: RawId) -> TypeKind {
    entries[kind_index(entries, id)->0].1
}

/// The opaque type without arguments, as an alias type.
pub open spec fn opaque_alias(id: RawId) -> SpecTerm {
    SpecTerm { head: Head::Alias, args: seq![SpecTerm::atom(Head::OpaqueAlias(id.index))] }
}

/// The alias type without arguments that the name of an opaque type stands
/// for, if the opaque type takes no parameters.
pub open spec fn opaque_model(k: TypeKind, id: RawId, name: Identifier) -> LowerResult<SpecTerm> {
    if k.binders@.len() > 0 {
        Err(
            RustIrError::IncorrectNumberOfTypeParameters {
                identifier: name,
                expected: k.binders@.len() as usize,
                actual: 0,
            },
        )
    } else {
        Ok(opaque_alias(id))
    }
}

/// The applied type without arguments that a name stands for.
fn applied(k: &TypeKind, constructor: TypeName, name: &Identifier) -> (r: LowerResult<Term>)
    ensures
        match applied_model(*k, constructor, *name) {
            Ok(t) => r is Ok && r->Ok_0@ == t,
            Err(e) => r == Err::<Term, RustIrError>(e),
        },
{
    if k.binders.len() > 0 {
        Err(
            RustIrError::IncorrectNumberOfTypeParameters {
                identifier: name.clone_identifier(),
                expected: k.binders.len(),
                actual: 0,
            },
        )
    } else {
        Ok(Term::atom(Head::Apply(constructor)))
    }
}

impl<'k> Env<'k> {
    /// The names of a program, with no parameter in scope.
    pub fn from_lowerer(lowerer: &'k ProgramLowerer) -> (env: Env<'k>)
        ensures
            env.adt_ids == &lowerer.adt_ids,
            env.adt_kinds == &lowerer.adt_kinds,
            env.fn_def_ids == &lowerer.fn_def_ids,
            env.fn_def_kinds == &lowerer.fn_def_kinds,
            env.closure_ids == &lowerer.closure_ids,
            env.closure_kinds == &lowerer.closure_kinds,
            env.trait_ids == &lowerer.trait_ids,
            env.trait_kinds == &lowerer.trait_kinds,
            env.opaque_ty_ids == &lowerer.opaque_ty_ids,
            env.opaque_ty_kinds == &lowerer.opaque_ty_kinds,
            env.associated_ty_lookups == &lowerer.associated_ty_lookups,
            env.auto_traits == &lowerer.auto_traits,
            env.foreign_ty_ids == &lowerer.foreign_ty_ids,
            env.parameter_map@.len() == 0,
    {
        Env {
            adt_ids: &lowerer.adt_ids,
            adt_kinds: &lowerer.adt_kinds,
            fn_def_ids: &lowerer.fn_def_ids,
            fn_def_kinds: &lowerer.fn_def_kinds,
            closure_ids: &lowerer.closure_ids,
            closure_kinds: &lowerer.closure_kinds,
            trait_ids: &lowerer.trait_ids,
            trait_kinds: &lowerer.trait_kinds,
            opaque_ty_ids: &lowerer.opaque_ty_ids,
            opaque_ty_kinds: &lowerer.opaque_ty_kinds,
            associated_ty_lookups: &lowerer.associated_ty_lookups,
            parameter_map: Vec::new(),
            auto_traits: &lowerer.auto_traits,
            foreign_ty_ids: &lowerer.foreign_ty_ids,
        }
    }

    /// Whether two environments have the same tables; their parameters may
    /// differ.
    pub open spec fn same_tables(&self, other: &Env<'k>) -> bool {
        self.tables() == other.tables()
    }

    /// The generic argument that a bare name stands for.
    pub open spec fn generic_arg_model(&self, name: Identifier) -> LowerResult<SpecTerm> {
        self.tables().generic_arg_at(parameters(self.parameter_map@), name)
    }

    /// The generic argument that a bare name stands for.
    pub fn lookup_generic_arg(&self, name: &Identifier) -> (r: LowerResult<Term>)
        requires
            self.wf(),
        ensures
            match self.generic_arg_model(*name) {
                Ok(t) => r is Ok && r->Ok_0@ == t,
                Err(e) => r == Err::<Term, RustIrError>(e),
            },
    {
        proof {
            lemma_lookup_is_entry(self.adt_ids@, name.text(), self.adt_ids@.len());
            lemma_lookup_is_entry(self.fn_def_ids@, name.text(), self.fn_def_ids@.len());
            lemma_lookup_is_entry(self.closure_ids@, name.text(), self.closure_ids@.len());
            lemma_lookup_is_entry(self.opaque_ty_ids@, name.text(), self.opaque_ty_ids@.len());
        }
        match self.lookup_apply_type(name) {
            Ok(ApplyTypeLookup::Parameter(kind, var)) => Ok(
                Term::atom(Head::BoundVar { kind: kind.kind(), depth: var.depth, index: var.index }),
            ),
            Ok(ApplyTypeLookup::Adt(id)) => applied(self.adt_kind(id), TypeName::Adt(id.index), name),
            Ok(ApplyTypeLookup::FnDef(id)) => applied(self.fn_def_kind(id), TypeName::FnDef(id.index), name),
            Ok(ApplyTypeLookup::Closure(id)) => applied(
                self.closure_kind(id),
                TypeName::Closure(id.index),
                name,
            ),
            Ok(ApplyTypeLookup::Opaque(id)) => {
                let k = self.opaque_kind(id);
                if k.binders.len() > 0 {
                    Err(
                        RustIrError::IncorrectNumberOfTypeParameters {
                            identifier: name.clone_identifier(),
                            expected: k.binders.len(),
                            actual: 0,
                        },
                    )
                } else {
                    let mut args: Vec<Term> = Vec::new();
                    args.push(Term::atom(Head::OpaqueAlias(id.index)));
                    let t = Term::new(Head::Alias, args);
                    proof {
                        assert(t@.args =~= opaque_alias(id).args);
                    }
                    Ok(t)
                }
            },
            Err(_) => {
                if let Some(id) = table_get(self.foreign_ty_ids, &name.str) {
                    Ok(Term::atom(Head::Apply(TypeName::Foreign(id.index))))
                } else if let Some(_) = table_get(self.trait_ids, &name.str) {
                    Err(RustIrError::NotStruct(name.clone_identifier()))
                } else {
                    Err(RustIrError::InvalidParameterName(name.clone_identifier()))
                }
            },
        }
    }

    /// The environment under a binder that declares `binders`: the
    /// parameters in scope move one binder out, and the declared ones get
    /// the slots of the new binder in their order. A declared parameter may
    /// not have the name of one in scope or of another declared one.
    pub fn introduce(&self, binders: &Vec<WithKind>) -> (r: LowerResult<Env<'k>>)
        ensures
            shadows(parameters(self.parameter_map@), declarations(binders@)) ==> r == Err::<
                Env<'k>,
                RustIrError,
            >(RustIrError::DuplicateOrShadowedParameters),
            !shadows(parameters(self.parameter_map@), declarations(binders@)) ==> r is Ok && parameters(
                r->Ok_0.parameter_map@,
            ) == introduced(parameters(self.parameter_map@), declarations(binders@)) && self.same_tables(&r->Ok_0),
            self.wf() && r is Ok ==> r->Ok_0.wf(),
    {
        let ghost ps = parameters(self.parameter_map@);
        let ghost bs = declarations(binders@);
        let mut i: usize = 0;
        while i < binders.len()
            invariant
                0 <= i <= binders.len(),
                ps == parameters(self.parameter_map@),
                bs == declarations(binders@),
                forall|a: int|
                    0 <= a < i ==> parameter_index(ps, (#[trigger] bs[a]).name) is None && forall|b: int|
                        0 <= b < a ==> (#[trigger] bs[b]).name != bs[a].name,
            decreases binders.len() - i,
        {
            if parameter_get(&self.parameter_map, &binders[i].name).is_some() {
                proof {
                    assert(parameter_index(ps, bs[i as int].name) is Some);
                }
                return Err(RustIrError::DuplicateOrShadowedParameters);
            }
            let mut j: usize = 0;
            while j < i
                invariant
                    0 <= j <= i < binders.len(),
                    bs == declarations(binders@),
                    forall|b: int| 0 <= b < j ==> (#[trigger] bs[b]).name != bs[i as int].name,
                decreases i - j,
            {
                if binders[j].name == binders[i].name {
                    proof {
                        assert(bs[j as int].name == bs[i as int].name);
                    }
                    return Err(RustIrError::DuplicateOrShadowedParameters);
                }
                j += 1;
            }
            i += 1;
        }
        let mut parameter_map: Vec<Parameter> = Vec::new();
        let mut a: usize = 0;
        while a < self.parameter_map.len()
            invariant
                0 <= a <= self.parameter_map.len(),
                parameter_map.len() == a,
                ps == parameters(self.parameter_map@),
                bs == declarations(binders@),
                forall|b: int| 0 <= b < a ==> (#[trigger] parameter_map@[b])@ == introduced(ps, bs)[b],
            decreases self.parameter_map.len() - a,
        {
            let p = &self.parameter_map[a];
            parameter_map.push(Parameter { name: p.name.clone(), kind: p.kind, var: p.var.shifted_in() });
            a += 1;
        }
        let mut c: usize = 0;
        while c < binders.len()
            invariant
                0 <= c <= binders.len(),
                parameter_map.len() == self.parameter_map.len() + c,
                ps == parameters(self.parameter_map@),
                bs == declarations(binders@),
                forall|b: int|
                    0 <= b < self.parameter_map.len() + c ==> (#[trigger] parameter_map@[b])@ == introduced(
                        ps,
                        bs,
                    )[b],
            decreases binders.len() - c,
        {
            parameter_map.push(
                Parameter { name: binders[c].name.clone(), kind: binders[c].kind, var: BoundVar { depth: 0, index: c } },
            );
            c += 1;
        }
        proof {
            assert(parameters(parameter_map@) =~= introduced(ps, bs));
        }
        Ok(
            Env {
                adt_ids: self.adt_ids,
                adt_kinds: self.adt_kinds,
                fn_def_ids: self.fn_def_ids,
                fn_def_kinds: self.fn_def_kinds,
                closure_ids: self.closure_ids,
                closure_kinds: self.closure_kinds,
                trait_ids: self.trait_ids,
                trait_kinds: self.trait_kinds,
                opaque_ty_ids: self.opaque_ty_ids,
                opaque_ty_kinds: self.opaque_ty_kinds,
                associated_ty_lookups: self.associated_ty_lookups,
                auto_traits: self.auto_traits,
                foreign_ty_ids: self.foreign_ty_ids,
                parameter_map,
            },
        )
    }
}

/// A value under a binder: the kinds of the variables that the binder
/// declares, and the value.
#[derive(Debug)]
pub struct Binders<T> {
    pub binders: Vec<VariableKind>,
    pub value: T,
}

impl<'k> Env<'k> {
    /// Lowers a value under a binder that declares `binders`: `op` is
    /// given the environment under the binder, and what it returns is put
    /// under the binder.
    pub fn in_binders<T, OP>(&self, binders: &Vec<WithKind>, op: OP) -> (r: LowerResult<Binders<T>>)
        where OP: FnOnce(&Env<'k>) -> LowerResult<T>
        requires
            self.wf(),
            forall|inner: &Env<'k>|
                inner.wf() && self.same_tables(inner) && parameters(inner.parameter_map@) == introduced(
                    parameters(self.parameter_map@),
                    declarations(binders@),
                ) ==> #[trigger] op.requires((inner,)),
        ensures
            shadows(parameters(self.parameter_map@), declarations(binders@)) ==> r == Err::<
                Binders<T>,
                RustIrError,
            >(RustIrError::DuplicateOrShadowedParameters),
            !shadows(parameters(self.parameter_map@), declarations(binders@)) ==> exists|
                inner: &Env<'k>,
                value: LowerResult<T>,
            |
                self.same_tables(inner) && parameters(inner.parameter_map@) == introduced(
                    parameters(self.parameter_map@),
                    declarations(binders@),
                ) && #[trigger] op.ensures((inner,), value) && match value {
                    Ok(v) => r is Ok && r->Ok_0.value == v && r->Ok_0.binders@ == kinds_of(declarations(binders@)),
                    Err(e) => r == Err::<Binders<T>, RustIrError>(e),
                },
    {
        let inner = self.introduce(binders)?;
        let value = op(&inner);
        match value {
            Ok(v) => Ok(Binders { binders: anonymize(binders), value: v }),
            Err(e) => Err(e),
        }
    }
}

} // verus!
