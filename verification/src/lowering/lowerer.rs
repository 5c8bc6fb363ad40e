//! Gathering the names of a program before its items are lowered.

use vstd::prelude::*;
use crate::ast::AssocTyDefn;
use crate::ast::AssocTyValue;
use crate::ast::Item;
use crate::ast::Program;
use crate::symbol::VariableKind;
use crate::lowering::env::AssociatedTyLookup;
use crate::lowering::env::LowerResult;
use crate::lowering::env::ProgramLowerer;
use crate::lowering::env::RawId;
use crate::lowering::env::TypeKind;
use crate::lowering::env::TypeSort;
use crate::lowering::env::anonymize;
use crate::lowering::env::auto_upto;
use crate::lowering::env::kind_index;
use crate::lowering::env::kind_index_upto;
use crate::lowering::env::kinds_cover;
use crate::lowering::env::kinds_of;
use crate::lowering::error::RustIrError;
use crate::lowering::ty::declared;
use crate::lowering::ty::lower_variable_kinds;

verus! {

/// The model of what is known of a declared item.
pub struct SpecTypeKind {
    pub sort: TypeSort,
    pub name: Seq<char>,
    pub binders: Seq<VariableKind>,
}

impl View for TypeKind {
    type V = SpecTypeKind;

    open spec fn view(&self) -> SpecTypeKind {
        SpecTypeKind { sort: self.sort, name: self.name@, binders: self.binders@ }
    }
}

/// The model of what is known of a declared associated type.
pub struct SpecLookup {
    pub id: RawId,
    pub addl_variable_kinds: Seq<VariableKind>,
}

impl View for AssociatedTyLookup {
    type V = SpecLookup;

    open spec fn view(&self) -> SpecLookup {
        SpecLookup { id: self.id, addl_variable_kinds: self.addl_variable_kinds@ }
    }
}

/// A table of names, with the names as characters.
pub open spec fn id_views(s: Seq<(String, RawId)>) -> Seq<(Seq<char>, RawId)> {
    Seq::new(s.len(), |i: int| (s[i].0@, s[i].1))
}

/// A table of kinds, with the kinds as models.
pub open spec fn kind_views(s: Seq<(RawId, TypeKind)>) -> Seq<(RawId, SpecTypeKind)> {
    Seq::new(s.len(), |i: int| (s[i].0, s[i].1@))
}

/// A table of associated types, with its entries as models.
pub open spec fn lookup_views(s: Seq<(RawId, String, AssociatedTyLookup)>) -> Seq<(RawId, Seq<char>, SpecLookup)> {
    Seq::new(s.len(), |i: int| (s[i].0, s[i].1@, s[i].2@))
}

/// A table of the values of associated types, with the names as characters.
pub open spec fn value_views(s: Seq<(RawId, String, RawId)>) -> Seq<(RawId, Seq<char>, RawId)> {
    Seq::new(s.len(), |i: int| (s[i].0, s[i].1@, s[i].2))
}

/// The tables of names and kinds, as models.
pub struct Gathered {
    pub adt_ids: Seq<(Seq<char>, RawId)>,
    pub adt_kinds: Seq<(RawId, SpecTypeKind)>,
    pub fn_def_ids: Seq<(Seq<char>, RawId)>,
    pub fn_def_kinds: Seq<(RawId, SpecTypeKind)>,
    pub closure_ids: Seq<(Seq<char>, RawId)>,
    pub closure_kinds: Seq<(RawId, SpecTypeKind)>,
    pub trait_ids: Seq<(Seq<char>, RawId)>,
    pub trait_kinds: Seq<(RawId, SpecTypeKind)>,
    pub auto_traits: Seq<(RawId, bool)>,
    pub object_safe_traits: Seq<RawId>,
    pub opaque_ty_ids: Seq<(Seq<char>, RawId)>,
    pub opaque_ty_kinds: Seq<(RawId, SpecTypeKind)>,
}

/// The tables of associated types and of their values, as models, and
/// the next number that is free.
pub struct Associated {
    pub lookups: Seq<(RawId, Seq<char>, SpecLookup)>,
    pub value_ids: Seq<(RawId, Seq<char>, RawId)>,
    pub next: nat,
}

/// The number of the item at a position.
pub open spec fn raw_id(i: int) -> RawId {
    RawId { index: i as u32 }
}

/// The tables with the first `k` associated types of a trait added.
pub open spec fn with_assoc_types(a: Associated, trait_id: RawId, defns: Seq<AssocTyDefn>, k: nat) -> Associated
    decreases k,
{
    if k == 0 || k > defns.len() {
        a
    } else {
        let before = with_assoc_types(a, trait_id, defns, (k - 1) as nat);
        Associated {
            lookups: before.lookups.push(
                (
                    trait_id,
                    defns[k - 1].name.text(),
                    SpecLookup {
                        id: raw_id(before.next as int),
                        addl_variable_kinds: kinds_of(declared(defns[k - 1].variable_kinds@)),
                    },
                ),
            ),
            value_ids: before.value_ids,
            next: before.next + 1,
        }
    }
}

/// The tables with the first `k` values of associated types of an impl added.
pub open spec fn with_assoc_values(a: Associated, impl_id: RawId, values: Seq<AssocTyValue>, k: nat) -> Associated
    decreases k,
{
    if k == 0 || k > values.len() {
        a
    } else {
        let before = with_assoc_values(a, impl_id, values, (k - 1) as nat);
        Associated {
            lookups: before.lookups,
            value_ids: before.value_ids.push((impl_id, values[k - 1].name.text(), raw_id(before.next as int))),
            next: before.next + 1,
        }
    }
}

/// Whether an item is an auto trait that declares associated types.
pub open spec fn auto_with_associated(item: Item) -> bool {
    match item {
        Item::TraitDefn(d) => d.flags.auto && d.assoc_ty_defns@.len() > 0,
        _ => false,
    }
}

/// The position of the first of the first `n` items that is an auto trait
/// with associated types.
pub open spec fn first_offender(items: Seq<Item>, n: nat) -> Option<int>
    decreases n,
{
    if n == 0 || n > items.len() {
        None
    } else {
        match first_offender(items, (n - 1) as nat) {
            Some(i) => Some(i),
            None => if auto_with_associated(items[n - 1]) {
                Some(n - 1)
            } else {
                None
            },
        }
    }
}

/// The tables after the associated types and values of the first `n`
/// items are numbered: each gets the next free number, in the order of the
/// items.
pub open spec fn associated(start: Associated, items: Seq<Item>, n: nat) -> Associated
    decreases n,
{
    if n == 0 || n > items.len() {
        start
    } else {
        let before = associated(start, items, (n - 1) as nat);
        match items[n - 1] {
            Item::TraitDefn(d) => with_assoc_types(before, raw_id(n - 1), d.assoc_ty_defns@, d.assoc_ty_defns@.len()),
            Item::Impl(d) => with_assoc_values(before, raw_id(n - 1), d.assoc_ty_values@, d.assoc_ty_values@.len()),
            _ => before,
        }
    }
}

/// The tables after the first `n` items are entered: each adt, function,
/// closure, trait and opaque type under its name, with its position as
/// its number.
pub open spec fn gathered(start: Gathered, items: Seq<Item>, n: nat) -> Gathered
    decreases n,
{
    if n == 0 || n > items.len() {
        start
    } else {
        let g = gathered(start, items, (n - 1) as nat);
        let id = raw_id(n - 1);
        match items[n - 1] {
            Item::AdtDefn(d) => Gathered {
                adt_ids: g.adt_ids.push((d.name.text(), id)),
                adt_kinds: g.adt_kinds.push(
                    (
                        id,
                        SpecTypeKind {
                            sort: TypeSort::Adt,
                            name: d.name.text(),
                            binders: kinds_of(declared(d.variable_kinds@)),
                        },
                    ),
                ),
                ..g
            },
            Item::FnDefn(d) => Gathered {
                fn_def_ids: g.fn_def_ids.push((d.name.text(), id)),
                fn_def_kinds: g.fn_def_kinds.push(
                    (
                        id,
                        SpecTypeKind {
                            sort: TypeSort::FnDef,
                            name: d.name.text(),
                            binders: kinds_of(declared(d.variable_kinds@)),
                        },
                    ),
                ),
                ..g
            },
            Item::ClosureDefn(d) => Gathered {
                closure_ids: g.closure_ids.push((d.name.text(), id)),
                closure_kinds: g.closure_kinds.push(
                    (
                        id,
                        SpecTypeKind {
                            sort: TypeSort::Closure,
                            name: d.name.text(),
                            binders: kinds_of(declared(d.variable_kinds@)),
                        },
                    ),
                ),
                ..g
            },
            Item::TraitDefn(d) => Gathered {
                trait_ids: g.trait_ids.push((d.name.text(), id)),
                trait_kinds: g.trait_kinds.push(
                    (
                        id,
                        SpecTypeKind {
                            sort: TypeSort::Trait,
                            name: d.name.text(),
                            binders: kinds_of(declared(d.variable_kinds@)),
                        },
                    ),
                ),
                auto_traits: g.auto_traits.push((id, d.flags.auto)),
                object_safe_traits: if d.flags.object_safe {
                    g.object_safe_traits.push(id)
                } else {
                    g.object_safe_traits
                },
                ..g
            },
            Item::OpaqueTyDefn(d) => Gathered {
                opaque_ty_ids: g.opaque_ty_ids.push((d.name.text(), id)),
                opaque_ty_kinds: g.opaque_ty_kinds.push(
                    (
                        id,
                        SpecTypeKind {
                            sort: TypeSort::Opaque,
                            name: d.name.text(),
                            binders: kinds_of(declared(d.variable_kinds@)),
                        },
                    ),
                ),
                ..g
            },
            _ => g,
        }
    }
}

impl ProgramLowerer {
    /// The tables of names and kinds, as models.
    pub open spec fn gathered_view(&self) -> Gathered {
        Gathered {
            adt_ids: id_views(self.adt_ids@),
            adt_kinds: kind_views(self.adt_kinds@),
            fn_def_ids: id_views(self.fn_def_ids@),
            fn_def_kinds: kind_views(self.fn_def_kinds@),
            closure_ids: id_views(self.closure_ids@),
            closure_kinds: kind_views(self.closure_kinds@),
            trait_ids: id_views(self.trait_ids@),
            trait_kinds: kind_views(self.trait_kinds@),
            auto_traits: self.auto_traits@,
            object_safe_traits: self.object_safe_traits@,
            opaque_ty_ids: id_views(self.opaque_ty_ids@),
            opaque_ty_kinds: kind_views(self.opaque_ty_kinds@),
        }
    }

    /// The tables of associated types, as models, with `next` as the next
    /// free number.
    pub open spec fn associated_view(&self, next: nat) -> Associated {
        Associated {
            lookups: lookup_views(self.associated_ty_lookups@),
            value_ids: value_views(self.associated_ty_value_ids@),
            next,
        }
    }

    /// A lowerer that knows no name.
    pub fn new() -> (r: ProgramLowerer)
        ensures
            r.adt_ids@.len() == 0,
            r.fn_def_ids@.len() == 0,
            r.closure_ids@.len() == 0,
            r.trait_ids@.len() == 0,
            r.auto_traits@.len() == 0,
            r.opaque_ty_ids@.len() == 0,
            r.associated_ty_lookups@.len() == 0,
            r.associated_ty_value_ids@.len() == 0,
            r.adt_kinds@.len() == 0,
            r.fn_def_kinds@.len() == 0,
            r.closure_kinds@.len() == 0,
            r.trait_kinds@.len() == 0,
            r.opaque_ty_kinds@.len() == 0,
            r.foreign_ty_ids@.len() == 0,
            r.object_safe_traits@.len() == 0,
    {
        ProgramLowerer {
            adt_ids: Vec::new(),
            fn_def_ids: Vec::new(),
            closure_ids: Vec::new(),
            trait_ids: Vec::new(),
            auto_traits: Vec::new(),
            opaque_ty_ids: Vec::new(),
            associated_ty_lookups: Vec::new(),
            associated_ty_value_ids: Vec::new(),
            adt_kinds: Vec::new(),
            fn_def_kinds: Vec::new(),
            closure_kinds: Vec::new(),
            trait_kinds: Vec::new(),
            opaque_ty_kinds: Vec::new(),
            foreign_ty_ids: Vec::new(),
            object_safe_traits: Vec::new(),
        }
    }
}

impl Default for ProgramLowerer {
    /// A lowerer that knows no name.
    fn default() -> (r: ProgramLowerer)
        ensures
            r.adt_ids@.len() == 0,
            r.fn_def_ids@.len() == 0,
            r.closure_ids@.len() == 0,
            r.trait_ids@.len() == 0,
            r.auto_traits@.len() == 0,
            r.opaque_ty_ids@.len() == 0,
            r.associated_ty_lookups@.len() == 0,
            r.associated_ty_value_ids@.len() == 0,
            r.adt_kinds@.len() == 0,
            r.fn_def_kinds@.len() == 0,
            r.closure_kinds@.len() == 0,
            r.trait_kinds@.len() == 0,
            r.opaque_ty_kinds@.len() == 0,
            r.foreign_ty_ids@.len() == 0,
            r.object_safe_traits@.len() == 0,
    {
        ProgramLowerer::new()
    }
}

/// The kinds that a list of declarations declares.
pub fn declared_kinds(vks: &Vec<crate::ast::VariableKind>) -> (r: Vec<VariableKind>)
    ensures
        r@ == kinds_of(declared(vks@)),
{
    anonymize(&lower_variable_kinds(vks))
}

/// Each associated type takes one number.
proof fn lemma_assoc_types_next(a: Associated, trait_id: RawId, defns: Seq<AssocTyDefn>, k: nat)
    requires
        k <= defns.len(),
    ensures
        with_assoc_types(a, trait_id, defns, k).next == a.next + k,
    decreases k,
{
    if k > 0 {
        lemma_assoc_types_next(a, trait_id, defns, (k - 1) as nat);
    }
}

/// Each value of an associated type takes one number.
proof fn lemma_assoc_values_next(a: Associated, impl_id: RawId, values: Seq<AssocTyValue>, k: nat)
    requires
        k <= values.len(),
    ensures
        with_assoc_values(a, impl_id, values, k).next == a.next + k,
    decreases k,
{
    if k > 0 {
        lemma_assoc_values_next(a, impl_id, values, (k - 1) as nat);
    }
}

/// Numbers are only ever given out: the next free number does not go down.
pub proof fn lemma_associated_next(start: Associated, items: Seq<Item>, n: nat, m: nat)
    requires
        n <= m <= items.len(),
    ensures
        start.next <= associated(start, items, n).next <= associated(start, items, m).next,
    decreases m,
{
    if m > n {
        lemma_associated_next(start, items, n, (m - 1) as nat);
        let before = associated(start, items, (m - 1) as nat);
        match items[m - 1] {
            Item::TraitDefn(d) => {
                lemma_assoc_types_next(before, raw_id(m - 1), d.assoc_ty_defns@, d.assoc_ty_defns@.len());
            },
            Item::Impl(d) => {
                lemma_assoc_values_next(before, raw_id(m - 1), d.assoc_ty_values@, d.assoc_ty_values@.len());
            },
            _ => {},
        }
    } else if n > 0 {
        lemma_associated_next(start, items, (n - 1) as nat, (n - 1) as nat);
        let before = associated(start, items, (n - 1) as nat);
        match items[n - 1] {
            Item::TraitDefn(d) => {
                lemma_assoc_types_next(before, raw_id(n - 1), d.assoc_ty_defns@, d.assoc_ty_defns@.len());
            },
            Item::Impl(d) => {
                lemma_assoc_values_next(before, raw_id(n - 1), d.assoc_ty_values@, d.assoc_ty_values@.len());
            },
            _ => {},
        }
    }
}

/// The first auto trait with associated types among the first items is the first among more.
proof fn lemma_offender_stable(items: Seq<Item>, n: nat, m: nat)
    requires
        n <= m <= items.len(),
        first_offender(items, n) is Some,
    ensures
        first_offender(items, m) == first_offender(items, n),
    decreases m,
{
    if m > n {
        lemma_offender_stable(items, n, (m - 1) as nat);
    }
}

/// The name of a trait definition among the items.
pub open spec fn offender_name(items: Seq<Item>, i: int) -> crate::ast::Identifier {
    match items[i] {
        Item::TraitDefn(d) => d.name,
        _ => arbitrary(),
    }
}

impl ProgramLowerer {
    /// Whether the tables fit together: every item that has a name has a
    /// kind, and every trait that has a name is known to be an auto trait
    /// or not.
    pub open spec fn wf(&self) -> bool {
        &&& kinds_cover(self.adt_ids@, self.adt_kinds@)
        &&& kinds_cover(self.fn_def_ids@, self.fn_def_kinds@)
        &&& kinds_cover(self.closure_ids@, self.closure_kinds@)
        &&& kinds_cover(self.trait_ids@, self.trait_kinds@)
        &&& kinds_cover(self.opaque_ty_ids@, self.opaque_ty_kinds@)
        &&& forall|i: int|
            0 <= i < self.trait_ids@.len() ==> auto_upto(
                self.auto_traits@,
                (#[trigger] self.trait_ids@[i]).1,
                self.auto_traits@.len(),
            ) is Some
    }

    /// Numbers the associated types of the traits and the values that the
    /// impls give them, from `next` on.
    fn number_associated(&mut self, program: &Program) -> (r: LowerResult<()>)
        requires
            associated(
                old(self).associated_view(program.items@.len()),
                program.items@,
                program.items@.len(),
            ).next <= u32::MAX,
        ensures
            final(self).gathered_view() == old(self).gathered_view(),
            final(self).foreign_ty_ids == old(self).foreign_ty_ids,
            old(self).wf() ==> final(self).wf(),
            match first_offender(program.items@, program.items@.len()) {
                Some(i) => r == Err::<(), RustIrError>(
                    RustIrError::AutoTraitAssociatedTypes(offender_name(program.items@, i)),
                ) && final(self).associated_view(0).lookups == associated(
                    old(self).associated_view(program.items@.len()),
                    program.items@,
                    i as nat,
                ).lookups && final(self).associated_view(0).value_ids == associated(
                    old(self).associated_view(program.items@.len()),
                    program.items@,
                    i as nat,
                ).value_ids,
                None => r is Ok && final(self).associated_view(0).lookups == associated(
                    old(self).associated_view(program.items@.len()),
                    program.items@,
                    program.items@.len(),
                ).lookups && final(self).associated_view(0).value_ids == associated(
                    old(self).associated_view(program.items@.len()),
                    program.items@,
                    program.items@.len(),
                ).value_ids,
            },
    {
        let ghost items = program.items@;
        let ghost start = old(self).associated_view(items.len());
        proof {
            lemma_associated_next(start, items, 0, items.len());
        }
        let mut next: u32 = program.items.len() as u32;
        let mut i: usize = 0;
        while i < program.items.len()
            invariant
                0 <= i <= program.items.len(),
                items == program.items@,
                start == old(self).associated_view(items.len()),
                associated(start, items, items.len()).next <= u32::MAX,
                self.associated_view(next as nat) == associated(start, items, i as nat),
                first_offender(items, i as nat) is None,
                self.adt_ids == old(self).adt_ids,
                self.adt_kinds == old(self).adt_kinds,
                self.fn_def_ids == old(self).fn_def_ids,
                self.fn_def_kinds == old(self).fn_def_kinds,
                self.closure_ids == old(self).closure_ids,
                self.closure_kinds == old(self).closure_kinds,
                self.trait_ids == old(self).trait_ids,
                self.trait_kinds == old(self).trait_kinds,
                self.auto_traits == old(self).auto_traits,
                self.object_safe_traits == old(self).object_safe_traits,
                self.opaque_ty_ids == old(self).opaque_ty_ids,
                self.opaque_ty_kinds == old(self).opaque_ty_kinds,
                self.foreign_ty_ids == old(self).foreign_ty_ids,
            decreases program.items.len() - i,
        {
            let ghost before = associated(start, items, i as nat);
            proof {
                lemma_associated_next(start, items, (i + 1) as nat, items.len());
                lemma_associated_next(start, items, i as nat, i as nat);
            }
            let id = RawId { index: i as u32 };
            match &program.items[i] {
                Item::TraitDefn(d) => {
                    if d.flags.auto && d.assoc_ty_defns.len() > 0 {
                        proof {
                            assert(first_offender(items, (i + 1) as nat) == Some(i as int));
                            lemma_offender_stable(items, (i + 1) as nat, items.len());
                        }
                        return Err(RustIrError::AutoTraitAssociatedTypes(d.name.clone_identifier()));
                    }
                    proof {
                        lemma_assoc_types_next(before, raw_id(i as int), d.assoc_ty_defns@, d.assoc_ty_defns@.len());
                        assert(associated(start, items, (i + 1) as nat) == with_assoc_types(
                            before,
                            raw_id(i as int),
                            d.assoc_ty_defns@,
                            d.assoc_ty_defns@.len(),
                        ));
                    }
                    let mut k: usize = 0;
                    while k < d.assoc_ty_defns.len()
                        invariant
                            0 <= k <= d.assoc_ty_defns.len(),
                            id == raw_id(i as int),
                            before.next + d.assoc_ty_defns@.len() <= u32::MAX,
                            self.associated_view(next as nat) == with_assoc_types(
                                before,
                                id,
                                d.assoc_ty_defns@,
                                k as nat,
                            ),
                            self.adt_ids == old(self).adt_ids,
                            self.adt_kinds == old(self).adt_kinds,
                            self.fn_def_ids == old(self).fn_def_ids,
                            self.fn_def_kinds == old(self).fn_def_kinds,
                            self.closure_ids == old(self).closure_ids,
                            self.closure_kinds == old(self).closure_kinds,
                            self.trait_ids == old(self).trait_ids,
                            self.trait_kinds == old(self).trait_kinds,
                            self.auto_traits == old(self).auto_traits,
                            self.object_safe_traits == old(self).object_safe_traits,
                            self.opaque_ty_ids == old(self).opaque_ty_ids,
                            self.opaque_ty_kinds == old(self).opaque_ty_kinds,
                            self.foreign_ty_ids == old(self).foreign_ty_ids,
                        decreases d.assoc_ty_defns.len() - k,
                    {
                        proof {
                            lemma_assoc_types_next(before, id, d.assoc_ty_defns@, k as nat);
                        }
                        let defn = &d.assoc_ty_defns[k];
                        let lookup = AssociatedTyLookup {
                            id: RawId { index: next },
                            addl_variable_kinds: declared_kinds(&defn.variable_kinds),
                        };
                        let ghost was = lookup_views(self.associated_ty_lookups@);
                        self.associated_ty_lookups.push((id, defn.name.str.clone(), lookup));
                        proof {
                            assert(lookup_views(self.associated_ty_lookups@) =~= was.push(
                                (id, defn.name.text(), lookup@),
                            ));
                        }
                        next = next + 1;
                        k += 1;
                    }
                },
                Item::Impl(d) => {
                    proof {
                        lemma_assoc_values_next(
                            before,
                            raw_id(i as int),
                            d.assoc_ty_values@,
                            d.assoc_ty_values@.len(),
                        );
                        assert(associated(start, items, (i + 1) as nat) == with_assoc_values(
                            before,
                            raw_id(i as int),
                            d.assoc_ty_values@,
                            d.assoc_ty_values@.len(),
                        ));
                    }
                    let mut k: usize = 0;
                    while k < d.assoc_ty_values.len()
                        invariant
                            0 <= k <= d.assoc_ty_values.len(),
                            id == raw_id(i as int),
                            before.next + d.assoc_ty_values@.len() <= u32::MAX,
                            self.associated_view(next as nat) == with_assoc_values(
                                before,
                                id,
                                d.assoc_ty_values@,
                                k as nat,
                            ),
                            self.adt_ids == old(self).adt_ids,
                            self.adt_kinds == old(self).adt_kinds,
                            self.fn_def_ids == old(self).fn_def_ids,
                            self.fn_def_kinds == old(self).fn_def_kinds,
                            self.closure_ids == old(self).closure_ids,
                            self.closure_kinds == old(self).closure_kinds,
                            self.trait_ids == old(self).trait_ids,
                            self.trait_kinds == old(self).trait_kinds,
                            self.auto_traits == old(self).auto_traits,
                            self.object_safe_traits == old(self).object_safe_traits,
                            self.opaque_ty_ids == old(self).opaque_ty_ids,
                            self.opaque_ty_kinds == old(self).opaque_ty_kinds,
                            self.foreign_ty_ids == old(self).foreign_ty_ids,
                        decreases d.assoc_ty_values.len() - k,
                    {
                        proof {
                            lemma_assoc_values_next(before, id, d.assoc_ty_values@, k as nat);
                        }
                        let atv = &d.assoc_ty_values[k];
                        let ghost was = value_views(self.associated_ty_value_ids@);
                        self.associated_ty_value_ids.push((id, atv.name.str.clone(), RawId { index: next }));
                        proof {
                            assert(value_views(self.associated_ty_value_ids@) =~= was.push(
                                (id, atv.name.text(), RawId { index: next }),
                            ));
                        }
                        next = next + 1;
                        k += 1;
                    }
                },
                _ => {},
            }
            i += 1;
        }
        Ok(())
    }
}

/// Tables of kinds that agree on their first entries agree on what these say.
proof fn lemma_kind_index_agrees(a: Seq<(RawId, TypeKind)>, b: Seq<(RawId, TypeKind)>, id: RawId, n: nat)
    requires
        n <= a.len(),
        n <= b.len(),
        forall|i: int| 0 <= i < n ==> a[i] == b[i],
    ensures
        kind_index_upto(a, id, n) == kind_index_upto(b, id, n),
    decreases n,
{
    if n > 0 {
        lemma_kind_index_agrees(a, b, id, (n - 1) as nat);
    }
}

/// Tables of auto traits that agree on their first entries agree on what these say.
proof fn lemma_auto_agrees(a: Seq<(RawId, bool)>, b: Seq<(RawId, bool)>, id: RawId, n: nat)
    requires
        n <= a.len(),
        n <= b.len(),
        forall|i: int| 0 <= i < n ==> a[i] == b[i],
    ensures
        auto_upto(a, id, n) == auto_upto(b, id, n),
    decreases n,
{
    if n > 0 {
        lemma_auto_agrees(a, b, id, (n - 1) as nat);
    }
}

/// A table of names stays covered when a name and its kind are entered.
pub proof fn lemma_cover_push(
    ids: Seq<(String, RawId)>,
    kinds: Seq<(RawId, TypeKind)>,
    name: String,
    id: RawId,
    kind: TypeKind,
)
    requires
        kinds_cover(ids, kinds),
    ensures
        kinds_cover(ids.push((name, id)), kinds.push((id, kind))),
{
    let ids2 = ids.push((name, id));
    let kinds2 = kinds.push((id, kind));
    assert forall|i: int| 0 <= i < ids2.len() implies kind_index(kinds2, (#[trigger] ids2[i]).1) is Some by {
        if i < ids.len() {
            assert(ids2[i] == ids[i]);
            assert(kind_index(kinds, ids[i].1) is Some);
            lemma_kind_index_agrees(kinds2, kinds, ids[i].1, kinds.len());
        }
    }
}

/// Enters an item under its name and its kind under its number.
fn enter(ids: &mut Vec<(String, RawId)>, kinds: &mut Vec<(RawId, TypeKind)>, id: RawId, kind: TypeKind)
    ensures
        id_views(final(ids)@) == id_views(old(ids)@).push((kind.name@, id)),
        kind_views(final(kinds)@) == kind_views(old(kinds)@).push((id, kind@)),
        kinds_cover(old(ids)@, old(kinds)@) ==> kinds_cover(final(ids)@, final(kinds)@),
        final(ids)@.len() == old(ids)@.len() + 1,
        forall|i: int| 0 <= i < old(ids)@.len() ==> final(ids)@[i] == old(ids)@[i],
        final(ids)@[old(ids)@.len() as int].1 == id,
{
    let name = kind.name.clone();
    proof {
        if kinds_cover(ids@, kinds@) {
            lemma_cover_push(ids@, kinds@, name, id, kind);
        }
    }
    ids.push((name, id));
    kinds.push((id, kind));
    proof {
        assert(id_views(ids@) =~= id_views(old(ids)@).push((kind.name@, id)));
        assert(kind_views(kinds@) =~= kind_views(old(kinds)@).push((id, kind@)));
    }
}

impl ProgramLowerer {
    /// Enters each adt, function, closure, trait and opaque type under
    /// its name, with its position among the items as its number.
    fn enter_items(&mut self, program: &Program)
        requires
            program.items@.len() <= u32::MAX,
        ensures
            final(self).gathered_view() == gathered(
                old(self).gathered_view(),
                program.items@,
                program.items@.len(),
            ),
            final(self).associated_ty_lookups == old(self).associated_ty_lookups,
            final(self).associated_ty_value_ids == old(self).associated_ty_value_ids,
            final(self).foreign_ty_ids == old(self).foreign_ty_ids,
            old(self).wf() ==> final(self).wf(),
    {
        let ghost items = program.items@;
        let ghost start = old(self).gathered_view();
        let mut i: usize = 0;
        while i < program.items.len()
            invariant
                0 <= i <= program.items.len(),
                items == program.items@,
                items.len() <= u32::MAX,
                start == old(self).gathered_view(),
                self.gathered_view() == gathered(start, items, i as nat),
                self.associated_ty_lookups == old(self).associated_ty_lookups,
                self.associated_ty_value_ids == old(self).associated_ty_value_ids,
                self.foreign_ty_ids == old(self).foreign_ty_ids,
                old(self).wf() ==> self.wf(),
            decreases program.items.len() - i,
        {
            let id = RawId { index: i as u32 };
            match &program.items[i] {
                Item::AdtDefn(d) => {
                    let kind = TypeKind {
                        sort: TypeSort::Adt,
                        name: d.name.str.clone(),
                        binders: declared_kinds(&d.variable_kinds),
                    };
                    enter(&mut self.adt_ids, &mut self.adt_kinds, id, kind);
                },
                Item::FnDefn(d) => {
                    let kind = TypeKind {
                        sort: TypeSort::FnDef,
                        name: d.name.str.clone(),
                        binders: declared_kinds(&d.variable_kinds),
                    };
                    enter(&mut self.fn_def_ids, &mut self.fn_def_kinds, id, kind);
                },
                Item::ClosureDefn(d) => {
                    let kind = TypeKind {
                        sort: TypeSort::Closure,
                        name: d.name.str.clone(),
                        binders: declared_kinds(&d.variable_kinds),
                    };
                    enter(&mut self.closure_ids, &mut self.closure_kinds, id, kind);
                },
                Item::TraitDefn(d) => {
                    let kind = TypeKind {
                        sort: TypeSort::Trait,
                        name: d.name.str.clone(),
                        binders: declared_kinds(&d.variable_kinds),
                    };
                    let ghost ids0 = self.trait_ids@;
                    let ghost autos0 = self.auto_traits@;
                    enter(&mut self.trait_ids, &mut self.trait_kinds, id, kind);
                    self.auto_traits.push((id, d.flags.auto));
                    if d.flags.object_safe {
                        self.object_safe_traits.push(id);
                    }
                    proof {
                        if old(self).wf() {
                            assert forall|j: int| 0 <= j < self.trait_ids@.len() implies auto_upto(
                                self.auto_traits@,
                                (#[trigger] self.trait_ids@[j]).1,
                                self.auto_traits@.len(),
                            ) is Some by {
                                if j < ids0.len() {
                                    assert(self.trait_ids@[j] == ids0[j]);
                                    assert(auto_upto(autos0, ids0[j].1, autos0.len()) is Some);
                                    lemma_auto_agrees(self.auto_traits@, autos0, ids0[j].1, autos0.len());
                                }
                            }
                        }
                    }
                },
                Item::OpaqueTyDefn(d) => {
                    let kind = TypeKind {
                        sort: TypeSort::Opaque,
                        name: d.name.str.clone(),
                        binders: declared_kinds(&d.variable_kinds),
                    };
                    enter(&mut self.opaque_ty_ids, &mut self.opaque_ty_kinds, id, kind);
                },
                _ => {},
            }
            i += 1;
        }
    }

    /// Gives every item of the program its number, the position of the
    /// item, and every associated type and every value of one a number
    /// beyond those; enters the names of the items in the tables. An auto
    /// trait may not declare associated types.
    pub fn gather_ids(&mut self, program: &Program) -> (r: LowerResult<Vec<RawId>>)
        requires
            associated(
                old(self).associated_view(program.items@.len()),
                program.items@,
                program.items@.len(),
            ).next <= u32::MAX,
        ensures
            final(self).foreign_ty_ids == old(self).foreign_ty_ids,
            old(self).wf() ==> final(self).wf(),
            match first_offender(program.items@, program.items@.len()) {
                Some(i) => r == Err::<Vec<RawId>, RustIrError>(
                    RustIrError::AutoTraitAssociatedTypes(offender_name(program.items@, i)),
                ) && final(self).gathered_view() == old(self).gathered_view() && final(self).associated_view(
                    0,
                ).lookups == associated(
                    old(self).associated_view(program.items@.len()),
                    program.items@,
                    i as nat,
                ).lookups && final(self).associated_view(0).value_ids == associated(
                    old(self).associated_view(program.items@.len()),
                    program.items@,
                    i as nat,
                ).value_ids,
                None => r is Ok && r->Ok_0@ == Seq::new(program.items@.len(), |i: int| raw_id(i))
                    && final(self).gathered_view() == gathered(
                    old(self).gathered_view(),
                    program.items@,
                    program.items@.len(),
                ) && final(self).associated_view(0).lookups == associated(
                    old(self).associated_view(program.items@.len()),
                    program.items@,
                    program.items@.len(),
                ).lookups && final(self).associated_view(0).value_ids == associated(
                    old(self).associated_view(program.items@.len()),
                    program.items@,
                    program.items@.len(),
                ).value_ids,
            },
    {
        proof {
            lemma_associated_next(
                old(self).associated_view(program.items@.len()),
                program.items@,
                0,
                program.items@.len(),
            );
        }
        let mut raw_ids: Vec<RawId> = Vec::new();
        let mut i: usize = 0;
        while i < program.items.len()
            invariant
                0 <= i <= program.items.len(),
                program.items@.len() <= u32::MAX,
                raw_ids.len() == i,
                forall|j: int| 0 <= j < i ==> raw_ids@[j] == raw_id(j),
            decreases program.items.len() - i,
        {
            raw_ids.push(RawId { index: i as u32 });
            i += 1;
        }
        self.number_associated(program)?;
        self.enter_items(program);
        proof {
            assert(raw_ids@ =~= Seq::new(program.items@.len(), |i: int| raw_id(i)));
        }
        Ok(raw_ids)
    }
}

} // verus!
