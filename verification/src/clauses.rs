//! The clauses of a program: what its items say, as the clauses that the
//! search resolves goals with.
//!
//! An impl says that its trait is implemented where its where clauses hold.
//! The value that an impl gives an associated type says what a projection
//! normalizes to. An associated type equals what it normalizes to, and its
//! placeholder. An opaque type equals its hidden type where that is
//! revealed and its placeholder everywhere; its bounds and where clauses
//! hold of the placeholder, and so does an auto trait that holds of the
//! hidden type. An auto trait holds of an adt that has no impl of it where
//! it holds of the types of the fields. A trait is implemented where the
//! environment says so.

use vstd::prelude::*;
use crate::ast::Polarity;
use crate::context::SlgContext;
use crate::context::SpecContext;
use crate::ex_clause::append_terms;
use crate::fold::LeafMap;
use crate::fold::clone_term;
use crate::fold::clone_terms;
use crate::fold::fold;
use crate::fold::fold_term;
use crate::fold::image_of;
use crate::infer::shift;
use crate::infer::shifted_in;
use crate::lowering::env::RawId;
use crate::lowering::goal::implemented;
use crate::lowering::goal::one;
use crate::lowering::goal::trait_number;
use crate::lowering::goal::two;
use crate::lowering::goal::with_args_of;
use crate::lowering::program::Datum;
use crate::lowering::program::ItemMeta;
use crate::lowering::program::LoweredProgram;
use crate::lowering::program::SpecDatum;
use crate::lowering::program::SpecProgramData;
use crate::lowering::program::datum_views;
use crate::lowering::program::hidden_views;
use crate::lowering::ty::kinds_term;
use crate::lowering::ty::kinds_to_term;
use crate::lowering::ty::node;
use crate::slg::binder_kinds;
use crate::slg::solve_model;
use crate::solve::Solution;
use crate::solve::root_key;
use crate::solve::solve_in_environment;
use crate::solve::read_kinds;
use crate::symbol::ClausePriority;
use crate::symbol::Head;
use crate::symbol::Kind;
use crate::symbol::Predicate;
use crate::symbol::TypeName;
use crate::symbol::VariableKind;
use crate::term::SpecTerm;
use crate::term::Term;
use crate::term::lemma_view_args;
use crate::term::views;

verus! {

/// What opening a binder puts in place of a leaf: for a variable of the
/// opened binder its parameter, moved under the binders that stand between
/// the binder and the variable; a variable bound further out moves one
/// binder in.
pub open spec fn opening_image(params: Seq<SpecTerm>, head: Head, depth: u32) -> SpecTerm {
    match head {
        Head::BoundVar { kind, depth: d, index } => if d == depth && index < params.len() {
            fold(params[index as int], shift(depth), 0)
        } else if d > depth {
            SpecTerm::atom(Head::BoundVar { kind, depth: (d - 1) as u32, index })
        } else {
            SpecTerm::atom(head)
        },
        _ => SpecTerm::atom(head),
    }
}

/// Opening a binder as a leaf rewriting.
pub open spec fn opening(params: Seq<SpecTerm>) -> spec_fn(Head, u32) -> SpecTerm {
    |head: Head, depth: u32| opening_image(params, head, depth)
}

/// The body of a binder with the variables of the binder replaced by
/// `params`, which may hold variables bound further out.
pub open spec fn opened_with(body: SpecTerm, params: Seq<SpecTerm>) -> SpecTerm {
    fold(body, opening(params), 0)
}

/// Opening a binder, as a leaf map.
pub struct Opening<'a> {
    pub params: &'a Vec<Term>,
}

impl<'a> LeafMap for Opening<'a> {
    open spec fn image(&self, head: Head, depth: u32) -> SpecTerm {
        opening_image(views(self.params@), head, depth)
    }

    fn apply(&self, head: Head, depth: u32) -> (r: Term) {
        match head {
            Head::BoundVar { kind, depth: d, index } => {
                if d == depth && index < self.params.len() {
                    shifted_in(&self.params[index], depth)
                } else if d > depth {
                    Term::atom(Head::BoundVar { kind, depth: d - 1, index })
                } else {
                    Term::atom(head)
                }
            },
            _ => Term::atom(head),
        }
    }
}

/// The body of a binder with the variables of the binder replaced by
/// `params`.
pub fn open_with(body: &Term, params: &Vec<Term>) -> (r: Term)
    ensures
        r@ == opened_with(body@, views(params@)),
{
    let f = Opening { params };
    proof {
        assert(image_of(&f) =~= opening(views(params@)));
    }
    fold_term(body, &f, 0)
}

/// The variables of the first `n` slots of a binder `depth` binders out,
/// where the first slot has the number `base`.
pub open spec fn slots(kinds: Seq<VariableKind>, n: nat, depth: u32, base: nat) -> Seq<SpecTerm> {
    Seq::new(
        n,
        |i: int| SpecTerm::atom(Head::BoundVar { kind: kinds[i].sort(), depth, index: (base + i) as usize }),
    )
}

/// The variables of all the slots of the innermost binder.
pub open spec fn parameters_of(kinds: Seq<VariableKind>) -> Seq<SpecTerm> {
    slots(kinds, kinds.len(), 0, 0)
}

/// The variables of the first `n` slots of a binder.
pub fn slot_terms(kinds: &Vec<VariableKind>, n: usize, depth: u32, base: usize) -> (r: Vec<Term>)
    requires
        n <= kinds.len(),
        base + n <= usize::MAX,
    ensures
        views(r@) == slots(kinds@, n as nat, depth, base as nat),
{
    let mut r: Vec<Term> = Vec::new();
    let mut i: usize = 0;
    while i < n
        invariant
            0 <= i <= n <= kinds.len(),
            base + n <= usize::MAX,
            r.len() == i,
            forall|j: int|
                0 <= j < i ==> (#[trigger] r@[j])@ == SpecTerm::atom(
                    Head::BoundVar { kind: kinds@[j].sort(), depth, index: (base + j) as usize },
                ),
        decreases n - i,
    {
        r.push(Term::atom(Head::BoundVar { kind: kinds[i].kind(), depth, index: base + i }));
        i += 1;
    }
    proof {
        assert(views(r@) =~= slots(kinds@, n as nat, depth, base as nat));
    }
    r
}

/// The variables of all the slots of the innermost binder.
pub fn parameter_terms(kinds: &Vec<VariableKind>) -> (r: Vec<Term>)
    ensures
        views(r@) == parameters_of(kinds@),
{
    slot_terms(kinds, kinds.len(), 0, 0)
}

/// A fact: a predicate with its arguments.
pub open spec fn fact(predicate: Predicate, args: Seq<SpecTerm>) -> SpecTerm {
    node(Head::Fact(predicate), args)
}

/// A fact.
pub fn fact_term(predicate: Predicate, args: Vec<Term>) -> (r: Term)
    ensures
        r@ == fact(predicate, views(args@)),
{
    Term::new(Head::Fact(predicate), args)
}

/// The clause that, for all values of the variables of `kinds`, the
/// consequence holds where the conditions hold.
pub open spec fn clause(kinds: Seq<VariableKind>, consequence: SpecTerm, conditions: Seq<SpecTerm>) -> SpecTerm {
    node(Head::Clause(ClausePriority::High), seq![kinds_term(kinds), consequence] + conditions)
}

/// A clause.
pub fn clause_term(kinds: &Vec<VariableKind>, consequence: Term, conditions: Vec<Term>) -> (r: Term)
    ensures
        r@ == clause(kinds@, consequence@, views(conditions@)),
{
    let mut args = two(kinds_to_term(kinds), consequence);
    append_terms(&mut args, conditions);
    Term::new(Head::Clause(ClausePriority::High), args)
}

/// The kinds and the body of a term that stands under a binder.
pub open spec fn opened(t: SpecTerm) -> Option<(Seq<VariableKind>, SpecTerm)> {
    if t.head is Quantified && t.args.len() == 2 {
        match binder_kinds(t.args[0]) {
            Some(ks) => Some((ks, t.args[1])),
            None => None,
        }
    } else {
        None
    }
}

/// The kinds and the body of a term that stands under a binder.
pub fn open_term(t: &Term) -> (r: Option<(Vec<VariableKind>, &Term)>)
    ensures
        match opened(t@) {
            Some((ks, body)) => r is Some && (r->0).0@ == ks && (r->0).1@ == body,
            None => r is None,
        },
{
    proof {
        lemma_view_args(*t);
    }
    match t.head {
        Head::Quantified => {
            if t.args.len() == 2 {
                match read_kinds(&t.args[0]) {
                    Some(ks) => Some((ks, &t.args[1])),
                    None => None,
                }
            } else {
                None
            }
        },
        _ => None,
    }
}

/// The terms of a list.
pub open spec fn items(t: SpecTerm) -> Option<Seq<SpecTerm>> {
    if t.head is List {
        Some(t.args)
    } else {
        None
    }
}

/// The terms of a list.
pub fn list_items(t: &Term) -> (r: Option<&Vec<Term>>)
    ensures
        match items(t@) {
            Some(ts) => r is Some && views(r->0@) == ts,
            None => r is None,
        },
{
    proof {
        lemma_view_args(*t);
    }
    match t.head {
        Head::List => Some(&t.args),
        _ => None,
    }
}

/// The two terms of a list of two.
pub open spec fn pair(t: SpecTerm) -> Option<(SpecTerm, SpecTerm)> {
    match items(t) {
        Some(ts) => if ts.len() == 2 {
            Some((ts[0], ts[1]))
        } else {
            None
        },
        None => None,
    }
}

/// The two terms of a list of two.
pub fn list_pair(t: &Term) -> (r: Option<(&Term, &Term)>)
    ensures
        match pair(t@) {
            Some((a, b)) => r is Some && (r->0).0@ == a && (r->0).1@ == b,
            None => r is None,
        },
{
    match list_items(t) {
        Some(ts) => {
            if ts.len() == 2 {
                Some((&ts[0], &ts[1]))
            } else {
                None
            }
        },
        None => None,
    }
}

/// A where clause as a condition of a clause: the fact itself where its
/// binder declares nothing, the goal that it holds for all values of the
/// variables of its binder otherwise.
pub open spec fn condition(wc: SpecTerm) -> SpecTerm {
    match opened(wc) {
        Some((ks, body)) => if ks.len() == 0 {
            opened_with(body, Seq::empty())
        } else {
            node(Head::ForAll, wc.args)
        },
        None => wc,
    }
}

/// Where clauses as conditions of a clause.
pub open spec fn conditions(wcs: Seq<SpecTerm>) -> Seq<SpecTerm> {
    Seq::new(wcs.len(), |i: int| condition(wcs[i]))
}

/// A where clause as a condition of a clause.
pub fn condition_term(wc: &Term) -> (r: Term)
    ensures
        r@ == condition(wc@),
{
    match open_term(wc) {
        Some((ks, body)) => {
            if ks.len() == 0 {
                let none: Vec<Term> = Vec::new();
                proof {
                    assert(views(none@) =~= Seq::empty());
                }
                open_with(body, &none)
            } else {
                with_args_of(Head::ForAll, wc)
            }
        },
        None => clone_term(wc),
    }
}

/// Where clauses as conditions of a clause.
pub fn condition_terms(wcs: &Vec<Term>) -> (r: Vec<Term>)
    ensures
        views(r@) == conditions(views(wcs@)),
{
    let mut r: Vec<Term> = Vec::new();
    let mut i: usize = 0;
    while i < wcs.len()
        invariant
            0 <= i <= wcs.len(),
            r.len() == i,
            forall|j: int| 0 <= j < i ==> (#[trigger] r@[j])@ == condition(wcs@[j]@),
        decreases wcs.len() - i,
    {
        r.push(condition_term(&wcs[i]));
        i += 1;
    }
    proof {
        assert(views(r@) =~= conditions(views(wcs@)));
    }
    r
}

/// What the datum of an impl holds: the kinds of its parameters, its trait
/// reference and its where clauses.
pub open spec fn impl_parts(d: SpecDatum) -> Option<(Seq<VariableKind>, SpecTerm, Seq<SpecTerm>)> {
    match (d.meta, opened(d.term)) {
        (ItemMeta::Impl { .. }, Some((ks, body))) => match pair(body) {
            Some((tr, wcs)) => match items(wcs) {
                Some(ws) => if tr.head is TraitRef {
                    Some((ks, tr, ws))
                } else {
                    None
                },
                None => None,
            },
            None => None,
        },
        _ => None,
    }
}

/// What the datum of an impl holds.
pub fn read_impl(d: &Datum) -> (r: Option<(Vec<VariableKind>, &Term, &Vec<Term>)>)
    ensures
        match impl_parts(d@) {
            Some((ks, tr, ws)) => r is Some && (r->0).0@ == ks && (r->0).1@ == tr && views((r->0).2@) == ws,
            None => r is None,
        },
{
    match d.meta {
        ItemMeta::Impl { .. } => {},
        _ => {
            return None;
        },
    }
    match open_term(&d.term) {
        Some((ks, body)) => match list_pair(body) {
            Some((tr, wcs)) => match list_items(wcs) {
                Some(ws) => match tr.head {
                    Head::TraitRef(_) => {
                        proof {
                            lemma_view_args(*tr);
                        }
                        Some((ks, tr, ws))
                    },
                    _ => {
                        proof {
                            lemma_view_args(*tr);
                        }
                        None
                    },
                },
                None => None,
            },
            None => None,
        },
        None => None,
    }
}

/// The clause of an impl: the trait is implemented where the where clauses
/// of the impl hold. A negative impl has no clause.
pub open spec fn impl_clauses(d: SpecDatum) -> Seq<SpecTerm> {
    match (d.meta, impl_parts(d)) {
        (ItemMeta::Impl { polarity: Polarity::Positive, .. }, Some((ks, tr, ws))) => seq![
            clause(ks, implemented(tr), conditions(ws)),
        ],
        _ => Seq::empty(),
    }
}

/// The fact that a trait reference holds.
pub fn implemented_term(tr: &Term) -> (r: Term)
    ensures
        r@ == implemented(tr@),
{
    with_args_of(Head::Fact(Predicate::Implemented(trait_number(tr))), tr)
}

/// The clause of an impl.
pub fn impl_clause_terms(d: &Datum) -> (r: Vec<Term>)
    ensures
        views(r@) == impl_clauses(d@),
{
    let mut r: Vec<Term> = Vec::new();
    let positive = match d.meta {
        ItemMeta::Impl { polarity: Polarity::Positive, .. } => true,
        _ => false,
    };
    if positive {
        if let Some((ks, tr, ws)) = read_impl(d) {
            r.push(clause_term(&ks, implemented_term(tr), condition_terms(ws)));
        }
    }
    proof {
        assert(views(r@) =~= impl_clauses(d@));
    }
    r
}

/// The place of the last impl with the number `id` among the first `n`
/// data.
pub open spec fn impl_upto(data: Seq<SpecDatum>, id: RawId, n: nat) -> Option<int>
    decreases n,
{
    if n == 0 || n > data.len() {
        None
    } else if data[n - 1].id == id && impl_parts(data[n - 1]) is Some {
        Some(n - 1)
    } else {
        impl_upto(data, id, (n - 1) as nat)
    }
}

/// What was found is an impl with the number looked for.
pub proof fn lemma_impl_found(data: Seq<SpecDatum>, id: RawId, n: nat)
    requires
        impl_upto(data, id, n) is Some,
    ensures
        0 <= impl_upto(data, id, n)->0 < n,
        n <= data.len(),
        data[impl_upto(data, id, n)->0].id == id,
        impl_parts(data[impl_upto(data, id, n)->0]) is Some,
    decreases n,
{
    if !(data[n - 1].id == id && impl_parts(data[n - 1]) is Some) {
        lemma_impl_found(data, id, (n - 1) as nat);
    }
}

/// The place of the last impl with the number `id`.
pub fn find_impl(data: &Vec<Datum>, id: RawId) -> (r: Option<usize>)
    ensures
        r is Some ==> r->0 < data@.len() && impl_upto(datum_views(data@), id, data@.len()) == Some(r->0 as int),
        r is None ==> impl_upto(datum_views(data@), id, data@.len()) is None,
{
    let mut n: usize = data.len();
    while n > 0
        invariant
            0 <= n <= data.len(),
            impl_upto(datum_views(data@), id, data@.len()) == impl_upto(datum_views(data@), id, n as nat),
        decreases n,
    {
        if data[n - 1].id.index == id.index && read_impl(&data[n - 1]).is_some() {
            return Some(n - 1);
        }
        n -= 1;
    }
    None
}

/// The clause of the value that an impl gives an associated type: the
/// projection of the associated type from the trait reference of the impl
/// normalizes to the value where the trait reference holds. The parameters
/// of the value come before those of the impl.
pub open spec fn value_clauses(data: Seq<SpecDatum>, d: SpecDatum) -> Seq<SpecTerm> {
    match (d.meta, opened(d.term)) {
        (ItemMeta::AssociatedTyValue { impl_id, associated_ty_id }, Some((ks, ty))) => match impl_upto(
            data,
            impl_id,
            data.len(),
        ) {
            Some(i) => {
                let parts = impl_parts(data[i])->0;
                if parts.0.len() <= ks.len() {
                    let own = (ks.len() - parts.0.len()) as nat;
                    let of_impl = opened_with(parts.1, slots(parts.0, parts.0.len(), 0, own));
                    let projection = node(
                        Head::Projection(associated_ty_id.index),
                        slots(ks, own, 0, 0) + of_impl.args,
                    );
                    seq![
                        clause(ks, fact(Predicate::Normalize, seq![projection, ty]), seq![implemented(of_impl)]),
                    ]
                } else {
                    Seq::empty()
                }
            },
            None => Seq::empty(),
        },
        _ => Seq::empty(),
    }
}

/// The clause of the value that an impl gives an associated type.
pub fn value_clause_terms(data: &Vec<Datum>, d: &Datum) -> (r: Vec<Term>)
    ensures
        views(r@) == value_clauses(datum_views(data@), d@),
{
    let mut r: Vec<Term> = Vec::new();
    if let ItemMeta::AssociatedTyValue { impl_id, associated_ty_id } = d.meta {
        if let Some((ks, ty)) = open_term(&d.term) {
            if let Some(i) = find_impl(data, impl_id) {
                proof {
                    let dv = datum_views(data@);
                    assert(dv[i as int] == data@[i as int]@);
                    lemma_impl_found(dv, impl_id, dv.len());
                }
                if let Some((iks, tr, _)) = read_impl(&data[i]) {
                    proof {
                        let dv = datum_views(data@);
                        assert((impl_parts(dv[i as int])->0).0 == iks@);
                    }
                    if iks.len() <= ks.len() {
                        let own = ks.len() - iks.len();
                        let of_impl = open_with(tr, &slot_terms(&iks, iks.len(), 0, own));
                        let mut args = slot_terms(&ks, own, 0, 0);
                        proof {
                            lemma_view_args(of_impl);
                        }
                        append_terms(&mut args, clone_terms(&of_impl.args));
                        let projection = Term::new(Head::Projection(associated_ty_id.index), args);
                        let consequence = fact_term(Predicate::Normalize, two(projection, clone_term(ty)));
                        let c = clause_term(&ks, consequence, one(implemented_term(&of_impl)));
                        proof {
                            let dv = datum_views(data@);
                            assert(dv[i as int] == data@[i as int]@);
                            assert((impl_parts(dv[i as int])->0).0 == iks@);
                            assert((impl_parts(dv[i as int])->0).1 == tr@);
                            assert(projection@ == node(
                                Head::Projection(associated_ty_id.index),
                                slots(ks@, own as nat, 0, 0) + of_impl@.args,
                            ));
                            assert(dv.len() == data@.len());
                            assert(impl_upto(dv, impl_id, dv.len()) == Some(i as int));
                            assert(opened(d@.term) == Some((ks@, ty@)));
                            assert(of_impl@ == opened_with(tr@, slots(iks@, iks@.len(), 0, own as nat)));
                            assert(consequence@ == fact(Predicate::Normalize, seq![projection@, ty@]));
                            assert(c@ == clause(ks@, consequence@, seq![implemented(of_impl@)]));
                            assert(value_clauses(dv, d@) =~= seq![c@]);
                        }
                        r.push(c);
                    }
                }
            }
        }
    }
    proof {
        assert(views(r@) =~= value_clauses(datum_views(data@), d@));
    }
    r
}

/// The clauses of an associated type: the projection equals every type
/// that it normalizes to, and it equals its placeholder.
pub open spec fn associated_clauses(d: SpecDatum) -> Seq<SpecTerm> {
    match (d.meta, opened(d.term)) {
        (ItemMeta::AssociatedTy { .. }, Some((ks, _))) => {
            let projection = node(Head::Projection(d.id.index), parameters_of(ks));
            let value = SpecTerm::atom(Head::BoundVar { kind: Kind::Ty, depth: 0, index: ks.len() as usize });
            seq![
                clause(
                    ks.push(VariableKind::Ty),
                    fact(Predicate::AliasEq, seq![projection, value]),
                    seq![fact(Predicate::Normalize, seq![projection, value])],
                ),
                clause(
                    ks,
                    fact(
                        Predicate::AliasEq,
                        seq![projection, node(Head::Apply(TypeName::AssociatedType(d.id.index)), parameters_of(ks))],
                    ),
                    Seq::empty(),
                ),
            ]
        },
        _ => Seq::empty(),
    }
}

/// The clauses of an associated type.
pub fn associated_clause_terms(d: &Datum) -> (r: Vec<Term>)
    ensures
        views(r@) == associated_clauses(d@),
{
    let mut r: Vec<Term> = Vec::new();
    if let ItemMeta::AssociatedTy { .. } = d.meta {
        if let Some((ks, _)) = open_term(&d.term) {
            let n = ks.len();
            let placeholder = Term::new(Head::Apply(TypeName::AssociatedType(d.id.index)), parameter_terms(&ks));
            let second = clause_term(
                &ks,
                fact_term(
                    Predicate::AliasEq,
                    two(Term::new(Head::Projection(d.id.index), parameter_terms(&ks)), placeholder),
                ),
                Vec::new(),
            );
            let projection = Term::new(Head::Projection(d.id.index), parameter_terms(&ks));
            let again = clone_term(&projection);
            let value = Head::BoundVar { kind: Kind::Ty, depth: 0, index: n };
            let ghost before = ks@;
            let mut ks = ks;
            ks.push(VariableKind::Ty);
            let first = clause_term(
                &ks,
                fact_term(Predicate::AliasEq, two(projection, Term::atom(value))),
                one(fact_term(Predicate::Normalize, two(again, Term::atom(value)))),
            );
            r.push(first);
            r.push(second);
            proof {
                assert(ks@ == before.push(VariableKind::Ty));
            }
        }
    }
    proof {
        assert(views(r@) =~= associated_clauses(d@));
    }
    r
}

/// The clause of a trait: it is implemented where the environment says so.
pub open spec fn trait_clauses(d: SpecDatum) -> Seq<SpecTerm> {
    match (d.meta, opened(d.term)) {
        (ItemMeta::Trait { .. }, Some((ks, _))) => seq![
            clause(
                ks,
                fact(Predicate::Implemented(d.id.index), parameters_of(ks)),
                seq![fact(Predicate::FromEnvTrait(d.id.index), parameters_of(ks))],
            ),
        ],
        _ => Seq::empty(),
    }
}

/// The clause of a trait.
pub fn trait_clause_terms(d: &Datum) -> (r: Vec<Term>)
    ensures
        views(r@) == trait_clauses(d@),
{
    let mut r: Vec<Term> = Vec::new();
    if let ItemMeta::Trait { .. } = d.meta {
        if let Some((ks, _)) = open_term(&d.term) {
            r.push(
                clause_term(
                    &ks,
                    fact_term(Predicate::Implemented(d.id.index), parameter_terms(&ks)),
                    one(fact_term(Predicate::FromEnvTrait(d.id.index), parameter_terms(&ks))),
                ),
            );
        }
    }
    proof {
        assert(views(r@) =~= trait_clauses(d@));
    }
    r
}

/// The numbers of the auto traits among the first `n` data.
pub open spec fn auto_traits(data: Seq<SpecDatum>, n: nat) -> Seq<u32>
    decreases n,
{
    if n == 0 || n > data.len() {
        Seq::empty()
    } else {
        let rest = auto_traits(data, (n - 1) as nat);
        match data[n - 1].meta {
            ItemMeta::Trait { flags, .. } => if flags.auto {
                rest.push(data[n - 1].id.index)
            } else {
                rest
            },
            _ => rest,
        }
    }
}

/// The numbers of the auto traits of a program.
pub fn auto_trait_ids(data: &Vec<Datum>) -> (r: Vec<u32>)
    ensures
        r@ == auto_traits(datum_views(data@), data@.len()),
{
    let mut r: Vec<u32> = Vec::new();
    let mut i: usize = 0;
    while i < data.len()
        invariant
            0 <= i <= data.len(),
            r@ == auto_traits(datum_views(data@), i as nat),
        decreases data.len() - i,
    {
        if let ItemMeta::Trait { flags, .. } = data[i].meta {
            if flags.auto {
                r.push(data[i].id.index);
            }
        }
        i += 1;
    }
    r
}

/// The numbers of the traits, among the first `n` data, whose
/// implementation may be assumed while it is proved: the auto traits and
/// the traits declared coinductive.
pub open spec fn coinductive_traits(data: Seq<SpecDatum>, n: nat) -> Seq<u32>
    decreases n,
{
    if n == 0 || n > data.len() {
        Seq::empty()
    } else {
        let rest = coinductive_traits(data, (n - 1) as nat);
        match data[n - 1].meta {
            ItemMeta::Trait { flags, .. } => if flags.auto || flags.coinductive {
                rest.push(data[n - 1].id.index)
            } else {
                rest
            },
            _ => rest,
        }
    }
}

/// The numbers of the coinductive traits of a program.
pub fn coinductive_trait_ids(data: &Vec<Datum>) -> (r: Vec<u32>)
    ensures
        r@ == coinductive_traits(datum_views(data@), data@.len()),
{
    let mut r: Vec<u32> = Vec::new();
    let mut i: usize = 0;
    while i < data.len()
        invariant
            0 <= i <= data.len(),
            r@ == coinductive_traits(datum_views(data@), i as nat),
        decreases data.len() - i,
    {
        if let ItemMeta::Trait { flags, .. } = data[i].meta {
            if flags.auto || flags.coinductive {
                r.push(data[i].id.index);
            }
        }
        i += 1;
    }
    r
}

/// The hidden type that the last of the first `n` entries gives the opaque
/// type `id`.
pub open spec fn hidden_upto(hidden: Seq<(RawId, SpecTerm)>, id: RawId, n: nat) -> Option<SpecTerm>
    decreases n,
{
    if n == 0 || n > hidden.len() {
        None
    } else if hidden[n - 1].0 == id {
        Some(hidden[n - 1].1)
    } else {
        hidden_upto(hidden, id, (n - 1) as nat)
    }
}

/// The hidden type of an opaque type.
pub fn find_hidden(hidden: &Vec<(RawId, Term)>, id: RawId) -> (r: Option<&Term>)
    ensures
        match hidden_upto(hidden_views(hidden@), id, hidden@.len()) {
            Some(t) => r is Some && r->0@ == t,
            None => r is None,
        },
{
    let mut n: usize = hidden.len();
    while n > 0
        invariant
            0 <= n <= hidden.len(),
            hidden_upto(hidden_views(hidden@), id, hidden@.len()) == hidden_upto(
                hidden_views(hidden@),
                id,
                n as nat,
            ),
        decreases n,
    {
        if hidden[n - 1].0.index == id.index {
            return Some(&hidden[n - 1].1);
        }
        n -= 1;
    }
    None
}

/// What a bound or a where clause of an opaque type says of its
/// placeholder: the fact under the binder of the opaque type, with the
/// placeholder in place of the opaque type itself. The variables that the
/// where clause binds come after the parameters of the opaque type.
pub open spec fn bound_clause(ks: Seq<VariableKind>, placeholder: SpecTerm, inner: Seq<VariableKind>, f: SpecTerm)
    -> SpecTerm {
    clause(
        ks + inner,
        opened_with(opened_with(f, slots(inner, inner.len(), 1, ks.len())), seq![placeholder]),
        Seq::empty(),
    )
}

/// What the first `n` of the bounds or where clauses of an opaque type say
/// of its placeholder.
pub open spec fn bound_clauses(ks: Seq<VariableKind>, placeholder: SpecTerm, wcs: Seq<SpecTerm>, n: nat) -> Seq<
    SpecTerm,
>
    decreases n,
{
    if n == 0 || n > wcs.len() {
        Seq::empty()
    } else {
        let rest = bound_clauses(ks, placeholder, wcs, (n - 1) as nat);
        match opened(wcs[n - 1]) {
            Some((inner, f)) => if ks.len() + inner.len() <= usize::MAX {
                rest.push(bound_clause(ks, placeholder, inner, f))
            } else {
                rest
            },
            None => rest,
        }
    }
}

/// The kinds `a` followed by the kinds `b`.
pub fn joined_kinds(a: &Vec<VariableKind>, b: &Vec<VariableKind>) -> (r: Vec<VariableKind>)
    ensures
        r@ == a@ + b@,
{
    let mut r: Vec<VariableKind> = Vec::new();
    let mut i: usize = 0;
    while i < a.len()
        invariant
            0 <= i <= a.len(),
            r@ == a@.take(i as int),
        decreases a.len() - i,
    {
        r.push(a[i]);
        proof {
            assert(r@ =~= a@.take(i + 1));
        }
        i += 1;
    }
    let mut j: usize = 0;
    while j < b.len()
        invariant
            0 <= j <= b.len(),
            r@ == a@ + b@.take(j as int),
        decreases b.len() - j,
    {
        r.push(b[j]);
        proof {
            assert(r@ =~= a@ + b@.take(j + 1));
        }
        j += 1;
    }
    proof {
        assert(r@ =~= a@ + b@);
    }
    r
}

/// What the bounds or where clauses of an opaque type say of its
/// placeholder.
pub fn bound_clause_terms(ks: &Vec<VariableKind>, placeholder: &Term, wcs: &Vec<Term>) -> (r: Vec<Term>)
    ensures
        views(r@) == bound_clauses(ks@, placeholder@, views(wcs@), wcs@.len()),
{
    let mut r: Vec<Term> = Vec::new();
    let mut i: usize = 0;
    proof {
        assert(views(r@) =~= Seq::empty());
    }
    while i < wcs.len()
        invariant
            0 <= i <= wcs.len(),
            views(r@) == bound_clauses(ks@, placeholder@, views(wcs@), i as nat),
        decreases wcs.len() - i,
    {
        let ghost before = views(r@);
        if let Some((inner, f)) = open_term(&wcs[i]) {
            if inner.len() <= usize::MAX - ks.len() {
                let opened_inner = open_with(f, &slot_terms(&inner, inner.len(), 1, ks.len()));
                let consequence = open_with(&opened_inner, &one(clone_term(placeholder)));
                let all = joined_kinds(ks, &inner);
                let c = clause_term(&all, consequence, Vec::new());
                r.push(c);
                proof {
                    assert(views(r@) =~= before.push(bound_clause(ks@, placeholder@, inner@, f@)));
                }
            }
        }
        proof {
            assert(views(r@) =~= bound_clauses(ks@, placeholder@, views(wcs@), (i + 1) as nat));
        }
        i += 1;
    }
    r
}

/// For each auto trait: it holds of the placeholder of an opaque type
/// where it holds of the hidden type.
pub open spec fn hidden_auto_clauses(ks: Seq<VariableKind>, placeholder: SpecTerm, hidden: SpecTerm, autos: Seq<u32>)
    -> Seq<SpecTerm> {
    Seq::new(
        autos.len(),
        |i: int|
            clause(
                ks,
                fact(Predicate::Implemented(autos[i]), seq![placeholder]),
                seq![fact(Predicate::Implemented(autos[i]), seq![hidden])],
            ),
    )
}

/// For each auto trait: it holds of the placeholder of an opaque type
/// where it holds of the hidden type.
pub fn hidden_auto_clause_terms(ks: &Vec<VariableKind>, placeholder: &Term, hidden: &Term, autos: &Vec<u32>) -> (r:
    Vec<Term>)
    ensures
        views(r@) == hidden_auto_clauses(ks@, placeholder@, hidden@, autos@),
{
    let mut r: Vec<Term> = Vec::new();
    let mut i: usize = 0;
    while i < autos.len()
        invariant
            0 <= i <= autos.len(),
            r.len() == i,
            forall|j: int|
                0 <= j < i ==> (#[trigger] r@[j])@ == clause(
                    ks@,
                    fact(Predicate::Implemented(autos@[j]), seq![placeholder@]),
                    seq![fact(Predicate::Implemented(autos@[j]), seq![hidden@])],
                ),
        decreases autos.len() - i,
    {
        let a = Predicate::Implemented(autos[i]);
        r.push(clause_term(ks, fact_term(a, one(clone_term(placeholder))), one(fact_term(a, one(clone_term(hidden))))));
        i += 1;
    }
    proof {
        assert(views(r@) =~= hidden_auto_clauses(ks@, placeholder@, hidden@, autos@));
    }
    r
}

/// What the datum of an opaque type holds: the kinds of its parameters,
/// the where clauses that its bounds make, and its where clauses.
pub open spec fn opaque_parts(d: SpecDatum) -> Option<(Seq<VariableKind>, Seq<SpecTerm>, Seq<SpecTerm>)> {
    match (d.meta, opened(d.term)) {
        (ItemMeta::OpaqueTy, Some((ks, body))) => match pair(body) {
            Some((bounds, wcs)) => match (opened(bounds), opened(wcs)) {
                (Some((_, bs)), Some((_, ws))) => match (items(bs), items(ws)) {
                    (Some(b), Some(w)) => Some((ks, b, w)),
                    _ => None,
                },
                _ => None,
            },
            None => None,
        },
        _ => None,
    }
}

/// What the datum of an opaque type holds.
pub fn read_opaque(d: &Datum) -> (r: Option<(Vec<VariableKind>, &Vec<Term>, &Vec<Term>)>)
    ensures
        match opaque_parts(d@) {
            Some((ks, b, w)) => r is Some && (r->0).0@ == ks && views((r->0).1@) == b && views((r->0).2@) == w,
            None => r is None,
        },
{
    match d.meta {
        ItemMeta::OpaqueTy => {},
        _ => {
            return None;
        },
    }
    match open_term(&d.term) {
        Some((ks, body)) => match list_pair(body) {
            Some((bounds, wcs)) => match open_term(bounds) {
                Some((_, bs)) => match open_term(wcs) {
                    Some((_, ws)) => match list_items(bs) {
                        Some(b) => match list_items(ws) {
                            Some(w) => Some((ks, b, w)),
                            None => None,
                        },
                        None => None,
                    },
                    None => None,
                },
                None => None,
            },
            None => None,
        },
        None => None,
    }
}

/// The clauses of an opaque type whatever its hidden type: it equals its
/// placeholder, and its bounds and its where clauses hold of the
/// placeholder.
pub open spec fn opaque_own_clauses(d: SpecDatum) -> Seq<SpecTerm> {
    match opaque_parts(d) {
        Some((ks, b, w)) => {
            let alias = node(Head::OpaqueAlias(d.id.index), parameters_of(ks));
            let placeholder = node(Head::Apply(TypeName::OpaqueType(d.id.index)), parameters_of(ks));
            seq![clause(ks, fact(Predicate::AliasEq, seq![alias, placeholder]), Seq::empty())] + bound_clauses(
                ks,
                placeholder,
                b,
                b.len(),
            ) + bound_clauses(ks, placeholder, w, w.len())
        },
        None => Seq::empty(),
    }
}

/// The clauses of an opaque type that speak of its hidden type: where the
/// hidden type is revealed the opaque type equals it, and an auto trait
/// holds of the placeholder where it holds of the hidden type.
pub open spec fn opaque_hidden_clauses(p: SpecProgramData, d: SpecDatum) -> Seq<SpecTerm> {
    match (opaque_parts(d), hidden_upto(p.hidden_opaque_types, d.id, p.hidden_opaque_types.len())) {
        (Some((ks, _, _)), Some(hidden)) => {
            let alias = node(Head::OpaqueAlias(d.id.index), parameters_of(ks));
            let placeholder = node(Head::Apply(TypeName::OpaqueType(d.id.index)), parameters_of(ks));
            seq![
                clause(ks, fact(Predicate::AliasEq, seq![alias, hidden]), seq![fact(Predicate::Reveal, Seq::empty())]),
            ] + hidden_auto_clauses(ks, placeholder, hidden, auto_traits(p.data, p.data.len()))
        },
        _ => Seq::empty(),
    }
}

/// The clauses of an opaque type.
pub open spec fn opaque_clauses(p: SpecProgramData, d: SpecDatum) -> Seq<SpecTerm> {
    opaque_hidden_clauses(p, d) + opaque_own_clauses(d)
}

/// The clauses of an opaque type.
fn opaque_clause_terms(p: &LoweredProgram, autos: &Vec<u32>, d: &Datum) -> (r: Vec<Term>)
    requires
        autos@ == auto_traits(p.data_view().data, p.data_view().data.len()),
    ensures
        views(r@) == opaque_clauses(p.data_view(), d@),
{
    let mut r: Vec<Term> = Vec::new();
    proof {
        assert(views(r@) =~= Seq::empty());
    }
    if let Some((ks, b, w)) = read_opaque(d) {
        let id = d.id.index;
        let placeholder = Term::new(Head::Apply(TypeName::OpaqueType(id)), parameter_terms(&ks));
        if let Some(hidden) = find_hidden(&p.hidden_opaque_types, d.id) {
            let alias = Term::new(Head::OpaqueAlias(id), parameter_terms(&ks));
            let none: Vec<Term> = Vec::new();
            proof {
                assert(views(none@) =~= Seq::empty());
            }
            let c = clause_term(
                &ks,
                fact_term(Predicate::AliasEq, two(alias, clone_term(hidden))),
                one(fact_term(Predicate::Reveal, none)),
            );
            r.push(c);
            proof {
                assert(views(r@) =~= seq![c@]);
            }
            append_terms(&mut r, hidden_auto_clause_terms(&ks, &placeholder, hidden, autos));
        }
        proof {
            assert(views(r@) =~= opaque_hidden_clauses(p.data_view(), d@));
        }
        let alias = Term::new(Head::OpaqueAlias(id), parameter_terms(&ks));
        let ghost before = views(r@);
        let c = clause_term(&ks, fact_term(Predicate::AliasEq, two(alias, clone_term(&placeholder))), Vec::new());
        r.push(c);
        proof {
            assert(views(r@) =~= before + seq![c@]);
        }
        append_terms(&mut r, bound_clause_terms(&ks, &placeholder, b));
        append_terms(&mut r, bound_clause_terms(&ks, &placeholder, w));
        proof {
            assert(views(r@) =~= opaque_hidden_clauses(p.data_view(), d@) + opaque_own_clauses(d@));
        }
    } else {
        proof {
            assert(opaque_clauses(p.data_view(), d@) =~= Seq::empty());
        }
    }
    r
}

/// What the datum of an adt holds: the kinds of its parameters and its
/// variants, each a list of the types of its fields.
pub open spec fn adt_parts(d: SpecDatum) -> Option<(Seq<VariableKind>, Seq<SpecTerm>)> {
    match (d.meta, opened(d.term)) {
        (ItemMeta::Adt { .. }, Some((ks, body))) => match pair(body) {
            Some((variants, _)) => match items(variants) {
                Some(vs) => Some((ks, vs)),
                None => None,
            },
            None => None,
        },
        _ => None,
    }
}

/// What the datum of an adt holds.
pub fn read_adt(d: &Datum) -> (r: Option<(Vec<VariableKind>, &Vec<Term>)>)
    ensures
        match adt_parts(d@) {
            Some((ks, vs)) => r is Some && (r->0).0@ == ks && views((r->0).1@) == vs,
            None => r is None,
        },
{
    match d.meta {
        ItemMeta::Adt { .. } => {},
        _ => {
            return None;
        },
    }
    match open_term(&d.term) {
        Some((ks, body)) => match list_pair(body) {
            Some((variants, _)) => match list_items(variants) {
                Some(vs) => Some((ks, vs)),
                None => None,
            },
            None => None,
        },
        None => None,
    }
}

/// The types of the fields of the first `n` variants.
pub open spec fn fields_of(variants: Seq<SpecTerm>, n: nat) -> Seq<SpecTerm>
    decreases n,
{
    if n == 0 || n > variants.len() {
        Seq::empty()
    } else {
        fields_of(variants, (n - 1) as nat) + variants[n - 1].args
    }
}

/// The types of the fields of all the variants.
pub fn field_terms(variants: &Vec<Term>) -> (r: Vec<Term>)
    ensures
        views(r@) == fields_of(views(variants@), variants@.len()),
{
    let mut r: Vec<Term> = Vec::new();
    let mut i: usize = 0;
    proof {
        assert(views(r@) =~= Seq::empty());
    }
    while i < variants.len()
        invariant
            0 <= i <= variants.len(),
            views(r@) == fields_of(views(variants@), i as nat),
        decreases variants.len() - i,
    {
        proof {
            lemma_view_args(variants@[i as int]);
        }
        append_terms(&mut r, clone_terms(&variants[i].args));
        i += 1;
    }
    r
}

/// Whether one of the first `n` data is an impl, positive or negative, of
/// the trait for the adt.
pub open spec fn has_impl(data: Seq<SpecDatum>, trait_id: u32, adt: u32, n: nat) -> bool
    decreases n,
{
    if n == 0 || n > data.len() {
        false
    } else {
        has_impl(data, trait_id, adt, (n - 1) as nat) || match impl_parts(data[n - 1]) {
            Some((_, tr, _)) => tr.head == Head::TraitRef(trait_id) && tr.args.len() > 0 && tr.args[0].head
                == Head::Apply(TypeName::Adt(adt)),
            None => false,
        }
    }
}

/// Whether the program has an impl of the trait for the adt.
pub fn impl_provided(data: &Vec<Datum>, trait_id: u32, adt: u32) -> (r: bool)
    ensures
        r == has_impl(datum_views(data@), trait_id, adt, data@.len()),
{
    let mut i: usize = 0;
    while i < data.len()
        invariant
            0 <= i <= data.len(),
            !has_impl(datum_views(data@), trait_id, adt, i as nat),
        decreases data.len() - i,
    {
        if let Some((_, tr, _)) = read_impl(&data[i]) {
            proof {
                lemma_view_args(*tr);
            }
            if tr.head == Head::TraitRef(trait_id) && tr.args.len() > 0 {
                proof {
                    lemma_view_args(tr.args@[0]);
                }
                if tr.args[0].head == Head::Apply(TypeName::Adt(adt)) {
                    proof {
                        lemma_has_impl_later(datum_views(data@), trait_id, adt, (i + 1) as nat, data@.len() as nat);
                    }
                    return true;
                }
            }
        }
        i += 1;
    }
    false
}

/// An impl among the first data is among all of them.
pub proof fn lemma_has_impl_later(data: Seq<SpecDatum>, trait_id: u32, adt: u32, n: nat, m: nat)
    requires
        n <= m <= data.len(),
        has_impl(data, trait_id, adt, n),
    ensures
        has_impl(data, trait_id, adt, m),
    decreases m,
{
    if n < m {
        lemma_has_impl_later(data, trait_id, adt, n, (m - 1) as nat);
    }
}

/// The facts that a trait is implemented for each of the types.
pub open spec fn each_implements(trait_id: u32, tys: Seq<SpecTerm>) -> Seq<SpecTerm> {
    Seq::new(tys.len(), |i: int| fact(Predicate::Implemented(trait_id), seq![tys[i]]))
}

/// The facts that a trait is implemented for each of the types.
pub fn each_implements_terms(trait_id: u32, tys: &Vec<Term>) -> (r: Vec<Term>)
    ensures
        views(r@) == each_implements(trait_id, views(tys@)),
{
    let mut r: Vec<Term> = Vec::new();
    let mut i: usize = 0;
    while i < tys.len()
        invariant
            0 <= i <= tys.len(),
            r.len() == i,
            forall|j: int|
                0 <= j < i ==> (#[trigger] r@[j])@ == fact(Predicate::Implemented(trait_id), seq![tys@[j]@]),
        decreases tys.len() - i,
    {
        r.push(fact_term(Predicate::Implemented(trait_id), one(clone_term(&tys[i]))));
        i += 1;
    }
    proof {
        assert(views(r@) =~= each_implements(trait_id, views(tys@)));
    }
    r
}

/// For each of the first `n` auto traits of which the program has no impl
/// for the adt: the trait holds of the adt where it holds of the types of
/// all its fields.
pub open spec fn auto_clauses(
    data: Seq<SpecDatum>,
    ks: Seq<VariableKind>,
    adt: u32,
    fields: Seq<SpecTerm>,
    autos: Seq<u32>,
    n: nat,
) -> Seq<SpecTerm>
    decreases n,
{
    if n == 0 || n > autos.len() {
        Seq::empty()
    } else {
        let rest = auto_clauses(data, ks, adt, fields, autos, (n - 1) as nat);
        if has_impl(data, autos[n - 1], adt, data.len()) {
            rest
        } else {
            rest.push(
                clause(
                    ks,
                    fact(
                        Predicate::Implemented(autos[n - 1]),
                        seq![node(Head::Apply(TypeName::Adt(adt)), parameters_of(ks))],
                    ),
                    each_implements(autos[n - 1], fields),
                ),
            )
        }
    }
}

/// The clauses of an adt: those of the auto traits.
pub open spec fn adt_clauses(data: Seq<SpecDatum>, d: SpecDatum) -> Seq<SpecTerm> {
    match adt_parts(d) {
        Some((ks, vs)) => {
            let autos = auto_traits(data, data.len());
            auto_clauses(data, ks, d.id.index, fields_of(vs, vs.len()), autos, autos.len())
        },
        None => Seq::empty(),
    }
}

/// The clauses of an adt.
fn adt_clause_terms(data: &Vec<Datum>, autos: &Vec<u32>, d: &Datum) -> (r: Vec<Term>)
    requires
        autos@ == auto_traits(datum_views(data@), data@.len()),
    ensures
        views(r@) == adt_clauses(datum_views(data@), d@),
{
    let mut r: Vec<Term> = Vec::new();
    proof {
        assert(views(r@) =~= Seq::empty());
    }
    if let Some((ks, vs)) = read_adt(d) {
        let fields = field_terms(vs);
        let adt = d.id.index;
        let mut i: usize = 0;
        while i < autos.len()
            invariant
                0 <= i <= autos.len(),
                views(r@) == auto_clauses(datum_views(data@), ks@, adt, views(fields@), autos@, i as nat),
            decreases autos.len() - i,
        {
            let ghost before = views(r@);
            if !impl_provided(data, autos[i], adt) {
                let of_adt = Term::new(Head::Apply(TypeName::Adt(adt)), parameter_terms(&ks));
                let c = clause_term(
                    &ks,
                    fact_term(Predicate::Implemented(autos[i]), one(of_adt)),
                    each_implements_terms(autos[i], &fields),
                );
                r.push(c);
                proof {
                    assert(views(r@) =~= before.push(c@));
                }
            }
            i += 1;
        }
    }
    r
}

/// The clauses of one datum.
pub open spec fn datum_clauses(p: SpecProgramData, d: SpecDatum) -> Seq<SpecTerm> {
    match d.meta {
        ItemMeta::Impl { .. } => impl_clauses(d),
        ItemMeta::AssociatedTyValue { .. } => value_clauses(p.data, d),
        ItemMeta::AssociatedTy { .. } => associated_clauses(d),
        ItemMeta::OpaqueTy => opaque_clauses(p, d),
        ItemMeta::Adt { .. } => adt_clauses(p.data, d),
        ItemMeta::Trait { .. } => trait_clauses(d),
        _ => Seq::empty(),
    }
}

/// The clauses of the first `n` data of a program, in the order of the
/// data.
pub open spec fn clauses_upto(p: SpecProgramData, n: nat) -> Seq<SpecTerm>
    decreases n,
{
    if n == 0 || n > p.data.len() {
        Seq::empty()
    } else {
        clauses_upto(p, (n - 1) as nat) + datum_clauses(p, p.data[n - 1])
    }
}

/// The clauses of a program: those of its data, then the clauses that the
/// program states itself.
pub open spec fn clauses_of(p: SpecProgramData) -> Seq<SpecTerm> {
    clauses_upto(p, p.data.len()) + p.custom_clauses
}

/// The clauses and the coinductive traits of a program.
pub open spec fn context_model(p: SpecProgramData) -> SpecContext {
    SpecContext { program_clauses: clauses_of(p), coinductive_traits: coinductive_traits(p.data, p.data.len()) }
}

/// The clauses of one datum.
fn datum_clause_terms(p: &LoweredProgram, autos: &Vec<u32>, d: &Datum) -> (r: Vec<Term>)
    requires
        autos@ == auto_traits(p.data_view().data, p.data_view().data.len()),
    ensures
        views(r@) == datum_clauses(p.data_view(), d@),
{
    match d.meta {
        ItemMeta::Impl { .. } => impl_clause_terms(d),
        ItemMeta::AssociatedTyValue { .. } => value_clause_terms(&p.data, d),
        ItemMeta::AssociatedTy { .. } => associated_clause_terms(d),
        ItemMeta::OpaqueTy => opaque_clause_terms(p, autos, d),
        ItemMeta::Adt { .. } => adt_clause_terms(&p.data, autos, d),
        ItemMeta::Trait { .. } => trait_clause_terms(d),
        _ => {
            let r: Vec<Term> = Vec::new();
            proof {
                assert(views(r@) =~= Seq::empty());
            }
            r
        },
    }
}

/// The clauses of a program.
pub fn program_clauses_of(p: &LoweredProgram) -> (r: Vec<Term>)
    ensures
        views(r@) == clauses_of(p.data_view()),
{
    let autos = auto_trait_ids(&p.data);
    let mut r: Vec<Term> = Vec::new();
    let mut i: usize = 0;
    proof {
        assert(views(r@) =~= Seq::empty());
    }
    while i < p.data.len()
        invariant
            0 <= i <= p.data.len(),
            autos@ == auto_traits(p.data_view().data, p.data_view().data.len()),
            views(r@) == clauses_upto(p.data_view(), i as nat),
        decreases p.data.len() - i,
    {
        append_terms(&mut r, datum_clause_terms(p, &autos, &p.data[i]));
        i += 1;
    }
    append_terms(&mut r, clone_terms(&p.custom_clauses));
    r
}

/// The context in which the goals of a program are solved: the clauses of
/// the program, and its coinductive traits.
pub fn context_of(p: &LoweredProgram) -> (ctx: SlgContext)
    ensures
        ctx@ == context_model(p.data_view()),
{
    SlgContext { program_clauses: program_clauses_of(p), coinductive_traits: coinductive_trait_ids(&p.data) }
}

/// Solves `goal` in `environment` against the clauses of a lowered
/// program.
pub fn solve_in_program(p: &LoweredProgram, environment: &Vec<Term>, goal: &Term, max_size: usize, fuel: usize) -> (r:
    Solution)
    ensures
        r@ == solve_model(
            context_model(p.data_view()),
            max_size,
            root_key(views(environment@), goal@),
            fuel as nat,
        ),
{
    let ctx = context_of(p);
    solve_in_environment(&ctx, environment, goal, max_size, fuel)
}

/// Whether a term has the shape of a clause that the search can resolve a
/// goal with: binders, a consequence, and conditions.
pub open spec fn is_clause(t: SpecTerm) -> bool {
    t.head is Clause && t.args.len() >= 2 && binder_kinds(t.args[0]) is Some
}

/// Whether every term of a list has the shape of a clause.
pub open spec fn all_clauses(ts: Seq<SpecTerm>) -> bool {
    forall|i: int| 0 <= i < ts.len() ==> is_clause(#[trigger] ts[i])
}

/// The first kinds of a list of binders are read back as they were written.
proof fn lemma_kinds_read_back(ks: Seq<VariableKind>, n: nat)
    requires
        n <= ks.len(),
    ensures
        crate::slg::kinds_prefix(kinds_term(ks).args, n) == Some(ks.take(n as int)),
    decreases n,
{
    if n == 0 {
        assert(ks.take(0) =~= Seq::empty());
    } else {
        lemma_kinds_read_back(ks, (n - 1) as nat);
        assert(ks.take(n as int) =~= ks.take(n - 1).push(ks[n - 1]));
    }
}

/// What is built as a clause has the shape of a clause, with the binders
/// that it was built with.
pub proof fn lemma_clause_is_clause(ks: Seq<VariableKind>, consequence: SpecTerm, conds: Seq<SpecTerm>)
    ensures
        is_clause(clause(ks, consequence, conds)),
        binder_kinds(clause(ks, consequence, conds).args[0]) == Some(ks),
        clause(ks, consequence, conds).args[1] == consequence,
{
    lemma_kinds_read_back(ks, ks.len());
    assert(ks.take(ks.len() as int) =~= ks);
}

/// The clauses of bounds have the shape of clauses.
proof fn lemma_bound_clauses_are_clauses(ks: Seq<VariableKind>, placeholder: SpecTerm, wcs: Seq<SpecTerm>, n: nat)
    ensures
        all_clauses(bound_clauses(ks, placeholder, wcs, n)),
    decreases n,
{
    if !(n == 0 || n > wcs.len()) {
        lemma_bound_clauses_are_clauses(ks, placeholder, wcs, (n - 1) as nat);
        match opened(wcs[n - 1]) {
            Some((inner, f)) => {
                lemma_clause_is_clause(
                    ks + inner,
                    opened_with(opened_with(f, slots(inner, inner.len(), 1, ks.len())), seq![placeholder]),
                    Seq::empty(),
                );
            },
            None => {},
        }
    }
}

/// The clauses of auto traits for an adt have the shape of clauses.
proof fn lemma_auto_clauses_are_clauses(
    data: Seq<SpecDatum>,
    ks: Seq<VariableKind>,
    adt: u32,
    fields: Seq<SpecTerm>,
    autos: Seq<u32>,
    n: nat,
)
    ensures
        all_clauses(auto_clauses(data, ks, adt, fields, autos, n)),
    decreases n,
{
    if !(n == 0 || n > autos.len()) {
        lemma_auto_clauses_are_clauses(data, ks, adt, fields, autos, (n - 1) as nat);
        lemma_clause_is_clause(
            ks,
            fact(Predicate::Implemented(autos[n - 1]), seq![node(Head::Apply(TypeName::Adt(adt)), parameters_of(ks))]),
            each_implements(autos[n - 1], fields),
        );
    }
}

/// Every clause that is made of a datum has the shape of a clause.
pub proof fn lemma_datum_clauses_are_clauses(p: SpecProgramData, d: SpecDatum)
    ensures
        all_clauses(datum_clauses(p, d)),
{
    let cs = datum_clauses(p, d);
    assert forall|i: int| 0 <= i < cs.len() implies is_clause(#[trigger] cs[i]) by {
        match d.meta {
            ItemMeta::Impl { .. } => {
                let parts = impl_parts(d)->0;
                lemma_clause_is_clause(parts.0, implemented(parts.1), conditions(parts.2));
            },
            ItemMeta::AssociatedTyValue { impl_id, associated_ty_id } => {
                let (ks, ty) = opened(d.term)->0;
                let parts = impl_parts(p.data[impl_upto(p.data, impl_id, p.data.len())->0])->0;
                let own = (ks.len() - parts.0.len()) as nat;
                let of_impl = opened_with(parts.1, slots(parts.0, parts.0.len(), 0, own));
                let projection = node(Head::Projection(associated_ty_id.index), slots(ks, own, 0, 0) + of_impl.args);
                lemma_clause_is_clause(
                    ks,
                    fact(Predicate::Normalize, seq![projection, ty]),
                    seq![implemented(of_impl)],
                );
            },
            ItemMeta::AssociatedTy { .. } => {
                let (ks, _) = opened(d.term)->0;
                let projection = node(Head::Projection(d.id.index), parameters_of(ks));
                let value = SpecTerm::atom(Head::BoundVar { kind: Kind::Ty, depth: 0, index: ks.len() as usize });
                lemma_clause_is_clause(
                    ks.push(VariableKind::Ty),
                    fact(Predicate::AliasEq, seq![projection, value]),
                    seq![fact(Predicate::Normalize, seq![projection, value])],
                );
                lemma_clause_is_clause(
                    ks,
                    fact(
                        Predicate::AliasEq,
                        seq![projection, node(Head::Apply(TypeName::AssociatedType(d.id.index)), parameters_of(ks))],
                    ),
                    Seq::empty(),
                );
            },
            ItemMeta::OpaqueTy => {
                let (ks, b, w) = opaque_parts(d)->0;
                let alias = node(Head::OpaqueAlias(d.id.index), parameters_of(ks));
                let placeholder = node(Head::Apply(TypeName::OpaqueType(d.id.index)), parameters_of(ks));
                let of_hidden = opaque_hidden_clauses(p, d);
                lemma_clause_is_clause(ks, fact(Predicate::AliasEq, seq![alias, placeholder]), Seq::empty());
                lemma_bound_clauses_are_clauses(ks, placeholder, b, b.len());
                lemma_bound_clauses_are_clauses(ks, placeholder, w, w.len());
                if i < of_hidden.len() {
                    let hidden = hidden_upto(p.hidden_opaque_types, d.id, p.hidden_opaque_types.len())->0;
                    let autos = auto_traits(p.data, p.data.len());
                    lemma_clause_is_clause(
                        ks,
                        fact(Predicate::AliasEq, seq![alias, hidden]),
                        seq![fact(Predicate::Reveal, Seq::empty())],
                    );
                    if i > 0 {
                        lemma_clause_is_clause(
                            ks,
                            fact(Predicate::Implemented(autos[i - 1]), seq![placeholder]),
                            seq![fact(Predicate::Implemented(autos[i - 1]), seq![hidden])],
                        );
                    }
                } else {
                    let own = opaque_own_clauses(d);
                    let first = bound_clauses(ks, placeholder, b, b.len());
                    let second = bound_clauses(ks, placeholder, w, w.len());
                    let j = i - of_hidden.len();
                    assert(cs[i] == own[j]);
                    if j == 0 {
                    } else if j - 1 < first.len() {
                        assert(own[j] == first[j - 1]);
                    } else {
                        assert(own[j] == second[j - 1 - first.len()]);
                    }
                }
            },
            ItemMeta::Adt { .. } => {
                let (ks, vs) = adt_parts(d)->0;
                let autos = auto_traits(p.data, p.data.len());
                lemma_auto_clauses_are_clauses(p.data, ks, d.id.index, fields_of(vs, vs.len()), autos, autos.len());
            },
            ItemMeta::Trait { .. } => {
                let (ks, _) = opened(d.term)->0;
                lemma_clause_is_clause(
                    ks,
                    fact(Predicate::Implemented(d.id.index), parameters_of(ks)),
                    seq![fact(Predicate::FromEnvTrait(d.id.index), parameters_of(ks))],
                );
            },
            _ => {},
        }
    }
}

/// Every clause that is made of the data of a program has the shape of a
/// clause; the clauses that the program states itself are taken as they
/// are.
pub proof fn lemma_derived_are_clauses(p: SpecProgramData, n: nat)
    ensures
        all_clauses(clauses_upto(p, n)),
    decreases n,
{
    if !(n == 0 || n > p.data.len()) {
        lemma_derived_are_clauses(p, (n - 1) as nat);
        lemma_datum_clauses_are_clauses(p, p.data[n - 1]);
        let before = clauses_upto(p, (n - 1) as nat);
        let last = datum_clauses(p, p.data[n - 1]);
        assert forall|i: int| 0 <= i < (before + last).len() implies is_clause(#[trigger] (before + last)[i]) by {
            if i < before.len() {
                assert((before + last)[i] == before[i]);
            } else {
                assert((before + last)[i] == last[i - before.len()]);
            }
        }
    }
}

} // verus!
