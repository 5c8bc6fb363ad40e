//! Lowering of where clauses, goals and clauses.

use vstd::prelude::*;
use crate::ast::Clause;
use crate::ast::DomainGoal;
use crate::ast::Goal;
use crate::ast::LeafGoal;
use crate::ast::QuantifiedWhereClause;
use crate::ast::WhereClause;
use crate::symbol::ClausePriority;
use crate::symbol::Head;
use crate::symbol::Kind;
use crate::symbol::Predicate;
use crate::symbol::VariableKind;
use crate::term::SpecTerm;
use crate::term::Term;
use crate::term::lemma_view_args;
use crate::term::views;
use crate::fold::clone_term;
use crate::fold::clone_terms;
use crate::fold::fold;
use crate::infer::shift;
use crate::infer::shifted_in;
use crate::ex_clause::append_terms;
use crate::lowering::env::Env;
use crate::lowering::env::LowerResult;
use crate::lowering::env::SpecParameter;
use crate::lowering::env::Tables;
use crate::lowering::env::anonymize;
use crate::lowering::env::introduced;
use crate::lowering::env::kinds_of;
use crate::lowering::env::parameters;
use crate::lowering::env::shadows;
use crate::lowering::error::RustIrError;
use crate::lowering::ty::declared;
use crate::lowering::ty::kinds_term;
use crate::lowering::ty::kinds_to_term;
use crate::lowering::ty::lower_arg_model;
use crate::lowering::ty::lower_generic_arg;
use crate::lowering::ty::lower_lifetime;
use crate::lowering::ty::lower_lifetime_model;
use crate::lowering::ty::lower_projection;
use crate::lowering::ty::lower_projection_model;
use crate::lowering::ty::lower_trait_ref;
use crate::lowering::ty::lower_trait_ref_model;
use crate::lowering::ty::lower_ty;
use crate::lowering::ty::lower_ty_model;
use crate::lowering::ty::lower_variable_kinds;
use crate::lowering::ty::lowered;
use crate::lowering::ty::lowered_list;
use crate::lowering::ty::node;
use crate::lowering::ty::node1;
use crate::lowering::ty::node2;
use crate::lowering::ty::quantified;
use crate::lowering::ty::quantify;
use crate::lowering::ty::trait_of;

verus! {

/// The fact that a trait is implemented.
pub open spec fn implemented(tr: SpecTerm) -> SpecTerm {
    node(Head::Fact(Predicate::Implemented(trait_of(tr))), tr.args)
}

/// The where clauses that syntax stands for: one, or two where an
/// associated type is given a value.
pub open spec fn lower_where_clause_model(tb: Tables, ps: Seq<SpecParameter>, wc: WhereClause) -> LowerResult<
    Seq<SpecTerm>,
> {
    match wc {
        WhereClause::Implemented { trait_ref } => match lower_trait_ref_model(tb, ps, trait_ref) {
            Err(e) => Err(e),
            Ok(tr) => Ok(seq![implemented(tr)]),
        },
        WhereClause::ProjectionEq { projection, ty } => match lower_projection_model(tb, ps, projection) {
            Err(e) => Err(e),
            Ok(p) => match lower_ty_model(tb, ps, ty) {
                Err(e) => Err(e),
                Ok(t) => match lower_trait_ref_model(tb, ps, projection.trait_ref) {
                    Err(e) => Err(e),
                    Ok(tr) => Ok(seq![node(Head::Fact(Predicate::AliasEq), seq![p, t]), implemented(tr)]),
                },
            },
        },
        WhereClause::LifetimeOutlives { a, b } => match lower_lifetime_model(tb, ps, a) {
            Err(e) => Err(e),
            Ok(x) => match lower_lifetime_model(tb, ps, b) {
                Err(e) => Err(e),
                Ok(y) => Ok(seq![node(Head::Fact(Predicate::LifetimeOutlives), seq![x, y])]),
            },
        },
        WhereClause::TypeOutlives { ty, lifetime } => match lower_ty_model(tb, ps, ty) {
            Err(e) => Err(e),
            Ok(t) => match lower_lifetime_model(tb, ps, lifetime) {
                Err(e) => Err(e),
                Ok(l) => Ok(seq![node(Head::Fact(Predicate::TypeOutlives), seq![t, l])]),
            },
        },
    }
}

/// Each of the terms under the binder.
pub open spec fn quantified_each(kinds: Seq<VariableKind>, ts: Seq<SpecTerm>) -> Seq<SpecTerm> {
    Seq::new(ts.len(), |i: int| quantified(kinds, ts[i]))
}

/// The where clauses under their binder that syntax stands for.
pub open spec fn lower_quantified_where_clause_model(
    tb: Tables,
    ps: Seq<SpecParameter>,
    wc: QuantifiedWhereClause,
) -> LowerResult<Seq<SpecTerm>> {
    if shadows(ps, declared(wc.variable_kinds@)) {
        Err(RustIrError::DuplicateOrShadowedParameters)
    } else {
        match lower_where_clause_model(tb, introduced(ps, declared(wc.variable_kinds@)), wc.where_clause) {
            Err(e) => Err(e),
            Ok(ts) => Ok(quantified_each(kinds_of(declared(wc.variable_kinds@)), ts)),
        }
    }
}

/// The where clauses that the first `n` of a list stand for.
pub open spec fn lower_where_clauses_model(
    tb: Tables,
    ps: Seq<SpecParameter>,
    wcs: Seq<QuantifiedWhereClause>,
    n: nat,
) -> LowerResult<Seq<SpecTerm>>
    decreases n,
{
    if n == 0 || n > wcs.len() {
        Ok(Seq::empty())
    } else {
        match lower_where_clauses_model(tb, ps, wcs, (n - 1) as nat) {
            Err(e) => Err(e),
            Ok(ts) => match lower_quantified_where_clause_model(tb, ps, wcs[n - 1]) {
                Err(e) => Err(e),
                Ok(more) => Ok(ts + more),
            },
        }
    }
}

/// The atomic facts that syntax stands for.
pub open spec fn lower_domain_goal_model(tb: Tables, ps: Seq<SpecParameter>, g: DomainGoal) -> LowerResult<
    Seq<SpecTerm>,
> {
    match g {
        DomainGoal::Holds { where_clause } => lower_where_clause_model(tb, ps, where_clause),
        DomainGoal::Normalize { projection, ty } => match lower_projection_model(tb, ps, projection) {
            Err(e) => Err(e),
            Ok(p) => match lower_ty_model(tb, ps, ty) {
                Err(e) => Err(e),
                Ok(t) => Ok(seq![node(Head::Fact(Predicate::Normalize), seq![p, t])]),
            },
        },
        DomainGoal::TyWellFormed { ty } => about_ty(Predicate::WellFormedTy, lower_ty_model(tb, ps, ty)),
        DomainGoal::TraitRefWellFormed { trait_ref } => match lower_trait_ref_model(tb, ps, trait_ref) {
            Err(e) => Err(e),
            Ok(tr) => Ok(seq![node(Head::Fact(Predicate::WellFormedTrait(trait_of(tr))), tr.args)]),
        },
        DomainGoal::TyFromEnv { ty } => about_ty(Predicate::FromEnvTy, lower_ty_model(tb, ps, ty)),
        DomainGoal::TraitRefFromEnv { trait_ref } => match lower_trait_ref_model(tb, ps, trait_ref) {
            Err(e) => Err(e),
            Ok(tr) => Ok(seq![node(Head::Fact(Predicate::FromEnvTrait(trait_of(tr))), tr.args)]),
        },
        DomainGoal::IsLocal { ty } => about_ty(Predicate::IsLocal, lower_ty_model(tb, ps, ty)),
        DomainGoal::IsUpstream { ty } => about_ty(Predicate::IsUpstream, lower_ty_model(tb, ps, ty)),
        DomainGoal::IsFullyVisible { ty } => about_ty(Predicate::IsFullyVisible, lower_ty_model(tb, ps, ty)),
        DomainGoal::LocalImplAllowed { trait_ref } => match lower_trait_ref_model(tb, ps, trait_ref) {
            Err(e) => Err(e),
            Ok(tr) => Ok(seq![node(Head::Fact(Predicate::LocalImplAllowed(trait_of(tr))), tr.args)]),
        },
        DomainGoal::Compatible => Ok(seq![SpecTerm::atom(Head::Fact(Predicate::Compatible))]),
        DomainGoal::DownstreamType { ty } => about_ty(Predicate::DownstreamType, lower_ty_model(tb, ps, ty)),
        DomainGoal::Reveal => Ok(seq![SpecTerm::atom(Head::Fact(Predicate::Reveal))]),
        DomainGoal::ObjectSafe { id } => match tb.trait_at(ps, id) {
            Err(e) => Err(e),
            Ok(found) => Ok(seq![SpecTerm::atom(Head::Fact(Predicate::ObjectSafe(found.index)))]),
        },
    }
}

/// The one fact that a predicate makes of a type.
pub open spec fn about_ty(predicate: Predicate, ty: LowerResult<SpecTerm>) -> LowerResult<Seq<SpecTerm>> {
    match ty {
        Err(e) => Err(e),
        Ok(t) => Ok(seq![node(Head::Fact(predicate), seq![t])]),
    }
}

/// The goal that all of the goals hold: the goal itself where there is one.
pub open spec fn all_goal(goals: Seq<SpecTerm>) -> SpecTerm {
    if goals.len() == 1 {
        goals[0]
    } else {
        node(Head::All, goals)
    }
}

/// The leaf goal that syntax stands for.
pub open spec fn lower_leaf_model(tb: Tables, ps: Seq<SpecParameter>, g: LeafGoal) -> LowerResult<SpecTerm> {
    match g {
        LeafGoal::DomainGoal { goal } => match lower_domain_goal_model(tb, ps, goal) {
            Err(e) => Err(e),
            Ok(gs) => Ok(all_goal(gs)),
        },
        LeafGoal::UnifyGenericArgs { a, b } => match lower_arg_model(tb, ps, a) {
            Err(e) => Err(e),
            Ok(x) => match lower_arg_model(tb, ps, b) {
                Err(e) => Err(e),
                Ok(y) => Ok(node(Head::Equal, seq![x, y])),
            },
        },
    }
}

/// A hypothesis as it is assumed: a clause without conditions that says
/// that a trait is implemented says that the trait may be assumed to be;
/// any other clause stays as it is.
pub open spec fn from_env_clause(c: SpecTerm) -> SpecTerm {
    if c.head is Clause && c.args.len() == 2 {
        match c.args[1].head {
            Head::Fact(Predicate::Implemented(id)) => node(
                c.head,
                seq![c.args[0], node(Head::Fact(Predicate::FromEnvTrait(id)), c.args[1].args)],
            ),
            _ => c,
        }
    } else {
        c
    }
}

/// Each of the clauses as it is assumed.
pub open spec fn from_env_clauses(cs: Seq<SpecTerm>) -> Seq<SpecTerm> {
    Seq::new(cs.len(), |i: int| from_env_clause(cs[i]))
}

/// An atomic fact as a clause without binders and conditions.
pub open spec fn clause_of(fact: SpecTerm) -> SpecTerm {
    node(Head::Clause(ClausePriority::High), seq![kinds_term(Seq::empty()), fold(fact, shift(1), 0)])
}

/// The goal that `g` holds in every compatible extension of the program:
/// for every type, if the world is compatible and the type is of a crate
/// downstream, then `g`.
pub open spec fn compatible(g: SpecTerm) -> SpecTerm {
    node(
        Head::ForAll,
        seq![
            kinds_term(seq![VariableKind::Ty]),
            node(
                Head::Implies,
                seq![
                    clause_of(SpecTerm::atom(Head::Fact(Predicate::Compatible))),
                    clause_of(
                        node(
                            Head::Fact(Predicate::DownstreamType),
                            seq![SpecTerm::atom(Head::BoundVar { kind: Kind::Ty, depth: 0, index: 0 })],
                        ),
                    ),
                    fold(g, shift(1), 0),
                ],
            ),
        ],
    )
}

/// The goal that syntax stands for.
pub open spec fn lower_goal_model(tb: Tables, ps: Seq<SpecParameter>, g: Goal) -> LowerResult<SpecTerm>
    decreases g, 0nat,
{
    match g {
        Goal::ForAll(ids, body) => lower_quantified_model(tb, ps, Head::ForAll, ids, *body),
        Goal::Exists(ids, body) => lower_quantified_model(tb, ps, Head::Exists, ids, *body),
        Goal::Implies(hyp, body) => match lower_clauses_model(tb, ps, hyp@, hyp@.len()) {
            Err(e) => Err(e),
            Ok(cs) => match lower_goal_model(tb, ps, *body) {
                Err(e) => Err(e),
                Ok(b) => Ok(node(Head::Implies, from_env_clauses(cs).push(b))),
            },
        },
        Goal::And(first, rest) => match lower_goal_model(tb, ps, *first) {
            Err(e) => Err(e),
            Ok(f) => match lower_goals_model(tb, ps, rest@, rest@.len()) {
                Err(e) => Err(e),
                Ok(gs) => Ok(node(Head::All, seq![f] + gs)),
            },
        },
        Goal::Not(body) => match lower_goal_model(tb, ps, *body) {
            Err(e) => Err(e),
            Ok(b) => Ok(node(Head::Not, seq![b])),
        },
        Goal::Compatible(body) => match lower_goal_model(tb, ps, *body) {
            Err(e) => Err(e),
            Ok(b) => Ok(compatible(b)),
        },
        Goal::Leaf(leaf) => lower_leaf_model(tb, ps, leaf),
    }
}

/// The quantified goal that syntax stands for; a quantifier over nothing
/// is the goal itself.
pub open spec fn lower_quantified_model(
    tb: Tables,
    ps: Seq<SpecParameter>,
    quantifier: Head,
    ids: Vec<crate::ast::VariableKind>,
    body: Goal,
) -> LowerResult<SpecTerm>
    decreases body, 1nat,
{
    if ids@.len() == 0 {
        lower_goal_model(tb, ps, body)
    } else if shadows(ps, declared(ids@)) {
        Err(RustIrError::DuplicateOrShadowedParameters)
    } else {
        match lower_goal_model(tb, introduced(ps, declared(ids@)), body) {
            Err(e) => Err(e),
            Ok(b) => Ok(node(quantifier, seq![kinds_term(kinds_of(declared(ids@))), b])),
        }
    }
}

/// The first `n` goals of a list.
pub open spec fn lower_goals_model(tb: Tables, ps: Seq<SpecParameter>, gs: Seq<Goal>, n: nat) -> LowerResult<
    Seq<SpecTerm>,
>
    decreases gs, n,
{
    if n == 0 || n > gs.len() {
        Ok(Seq::empty())
    } else {
        match lower_goals_model(tb, ps, gs, (n - 1) as nat) {
            Err(e) => Err(e),
            Ok(ts) => match lower_goal_model(tb, ps, gs[n - 1]) {
                Err(e) => Err(e),
                Ok(t) => Ok(ts.push(t)),
            },
        }
    }
}

/// The last `n` goals of a list, the last one first.
pub open spec fn lower_goals_reversed_model(
    tb: Tables,
    ps: Seq<SpecParameter>,
    gs: Seq<Goal>,
    n: nat,
) -> LowerResult<Seq<SpecTerm>>
    decreases gs, n,
{
    if n == 0 || n > gs.len() {
        Ok(Seq::empty())
    } else {
        match lower_goals_reversed_model(tb, ps, gs, (n - 1) as nat) {
            Err(e) => Err(e),
            Ok(ts) => match lower_goal_model(tb, ps, gs[gs.len() - n]) {
                Err(e) => Err(e),
                Ok(t) => Ok(ts.push(t)),
            },
        }
    }
}

/// One clause for each consequence, all with the same conditions.
pub open spec fn clauses_for(kinds: Seq<VariableKind>, consequences: Seq<SpecTerm>, conditions: Seq<SpecTerm>) -> Seq<
    SpecTerm,
> {
    Seq::new(
        consequences.len(),
        |i: int|
            node(Head::Clause(ClausePriority::High), seq![kinds_term(kinds), consequences[i]] + conditions),
    )
}

/// The clauses that syntax stands for: one for each fact that the
/// consequence stands for. The conditions are lowered from the last to
/// the first and stand in that order, so that the first is taken up first.
pub open spec fn lower_clause_model(tb: Tables, ps: Seq<SpecParameter>, c: Clause) -> LowerResult<Seq<SpecTerm>>
    decreases c, 0nat,
{
    if shadows(ps, declared(c.variable_kinds@)) {
        Err(RustIrError::DuplicateOrShadowedParameters)
    } else {
        let inner = introduced(ps, declared(c.variable_kinds@));
        match lower_domain_goal_model(tb, inner, c.consequence) {
            Err(e) => Err(e),
            Ok(consequences) => match lower_goals_reversed_model(tb, inner, c.conditions@, c.conditions@.len()) {
                Err(e) => Err(e),
                Ok(conditions) => Ok(
                    clauses_for(kinds_of(declared(c.variable_kinds@)), consequences, conditions),
                ),
            },
        }
    }
}

/// The clauses that the first `n` of a list stand for.
pub open spec fn lower_clauses_model(tb: Tables, ps: Seq<SpecParameter>, cs: Seq<Clause>, n: nat) -> LowerResult<
    Seq<SpecTerm>,
>
    decreases cs, n,
{
    if n == 0 || n > cs.len() {
        Ok(Seq::empty())
    } else {
        match lower_clauses_model(tb, ps, cs, (n - 1) as nat) {
            Err(e) => Err(e),
            Ok(ts) => match lower_clause_model(tb, ps, cs[n - 1]) {
                Err(e) => Err(e),
                Ok(more) => Ok(ts + more),
            },
        }
    }
}

/// A term with the given symbol and copies of the arguments of `t`.
pub fn with_args_of(head: Head, t: &Term) -> (r: Term)
    ensures
        r@ == node(head, t@.args),
{
    proof {
        lemma_view_args(*t);
    }
    Term::new(head, clone_terms(&t.args))
}

/// The number of the trait of a lowered trait reference.
pub fn trait_number(t: &Term) -> (r: u32)
    ensures
        r == trait_of(t@),
{
    crate::lowering::ty::trait_id_of(t).index
}

/// A list of one term.
pub fn one(t: Term) -> (r: Vec<Term>)
    ensures
        views(r@) == seq![t@],
{
    let mut r: Vec<Term> = Vec::new();
    r.push(t);
    proof {
        assert(views(r@) =~= seq![t@]);
    }
    r
}

/// A list of two terms.
pub fn two(a: Term, b: Term) -> (r: Vec<Term>)
    ensures
        views(r@) == seq![a@, b@],
{
    let mut r: Vec<Term> = Vec::new();
    r.push(a);
    r.push(b);
    proof {
        assert(views(r@) =~= seq![a@, b@]);
    }
    r
}

/// The where clauses that syntax stands for.
pub fn lower_where_clause(env: &Env, wc: &WhereClause) -> (r: LowerResult<Vec<Term>>)
    requires
        env.wf(),
    ensures
        lowered_list(r, lower_where_clause_model(env.tables(), parameters(env.parameter_map@), *wc)),
{
    match wc {
        WhereClause::Implemented { trait_ref } => {
            let tr = lower_trait_ref(env, trait_ref)?;
            Ok(one(with_args_of(Head::Fact(Predicate::Implemented(trait_number(&tr))), &tr)))
        },
        WhereClause::ProjectionEq { projection, ty } => {
            let p = lower_projection(env, projection)?;
            let t = lower_ty(env, ty)?;
            let tr = lower_trait_ref(env, &projection.trait_ref)?;
            Ok(
                two(
                    node2(Head::Fact(Predicate::AliasEq), p, t),
                    with_args_of(Head::Fact(Predicate::Implemented(trait_number(&tr))), &tr),
                ),
            )
        },
        WhereClause::LifetimeOutlives { a, b } => {
            let x = lower_lifetime(env, a)?;
            let y = lower_lifetime(env, b)?;
            Ok(one(node2(Head::Fact(Predicate::LifetimeOutlives), x, y)))
        },
        WhereClause::TypeOutlives { ty, lifetime } => {
            let t = lower_ty(env, ty)?;
            let l = lower_lifetime(env, lifetime)?;
            Ok(one(node2(Head::Fact(Predicate::TypeOutlives), t, l)))
        },
    }
}

/// Each of the terms under the binder.
pub fn quantify_each(kinds: &Vec<VariableKind>, ts: Vec<Term>) -> (r: Vec<Term>)
    ensures
        views(r@) == quantified_each(kinds@, views(ts@)),
{
    let mut r: Vec<Term> = Vec::new();
    let mut i: usize = 0;
    while i < ts.len()
        invariant
            0 <= i <= ts.len(),
            r.len() == i,
            forall|j: int| 0 <= j < i ==> (#[trigger] r@[j])@ == quantified(kinds@, ts@[j]@),
        decreases ts.len() - i,
    {
        r.push(quantify(kinds, clone_term(&ts[i])));
        i += 1;
    }
    proof {
        assert(views(r@) =~= quantified_each(kinds@, views(ts@)));
    }
    r
}

/// The where clauses under their binder that syntax stands for.
pub fn lower_quantified_where_clause(env: &Env, wc: &QuantifiedWhereClause) -> (r: LowerResult<Vec<Term>>)
    requires
        env.wf(),
    ensures
        lowered_list(r, lower_quantified_where_clause_model(env.tables(), parameters(env.parameter_map@), *wc)),
{
    let declared = lower_variable_kinds(&wc.variable_kinds);
    let inner = env.introduce(&declared)?;
    let ts = lower_where_clause(&inner, &wc.where_clause)?;
    Ok(quantify_each(&anonymize(&declared), ts))
}

/// An error among the first where clauses is the error of the whole list.
proof fn lemma_where_clauses_error(
    tb: Tables,
    ps: Seq<SpecParameter>,
    wcs: Seq<QuantifiedWhereClause>,
    n: nat,
    m: nat,
)
    requires
        n <= m <= wcs.len(),
        lower_where_clauses_model(tb, ps, wcs, n) is Err,
    ensures
        lower_where_clauses_model(tb, ps, wcs, m) == lower_where_clauses_model(tb, ps, wcs, n),
    decreases m,
{
    if m > n {
        lemma_where_clauses_error(tb, ps, wcs, n, (m - 1) as nat);
    }
}

/// The where clauses that a list stands for.
pub fn lower_where_clauses(env: &Env, wcs: &Vec<QuantifiedWhereClause>) -> (r: LowerResult<Vec<Term>>)
    requires
        env.wf(),
    ensures
        lowered_list(r, lower_where_clauses_model(env.tables(), parameters(env.parameter_map@), wcs@, wcs@.len())),
{
    let ghost ps = parameters(env.parameter_map@);
    let ghost tb = env.tables();
    let mut ts: Vec<Term> = Vec::new();
    proof {
        assert(views(ts@) =~= Seq::empty());
    }
    let mut i: usize = 0;
    while i < wcs.len()
        invariant
            0 <= i <= wcs.len(),
            env.wf(),
            ps == parameters(env.parameter_map@),
            tb == env.tables(),
            lower_where_clauses_model(tb, ps, wcs@, i as nat) == Ok::<Seq<SpecTerm>, RustIrError>(views(ts@)),
        decreases wcs.len() - i,
    {
        match lower_quantified_where_clause(env, &wcs[i]) {
            Err(e) => {
                proof {
                    lemma_where_clauses_error(tb, ps, wcs@, (i + 1) as nat, wcs@.len());
                }
                return Err(e);
            },
            Ok(more) => {
                append_terms(&mut ts, more);
            },
        }
        i += 1;
    }
    Ok(ts)
}

/// The atomic facts that syntax stands for.
pub fn lower_domain_goal(env: &Env, g: &DomainGoal) -> (r: LowerResult<Vec<Term>>)
    requires
        env.wf(),
    ensures
        lowered_list(r, lower_domain_goal_model(env.tables(), parameters(env.parameter_map@), *g)),
{
    match g {
        DomainGoal::Holds { where_clause } => lower_where_clause(env, where_clause),
        DomainGoal::Normalize { projection, ty } => {
            let p = lower_projection(env, projection)?;
            let t = lower_ty(env, ty)?;
            Ok(one(node2(Head::Fact(Predicate::Normalize), p, t)))
        },
        DomainGoal::TyWellFormed { ty } => {
            let t = lower_ty(env, ty)?;
            Ok(one(node1(Head::Fact(Predicate::WellFormedTy), t)))
        },
        DomainGoal::TraitRefWellFormed { trait_ref } => {
            let tr = lower_trait_ref(env, trait_ref)?;
            Ok(one(with_args_of(Head::Fact(Predicate::WellFormedTrait(trait_number(&tr))), &tr)))
        },
        DomainGoal::TyFromEnv { ty } => {
            let t = lower_ty(env, ty)?;
            Ok(one(node1(Head::Fact(Predicate::FromEnvTy), t)))
        },
        DomainGoal::TraitRefFromEnv { trait_ref } => {
            let tr = lower_trait_ref(env, trait_ref)?;
            Ok(one(with_args_of(Head::Fact(Predicate::FromEnvTrait(trait_number(&tr))), &tr)))
        },
        DomainGoal::IsLocal { ty } => {
            let t = lower_ty(env, ty)?;
            Ok(one(node1(Head::Fact(Predicate::IsLocal), t)))
        },
        DomainGoal::IsUpstream { ty } => {
            let t = lower_ty(env, ty)?;
            Ok(one(node1(Head::Fact(Predicate::IsUpstream), t)))
        },
        DomainGoal::IsFullyVisible { ty } => {
            let t = lower_ty(env, ty)?;
            Ok(one(node1(Head::Fact(Predicate::IsFullyVisible), t)))
        },
        DomainGoal::LocalImplAllowed { trait_ref } => {
            let tr = lower_trait_ref(env, trait_ref)?;
            Ok(one(with_args_of(Head::Fact(Predicate::LocalImplAllowed(trait_number(&tr))), &tr)))
        },
        DomainGoal::Compatible => Ok(one(Term::atom(Head::Fact(Predicate::Compatible)))),
        DomainGoal::DownstreamType { ty } => {
            let t = lower_ty(env, ty)?;
            Ok(one(node1(Head::Fact(Predicate::DownstreamType), t)))
        },
        DomainGoal::Reveal => Ok(one(Term::atom(Head::Fact(Predicate::Reveal)))),
        DomainGoal::ObjectSafe { id } => {
            let found = env.lookup_trait(id)?;
            Ok(one(Term::atom(Head::Fact(Predicate::ObjectSafe(found.index)))))
        },
    }
}

/// The goal that all of the goals hold.
pub fn all_of(goals: Vec<Term>) -> (r: Term)
    ensures
        r@ == all_goal(views(goals@)),
{
    let mut goals = goals;
    if goals.len() == 1 {
        let ghost first = goals@[0]@;
        let g = goals.pop().unwrap();
        proof {
            assert(g@ == first);
        }
        g
    } else {
        Term::new(Head::All, goals)
    }
}

/// The leaf goal that syntax stands for.
pub fn lower_leaf_goal(env: &Env, g: &LeafGoal) -> (r: LowerResult<Term>)
    requires
        env.wf(),
    ensures
        lowered(r, lower_leaf_model(env.tables(), parameters(env.parameter_map@), *g)),
{
    match g {
        LeafGoal::DomainGoal { goal } => {
            let gs = lower_domain_goal(env, goal)?;
            Ok(all_of(gs))
        },
        LeafGoal::UnifyGenericArgs { a, b } => {
            let x = lower_generic_arg(env, a)?;
            let y = lower_generic_arg(env, b)?;
            Ok(node2(Head::Equal, x, y))
        },
    }
}

/// A hypothesis as it is assumed.
pub fn into_from_env_clause(c: Term) -> (r: Term)
    ensures
        r@ == from_env_clause(c@),
{
    proof {
        lemma_view_args(c);
    }
    let is_clause = match c.head {
        Head::Clause(_) => true,
        _ => false,
    };
    if is_clause && c.args.len() == 2 {
        proof {
            lemma_view_args(c.args@[1]);
        }
        match c.args[1].head {
            Head::Fact(Predicate::Implemented(id)) => {
                let fact = with_args_of(Head::Fact(Predicate::FromEnvTrait(id)), &c.args[1]);
                node2(c.head, clone_term(&c.args[0]), fact)
            },
            _ => c,
        }
    } else {
        c
    }
}

/// Each of the clauses as it is assumed.
pub fn into_from_env_clauses(cs: Vec<Term>) -> (r: Vec<Term>)
    ensures
        views(r@) == from_env_clauses(views(cs@)),
{
    let mut r: Vec<Term> = Vec::new();
    let mut i: usize = 0;
    while i < cs.len()
        invariant
            0 <= i <= cs.len(),
            r.len() == i,
            forall|j: int| 0 <= j < i ==> (#[trigger] r@[j])@ == from_env_clause(cs@[j]@),
        decreases cs.len() - i,
    {
        r.push(into_from_env_clause(clone_term(&cs[i])));
        i += 1;
    }
    proof {
        assert(views(r@) =~= from_env_clauses(views(cs@)));
    }
    r
}

/// An atomic fact as a clause without binders and conditions.
pub fn fact_clause(fact: &Term) -> (r: Term)
    ensures
        r@ == clause_of(fact@),
{
    let none: Vec<VariableKind> = Vec::new();
    proof {
        assert(none@ =~= Seq::empty());
    }
    node2(Head::Clause(ClausePriority::High), kinds_to_term(&none), shifted_in(fact, 1))
}

/// The goal that `g` holds in every compatible extension of the program.
pub fn compatible_goal(g: &Term) -> (r: Term)
    ensures
        r@ == compatible(g@),
{
    let mut kinds: Vec<VariableKind> = Vec::new();
    kinds.push(VariableKind::Ty);
    proof {
        assert(kinds@ =~= seq![VariableKind::Ty]);
    }
    let downstream = node1(
        Head::Fact(Predicate::DownstreamType),
        Term::atom(Head::BoundVar { kind: Kind::Ty, depth: 0, index: 0 }),
    );
    let mut args: Vec<Term> = Vec::new();
    let c1 = fact_clause(&Term::atom(Head::Fact(Predicate::Compatible)));
    let c2 = fact_clause(&downstream);
    let shifted = shifted_in(g, 1);
    args.push(c1);
    args.push(c2);
    args.push(shifted);
    let implication = Term::new(Head::Implies, args);
    proof {
        assert(implication@.args =~= seq![c1@, c2@, shifted@]);
    }
    node2(Head::ForAll, kinds_to_term(&kinds), implication)
}

/// The goal that syntax stands for.
pub fn lower_goal_in(env: &Env, g: &Goal) -> (r: LowerResult<Term>)
    requires
        env.wf(),
    ensures
        lowered(r, lower_goal_model(env.tables(), parameters(env.parameter_map@), *g)),
    decreases g, 0nat,
{
    match g {
        Goal::ForAll(ids, body) => lower_quantified(body, env, Head::ForAll, ids),
        Goal::Exists(ids, body) => lower_quantified(body, env, Head::Exists, ids),
        Goal::Implies(hyp, body) => {
            let cs = lower_clauses(env, hyp)?;
            let b = lower_goal_in(env, body)?;
            let mut args = into_from_env_clauses(cs);
            let ghost before = views(args@);
            args.push(b);
            proof {
                assert(views(args@) =~= before.push(b@));
            }
            Ok(Term::new(Head::Implies, args))
        },
        Goal::And(first, rest) => {
            let f = lower_goal_in(env, first)?;
            let gs = lower_goals(env, rest)?;
            Ok(Term::new(Head::All, crate::lowering::ty::prepend(f, &gs)))
        },
        Goal::Not(body) => {
            let b = lower_goal_in(env, body)?;
            Ok(node1(Head::Not, b))
        },
        Goal::Compatible(body) => {
            let b = lower_goal_in(env, body)?;
            Ok(compatible_goal(&b))
        },
        Goal::Leaf(leaf) => lower_leaf_goal(env, leaf),
    }
}

/// The quantified goal that syntax stands for.
pub fn lower_quantified(goal: &Goal, env: &Env, quantifier: Head, variable_kinds: &Vec<crate::ast::VariableKind>) -> (r:
    LowerResult<Term>)
    requires
        env.wf(),
    ensures
        lowered(
            r,
            lower_quantified_model(env.tables(), parameters(env.parameter_map@), quantifier, *variable_kinds, *goal),
        ),
    decreases goal, 1nat,
{
    if variable_kinds.len() == 0 {
        return lower_goal_in(env, goal);
    }
    let declared = lower_variable_kinds(variable_kinds);
    let inner = env.introduce(&declared)?;
    let b = lower_goal_in(&inner, goal)?;
    Ok(node2(quantifier, kinds_to_term(&anonymize(&declared)), b))
}

/// An error among the first goals is the error of the whole list.
proof fn lemma_goals_error(tb: Tables, ps: Seq<SpecParameter>, gs: Seq<Goal>, n: nat, m: nat)
    requires
        n <= m <= gs.len(),
        lower_goals_model(tb, ps, gs, n) is Err,
    ensures
        lower_goals_model(tb, ps, gs, m) == lower_goals_model(tb, ps, gs, n),
    decreases m,
{
    if m > n {
        lemma_goals_error(tb, ps, gs, n, (m - 1) as nat);
    }
}

/// An error among the last goals is the error of the whole list.
proof fn lemma_goals_reversed_error(tb: Tables, ps: Seq<SpecParameter>, gs: Seq<Goal>, n: nat, m: nat)
    requires
        n <= m <= gs.len(),
        lower_goals_reversed_model(tb, ps, gs, n) is Err,
    ensures
        lower_goals_reversed_model(tb, ps, gs, m) == lower_goals_reversed_model(tb, ps, gs, n),
    decreases m,
{
    if m > n {
        lemma_goals_reversed_error(tb, ps, gs, n, (m - 1) as nat);
    }
}

/// An error among the first clauses is the error of the whole list.
proof fn lemma_clauses_error(tb: Tables, ps: Seq<SpecParameter>, cs: Seq<Clause>, n: nat, m: nat)
    requires
        n <= m <= cs.len(),
        lower_clauses_model(tb, ps, cs, n) is Err,
    ensures
        lower_clauses_model(tb, ps, cs, m) == lower_clauses_model(tb, ps, cs, n),
    decreases m,
{
    if m > n {
        lemma_clauses_error(tb, ps, cs, n, (m - 1) as nat);
    }
}

/// The goals of a list.
pub fn lower_goals(env: &Env, gs: &Vec<Goal>) -> (r: LowerResult<Vec<Term>>)
    requires
        env.wf(),
    ensures
        lowered_list(r, lower_goals_model(env.tables(), parameters(env.parameter_map@), gs@, gs@.len())),
    decreases gs, 0nat,
{
    let ghost ps = parameters(env.parameter_map@);
    let ghost tb = env.tables();
    let mut ts: Vec<Term> = Vec::new();
    proof {
        assert(views(ts@) =~= Seq::empty());
    }
    let mut i: usize = 0;
    while i < gs.len()
        invariant
            0 <= i <= gs.len(),
            env.wf(),
            ps == parameters(env.parameter_map@),
            tb == env.tables(),
            lower_goals_model(tb, ps, gs@, i as nat) == Ok::<Seq<SpecTerm>, RustIrError>(views(ts@)),
        decreases gs.len() - i,
    {
        let ghost before = views(ts@);
        match lower_goal_in(env, &gs[i]) {
            Err(e) => {
                proof {
                    lemma_goals_error(tb, ps, gs@, (i + 1) as nat, gs@.len());
                }
                return Err(e);
            },
            Ok(t) => {
                ts.push(t);
                proof {
                    assert(views(ts@) =~= before.push(t@));
                }
            },
        }
        i += 1;
    }
    Ok(ts)
}

/// The goals of a list, the last one first.
pub fn lower_goals_reversed(env: &Env, gs: &Vec<Goal>) -> (r: LowerResult<Vec<Term>>)
    requires
        env.wf(),
    ensures
        lowered_list(r, lower_goals_reversed_model(env.tables(), parameters(env.parameter_map@), gs@, gs@.len())),
    decreases gs, 0nat,
{
    let ghost ps = parameters(env.parameter_map@);
    let ghost tb = env.tables();
    let mut ts: Vec<Term> = Vec::new();
    proof {
        assert(views(ts@) =~= Seq::empty());
    }
    let mut i: usize = 0;
    while i < gs.len()
        invariant
            0 <= i <= gs.len(),
            env.wf(),
            ps == parameters(env.parameter_map@),
            tb == env.tables(),
            lower_goals_reversed_model(tb, ps, gs@, i as nat) == Ok::<Seq<SpecTerm>, RustIrError>(views(ts@)),
        decreases gs.len() - i,
    {
        let ghost before = views(ts@);
        match lower_goal_in(env, &gs[gs.len() - 1 - i]) {
            Err(e) => {
                proof {
                    lemma_goals_reversed_error(tb, ps, gs@, (i + 1) as nat, gs@.len());
                }
                return Err(e);
            },
            Ok(t) => {
                ts.push(t);
                proof {
                    assert(views(ts@) =~= before.push(t@));
                }
            },
        }
        i += 1;
    }
    Ok(ts)
}

/// The clauses that syntax stands for.
pub fn lower_clause(env: &Env, c: &Clause) -> (r: LowerResult<Vec<Term>>)
    requires
        env.wf(),
    ensures
        lowered_list(r, lower_clause_model(env.tables(), parameters(env.parameter_map@), *c)),
    decreases c, 0nat,
{
    let declared = lower_variable_kinds(&c.variable_kinds);
    let inner = env.introduce(&declared)?;
    let consequences = lower_domain_goal(&inner, &c.consequence)?;
    let conditions = lower_goals_reversed(&inner, &c.conditions)?;
    let kinds = anonymize(&declared);
    let mut r: Vec<Term> = Vec::new();
    let mut i: usize = 0;
    while i < consequences.len()
        invariant
            0 <= i <= consequences.len(),
            r.len() == i,
            forall|j: int|
                0 <= j < i ==> (#[trigger] r@[j])@ == clauses_for(
                    kinds@,
                    views(consequences@),
                    views(conditions@),
                )[j],
        decreases consequences.len() - i,
    {
        let mut args = two(kinds_to_term(&kinds), clone_term(&consequences[i]));
        append_terms(&mut args, clone_terms(&conditions));
        r.push(Term::new(Head::Clause(ClausePriority::High), args));
        i += 1;
    }
    proof {
        assert(views(r@) =~= clauses_for(kinds@, views(consequences@), views(conditions@)));
    }
    Ok(r)
}

/// The clauses that a list stands for.
pub fn lower_clauses(env: &Env, cs: &Vec<Clause>) -> (r: LowerResult<Vec<Term>>)
    requires
        env.wf(),
    ensures
        lowered_list(r, lower_clauses_model(env.tables(), parameters(env.parameter_map@), cs@, cs@.len())),
    decreases cs, 0nat,
{
    let ghost ps = parameters(env.parameter_map@);
    let ghost tb = env.tables();
    let mut ts: Vec<Term> = Vec::new();
    proof {
        assert(views(ts@) =~= Seq::empty());
    }
    let mut i: usize = 0;
    while i < cs.len()
        invariant
            0 <= i <= cs.len(),
            env.wf(),
            ps == parameters(env.parameter_map@),
            tb == env.tables(),
            lower_clauses_model(tb, ps, cs@, i as nat) == Ok::<Seq<SpecTerm>, RustIrError>(views(ts@)),
        decreases cs.len() - i,
    {
        match lower_clause(env, &cs[i]) {
            Err(e) => {
                proof {
                    lemma_clauses_error(tb, ps, cs@, (i + 1) as nat, cs@.len());
                }
                return Err(e);
            },
            Ok(more) => {
                append_terms(&mut ts, more);
            },
        }
        i += 1;
    }
    Ok(ts)
}

} // verus!
