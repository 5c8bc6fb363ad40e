//! Unification of two terms in an inference table.

use vstd::prelude::*;
use crate::symbol::Head;
use crate::symbol::Kind;
use crate::symbol::Predicate;
use crate::term::SpecTerm;
use crate::term::Term;
use crate::term::leaves;
use crate::term::size;
use crate::term::size_prefix;
use crate::term::collect_leaves;
use crate::term::lemma_view_args;
use crate::term::term_eq;
use crate::term::views;
use crate::fold::LeafMap;
use crate::fold::clone_term;
use crate::fold::clone_terms;
use crate::fold::fold;
use crate::fold::fold_term;
use crate::fold::image_of;
use crate::infer::InferenceTable;
use crate::infer::VarData;
use crate::infer::SpecTable;
use crate::infer::SpecVar;
use crate::infer::normalize;

verus! {

/// The inference variable that a symbol names, if it names one.
pub open spec fn var_of(head: Head) -> Option<usize> {
    match head {
        Head::InferenceVar { kind, var } => Some(var),
        _ => None,
    }
}

/// The universe of the placeholder that a symbol names, if it names one.
pub open spec fn universe_of(head: Head) -> Option<usize> {
    match head {
        Head::Placeholder { kind, universe, index } => Some(universe),
        _ => None,
    }
}

/// The sort of the terms that a symbol heads, if they stand for a generic argument.
pub open spec fn sort_of(head: Head) -> Option<Kind> {
    match head {
        Head::BoundVar { kind, depth, index } => Some(kind),
        Head::InferenceVar { kind, var } => Some(kind),
        Head::Placeholder { kind, universe, index } => Some(kind),
        Head::Apply(_) => Some(Kind::Ty),
        Head::Alias => Some(Kind::Ty),
        Head::Function { binders, safety, abi, variadic } => Some(Kind::Ty),
        Head::Dyn => Some(Kind::Ty),
        Head::ConstValue(_) => Some(Kind::Const),
        _ => None,
    }
}

/// Whether inference variable `var` is among the leaves.
pub open spec fn has_var(ls: Seq<(Head, u32)>, var: usize) -> bool {
    exists|i: int| 0 <= i < ls.len() && var_of(#[trigger] ls[i].0) == Some(var)
}

/// Whether no bound variable among the leaves points out of the term.
pub open spec fn all_closed(ls: Seq<(Head, u32)>) -> bool {
    forall|i: int|
        0 <= i < ls.len() ==> match (#[trigger] ls[i]).0 {
            Head::BoundVar { kind, depth, index } => depth < ls[i].1,
            _ => true,
        }
}

/// Whether every placeholder among the leaves is of universe `u` or one further out.
pub open spec fn all_within(ls: Seq<(Head, u32)>, u: usize) -> bool {
    forall|i: int|
        0 <= i < ls.len() ==> match universe_of((#[trigger] ls[i]).0) {
            Some(v) => v <= u,
            None => true,
        }
}

/// Whether inference variable `var` occurs in `t`.
pub open spec fn occurs(var: usize, t: SpecTerm) -> bool {
    has_var(leaves(t, 0), var)
}

/// Whether no bound variable of `t` points out of `t`.
pub open spec fn closed(t: SpecTerm) -> bool {
    all_closed(leaves(t, 0))
}

/// Whether every placeholder of `t` is of universe `u` or one further out.
pub open spec fn within_universe(t: SpecTerm, u: usize) -> bool {
    all_within(leaves(t, 0), u)
}

/// What binding `var` to `value` puts in place of a leaf.
pub open spec fn bind_image(var: usize, value: SpecTerm, head: Head, depth: u32) -> SpecTerm {
    if var_of(head) == Some(var) {
        value
    } else {
        SpecTerm::atom(head)
    }
}

/// Binding one variable as a leaf rewriting.
pub open spec fn bind(var: usize, value: SpecTerm) -> spec_fn(Head, u32) -> SpecTerm {
    |head: Head, depth: u32| bind_image(var, value, head, depth)
}

/// A goal in an environment, as one term.
pub open spec fn in_environment(environment: Seq<SpecTerm>, goal: SpecTerm) -> SpecTerm {
    SpecTerm { head: Head::InEnvironment, args: environment.push(goal) }
}

/// The goal that the alias `alias`, a projection or an opaque type, equals `ty`.
pub open spec fn alias_eq(alias: SpecTerm, ty: SpecTerm) -> SpecTerm {
    SpecTerm { head: Head::Fact(Predicate::AliasEq), args: seq![alias, ty] }
}

/// The constraint that two lifetimes are equal.
pub open spec fn lifetime_eq(a: SpecTerm, b: SpecTerm) -> SpecTerm {
    SpecTerm { head: Head::LifetimeEq, args: seq![a, b] }
}

/// The state of a unification under way.
pub struct SpecUnifier {
    pub table: SpecTable,
    pub goals: Seq<SpecTerm>,
    pub constraints: Seq<SpecTerm>,
}

/// The pairs of terms that are still to be made equal.
pub type Work = Seq<(SpecTerm, SpecTerm)>;

/// The number of unbound variables among the first `n`.
pub open spec fn unbound_upto(vars: Seq<SpecVar>, n: nat) -> nat
    decreases n,
{
    if n == 0 || n > vars.len() {
        0
    } else {
        unbound_upto(vars, (n - 1) as nat) + if vars[n - 1].value is None {
            1nat
        } else {
            0nat
        }
    }
}

/// The number of unbound variables of a table.
pub open spec fn unbound(table: SpecTable) -> nat {
    unbound_upto(table.vars, table.vars.len())
}

/// The number of nodes in the first `n` pairs.
pub open spec fn work_size(work: Work, n: nat) -> nat
    decreases n,
{
    if n == 0 || n > work.len() {
        0
    } else {
        work_size(work, (n - 1) as nat) + size(work[n - 1].0) + size(work[n - 1].1)
    }
}

/// The pairs of the arguments at equal positions.
pub open spec fn pairs(a: Seq<SpecTerm>, b: Seq<SpecTerm>) -> Work {
    Seq::new(a.len(), |i: int| (a[i], b[i]))
}

/// The work with `var` replaced by `value` throughout.
pub open spec fn bind_work(work: Work, var: usize, value: SpecTerm) -> Work {
    Seq::new(
        work.len(),
        |i: int| (fold(work[i].0, bind(var, value), 0), fold(work[i].1, bind(var, value), 0)),
    )
}

/// The table after `var` is bound to `value`: the value replaces the
/// variable in every other value, and every variable of the value moves
/// into the universe of `var` unless it is further out already.
pub open spec fn bind_table(table: SpecTable, var: usize, value: SpecTerm) -> SpecTable {
    SpecTable {
        vars: Seq::new(
            table.vars.len(),
            |x: int|
                if x == var {
                    SpecVar { universe: table.vars[x].universe, value: Some(value) }
                } else {
                    SpecVar {
                        universe: if has_var(leaves(value, 0), x as usize) && table.vars[x].universe
                            > table.vars[var as int].universe {
                            table.vars[var as int].universe
                        } else {
                            table.vars[x].universe
                        },
                        value: match table.vars[x].value {
                            Some(v) => Some(fold(v, bind(var, value), 0)),
                            None => None,
                        },
                    }
                },
        ),
        max_universe: table.max_universe,
    }
}

/// The outcome of one step.
pub enum Step {
    /// The two terms cannot be made equal.
    Fail,
    /// The unification goes on in this state with this work.
    Next(SpecUnifier, Work),
}

/// Binds unbound variable `var`, found as a leaf of sort `kind`, to `t`.
pub open spec fn bind_step(
    environment: Seq<SpecTerm>,
    st: SpecUnifier,
    rest: Work,
    var: usize,
    kind: Kind,
    t: SpecTerm,
) -> Step {
    if !st.table.is_unbound(var) || sort_of(t.head) != Some(kind) || occurs(var, t) || !closed(t) {
        Step::Fail
    } else if !within_universe(t, st.table.vars[var as int].universe) {
        if kind == Kind::Lifetime {
            Step::Next(
                SpecUnifier {
                    table: st.table,
                    goals: st.goals,
                    constraints: st.constraints.push(
                        in_environment(
                            environment,
                            lifetime_eq(SpecTerm::atom(Head::InferenceVar { kind, var }), t),
                        ),
                    ),
                },
                rest,
            )
        } else {
            Step::Fail
        }
    } else {
        Step::Next(
            SpecUnifier {
                table: bind_table(st.table, var, t),
                goals: st.goals,
                constraints: st.constraints,
            },
            bind_work(rest, var, t),
        )
    }
}

/// One step of unification: takes the last pair of the work and makes its
/// two terms equal, or puts off what is left to do.
///
/// Equal terms are done with. A type against an alias type is put off as
/// a goal that the alias equals the type. An inference variable is bound
/// to the other term. Two lifetimes that differ are put off as a
/// constraint. Two terms with the same symbol and as many sub-terms give
/// way to the pairs of their sub-terms, unless the symbol binds: terms
/// under a binder unify only if they are equal. Any other pair fails.
pub open spec fn unify_step(environment: Seq<SpecTerm>, st: SpecUnifier, work: Work) -> Step
    recommends
        work.len() > 0,
{
    let (a, b) = work.last();
    let rest = work.drop_last();
    if a == b {
        Step::Next(st, rest)
    } else if sort_of(a.head) == Some(Kind::Ty) && sort_of(b.head) == Some(Kind::Ty) && a.head.is_alias()
        && a.args.len() == 1 {
        Step::Next(
            SpecUnifier {
                table: st.table,
                goals: st.goals.push(in_environment(environment, alias_eq(a.args[0], b))),
                constraints: st.constraints,
            },
            rest,
        )
    } else if sort_of(a.head) == Some(Kind::Ty) && sort_of(b.head) == Some(Kind::Ty) && b.head.is_alias()
        && b.args.len() == 1 {
        Step::Next(
            SpecUnifier {
                table: st.table,
                goals: st.goals.push(in_environment(environment, alias_eq(b.args[0], a))),
                constraints: st.constraints,
            },
            rest,
        )
    } else if a.is_leaf() && a.head is InferenceVar {
        bind_step(environment, st, rest, var_of(a.head)->0, sort_of(a.head)->0, b)
    } else if b.is_leaf() && b.head is InferenceVar {
        bind_step(environment, st, rest, var_of(b.head)->0, sort_of(b.head)->0, a)
    } else if sort_of(a.head) == Some(Kind::Lifetime) && sort_of(b.head) == Some(Kind::Lifetime) {
        Step::Next(
            SpecUnifier {
                table: st.table,
                goals: st.goals,
                constraints: st.constraints.push(in_environment(environment, lifetime_eq(a, b))),
            },
            rest,
        )
    } else if a.head == b.head && a.args.len() == b.args.len() && !a.head.binds() {
        Step::Next(st, rest + pairs(a.args, b.args))
    } else {
        Step::Fail
    }
}

/// Binding one variable leaves one unbound variable less.
proof fn lemma_unbound_after_bind(vars: Seq<SpecVar>, vars2: Seq<SpecVar>, var: usize, n: nat)
    requires
        vars2.len() == vars.len(),
        var < vars.len(),
        n <= vars.len(),
        vars[var as int].value is None,
        vars2[var as int].value is Some,
        forall|x: int| 0 <= x < vars.len() && x != var ==> (vars2[x].value is None) == (vars[x].value is None),
    ensures
        unbound_upto(vars2, n) + (if var < n {
            1nat
        } else {
            0nat
        }) == unbound_upto(vars, n),
    decreases n,
{
    if n > 0 {
        lemma_unbound_after_bind(vars, vars2, var, (n - 1) as nat);
    }
}

/// The size of work put together is the sum of the sizes.
proof fn lemma_work_size_append(x: Work, y: Work, n: nat)
    requires
        n <= y.len(),
    ensures
        work_size(x + y, x.len() + n) == work_size(x, x.len()) + work_size(y, n),
    decreases n,
{
    if n == 0 {
        lemma_work_size_prefix(x + y, x, x.len());
    } else {
        lemma_work_size_append(x, y, (n - 1) as nat);
        assert((x + y)[x.len() + n - 1] == y[n - 1]);
    }
}

/// Work that agrees on its first pairs agrees on the size of these.
proof fn lemma_work_size_prefix(x: Work, y: Work, n: nat)
    requires
        n <= x.len(),
        n <= y.len(),
        forall|i: int| 0 <= i < n ==> x[i] == y[i],
    ensures
        work_size(x, n) == work_size(y, n),
    decreases n,
{
    if n > 0 {
        lemma_work_size_prefix(x, y, (n - 1) as nat);
    }
}

/// The size of the pairs of two lists of arguments is the size of the two lists.
proof fn lemma_work_size_pairs(a: Seq<SpecTerm>, b: Seq<SpecTerm>, n: nat)
    requires
        n <= a.len(),
        a.len() == b.len(),
    ensures
        work_size(pairs(a, b), n) == size_prefix(a, n) + size_prefix(b, n),
    decreases n,
{
    if n > 0 {
        lemma_work_size_pairs(a, b, (n - 1) as nat);
    }
}

/// Every step that goes on binds a variable or leaves less work.
pub proof fn lemma_step_decreases(environment: Seq<SpecTerm>, st: SpecUnifier, work: Work)
    requires
        work.len() > 0,
        unify_step(environment, st, work) is Next,
    ensures
        unbound(unify_step(environment, st, work)->Next_0.table) < unbound(st.table) || (unbound(
            unify_step(environment, st, work)->Next_0.table,
        ) == unbound(st.table) && work_size(
            unify_step(environment, st, work)->Next_1,
            unify_step(environment, st, work)->Next_1.len(),
        ) < work_size(work, work.len())),
{
    let (a, b) = work.last();
    let rest = work.drop_last();
    let next = unify_step(environment, st, work);
    let st2 = next->Next_0;
    let w2 = next->Next_1;
    lemma_work_size_prefix(work, rest, rest.len());
    assert(work_size(work, work.len()) == work_size(rest, rest.len()) + size(a) + size(b));
    if st2.table != st.table {
        let (var, t) = if a.is_leaf() && a.head is InferenceVar {
            (var_of(a.head)->0, b)
        } else {
            (var_of(b.head)->0, a)
        };
        assert(st2.table == bind_table(st.table, var, t));
        lemma_unbound_after_bind(st.table.vars, st2.table.vars, var, st.table.vars.len());
    } else if w2 == rest {
    } else if w2 == rest + pairs(a.args, b.args) && a.args.len() == b.args.len() {
        lemma_work_size_append(rest, pairs(a.args, b.args), a.args.len());
        lemma_work_size_pairs(a.args, b.args, a.args.len());
    } else {
        // the table is as it was, so no variable was bound, and the work is
        // the rest with a variable replaced that the step found bound to itself
        let (var, t) = if a.is_leaf() && a.head is InferenceVar {
            (var_of(a.head)->0, b)
        } else {
            (var_of(b.head)->0, a)
        };
        assert(st2.table == bind_table(st.table, var, t));
        assert(bind_table(st.table, var, t).vars[var as int].value is Some);
        assert(st.table.vars[var as int].value is None);
    }
}

/// The state in which a unification ends, if it succeeds.
pub open spec fn unify_run(environment: Seq<SpecTerm>, st: SpecUnifier, work: Work) -> Option<SpecUnifier>
    decreases unbound(st.table), work_size(work, work.len()),
    via unify_run_decreases
{
    if work.len() == 0 {
        Some(st)
    } else {
        match unify_step(environment, st, work) {
            Step::Fail => None,
            Step::Next(st2, work2) => unify_run(environment, st2, work2),
        }
    }
}

/// Every step that goes on brings the unification nearer its end.
#[via_fn]
proof fn unify_run_decreases(environment: Seq<SpecTerm>, st: SpecUnifier, work: Work) {
    if work.len() > 0 && unify_step(environment, st, work) is Next {
        lemma_step_decreases(environment, st, work);
    }
}

/// What a successful unification leaves: the table with its new bindings,
/// the goals that are still to be proved and the constraints on lifetimes.
pub struct SpecUnification {
    pub table: SpecTable,
    pub goals: Seq<SpecTerm>,
    pub constraints: Seq<SpecTerm>,
}

/// Each of the terms normalized.
pub open spec fn normalize_all(table: SpecTable, ts: Seq<SpecTerm>) -> Seq<SpecTerm> {
    Seq::new(ts.len(), |i: int| normalize(table, ts[i]))
}

/// The unification of `a` and `b` in `table`: `None` where the two cannot be
/// made equal.
pub open spec fn unify_model(environment: Seq<SpecTerm>, table: SpecTable, a: SpecTerm, b: SpecTerm) -> Option<
    SpecUnification,
> {
    match unify_run(
        environment,
        SpecUnifier { table, goals: Seq::empty(), constraints: Seq::empty() },
        seq![(normalize(table, a), normalize(table, b))],
    ) {
        Some(st) => Some(
            SpecUnification {
                table: st.table,
                goals: normalize_all(st.table, st.goals),
                constraints: normalize_all(st.table, st.constraints),
            },
        ),
        None => None,
    }
}

/// Binding one variable, as a leaf map.
pub struct Bind<'a> {
    pub var: usize,
    pub value: &'a Term,
}

impl<'a> LeafMap for Bind<'a> {
    open spec fn image(&self, head: Head, depth: u32) -> SpecTerm {
        bind_image(self.var, self.value@, head, depth)
    }

    fn apply(&self, head: Head, depth: u32) -> (r: Term) {
        match head {
            Head::InferenceVar { kind, var } => {
                if var == self.var {
                    clone_term(self.value)
                } else {
                    Term::atom(head)
                }
            },
            _ => Term::atom(head),
        }
    }
}

/// The term with `var` replaced by `value`.
pub fn bind_term(t: &Term, var: usize, value: &Term) -> (r: Term)
    ensures
        r@ == fold(t@, bind(var, value@), 0),
{
    let f = Bind { var, value };
    proof {
        assert(image_of(&f) =~= bind(var, value@));
    }
    fold_term(t, &f, 0)
}

/// The sort of the terms that a symbol heads.
pub fn head_sort(head: &Head) -> (r: Option<Kind>)
    ensures
        r == sort_of(*head),
{
    match head {
        Head::BoundVar { kind, .. } => Some(*kind),
        Head::InferenceVar { kind, .. } => Some(*kind),
        Head::Placeholder { kind, .. } => Some(*kind),
        Head::Apply(_) => Some(Kind::Ty),
        Head::Alias => Some(Kind::Ty),
        Head::Function { .. } => Some(Kind::Ty),
        Head::Dyn => Some(Kind::Ty),
        Head::ConstValue(_) => Some(Kind::Const),
        _ => None,
    }
}

/// Whether the terms that a symbol heads are of sort `kind`.
pub fn head_has_sort(head: &Head, kind: Kind) -> (r: bool)
    ensures
        r == (sort_of(*head) == Some(kind)),
{
    match head_sort(head) {
        Some(k) => k == kind,
        None => false,
    }
}

/// Whether inference variable `var` is among the leaves.
pub fn leaves_have_var(ls: &Vec<(Head, u32)>, var: usize) -> (r: bool)
    ensures
        r == has_var(ls@, var),
{
    let mut i: usize = 0;
    while i < ls.len()
        invariant
            0 <= i <= ls.len(),
            forall|j: int| 0 <= j < i ==> var_of(#[trigger] ls@[j].0) != Some(var),
        decreases ls.len() - i,
    {
        match ls[i].0 {
            Head::InferenceVar { kind, var: w } => {
                if w == var {
                    return true;
                }
            },
            _ => {},
        }
        i += 1;
    }
    false
}

/// Whether no bound variable among the leaves points out of the term.
pub fn leaves_closed(ls: &Vec<(Head, u32)>) -> (r: bool)
    ensures
        r == all_closed(ls@),
{
    let mut i: usize = 0;
    while i < ls.len()
        invariant
            0 <= i <= ls.len(),
            forall|j: int|
                0 <= j < i ==> match (#[trigger] ls@[j]).0 {
                    Head::BoundVar { kind, depth, index } => depth < ls@[j].1,
                    _ => true,
                },
        decreases ls.len() - i,
    {
        match ls[i].0 {
            Head::BoundVar { kind, depth, index } => {
                if depth >= ls[i].1 {
                    return false;
                }
            },
            _ => {},
        }
        i += 1;
    }
    true
}

/// Whether every placeholder among the leaves is of universe `u` or one further out.
pub fn leaves_within(ls: &Vec<(Head, u32)>, u: usize) -> (r: bool)
    ensures
        r == all_within(ls@, u),
{
    let mut i: usize = 0;
    while i < ls.len()
        invariant
            0 <= i <= ls.len(),
            forall|j: int|
                0 <= j < i ==> match universe_of((#[trigger] ls@[j]).0) {
                    Some(v) => v <= u,
                    None => true,
                },
        decreases ls.len() - i,
    {
        match ls[i].0 {
            Head::Placeholder { kind, universe, index } => {
                if universe > u {
                    return false;
                }
            },
            _ => {},
        }
        i += 1;
    }
    true
}

/// The goal in the environment, as one term.
pub fn in_environment_term(environment: &Vec<Term>, goal: Term) -> (r: Term)
    ensures
        r@ == in_environment(views(environment@), goal@),
{
    let mut args = clone_terms(environment);
    let ghost before = args@;
    args.push(goal);
    let r = Term::new(Head::InEnvironment, args);
    proof {
        assert(r@.args =~= views(environment@).push(goal@));
    }
    r
}

/// The term with the given symbol and two sub-terms.
pub fn binary(head: Head, a: Term, b: Term) -> (r: Term)
    ensures
        r@ == (SpecTerm { head, args: seq![a@, b@] }),
{
    let mut args: Vec<Term> = Vec::new();
    args.push(a);
    args.push(b);
    let r = Term::new(head, args);
    proof {
        assert(r@.args =~= seq![a@, b@]);
    }
    r
}

/// The views of the pairs of a work list.
pub open spec fn work_view(work: Seq<(Term, Term)>) -> Work {
    Seq::new(work.len(), |i: int| (work[i].0@, work[i].1@))
}

/// No two terms can be made equal here.
#[derive(Clone, Copy, PartialEq, Eq, Structural, Debug)]
pub struct NoSolution;

/// What a successful unification leaves besides the bindings in the table:
/// the goals that are still to be proved and the constraints on lifetimes,
/// each in the environment of the unification.
#[derive(Debug)]
pub struct UnificationResult {
    pub goals: Vec<Term>,
    pub constraints: Vec<Term>,
}

/// Binds a variable, found as a leaf of sort `kind`, to a term.
fn bind_var(
    environment: &Vec<Term>,
    table: &mut InferenceTable,
    constraints: &mut Vec<Term>,
    work: &mut Vec<(Term, Term)>,
    var: usize,
    kind: Kind,
    t: Term,
    Ghost(goals): Ghost<Seq<SpecTerm>>,
) -> (ok: bool)
    ensures
        match bind_step(
            views(environment@),
            SpecUnifier { table: old(table)@, goals, constraints: views(old(constraints)@) },
            work_view(old(work)@),
            var,
            kind,
            t@,
        ) {
            Step::Fail => !ok,
            Step::Next(st, rest) => ok && final(table)@ == st.table && views(final(constraints)@)
                == st.constraints && work_view(final(work)@) == rest && goals == st.goals,
        },
{
    if var >= table.vars.len() {
        return false;
    }
    if table.vars[var].value.is_some() {
        return false;
    }
    if !head_has_sort(&t.head, kind) {
        proof {
            lemma_view_args(t);
        }
        return false;
    }
    proof {
        lemma_view_args(t);
    }
    let mut ls: Vec<(Head, u32)> = Vec::new();
    collect_leaves(&t, 0, &mut ls);
    assert(ls@ =~= leaves(t@, 0));
    if leaves_have_var(&ls, var) || !leaves_closed(&ls) {
        return false;
    }
    let universe = table.vars[var].universe;
    if !leaves_within(&ls, universe) {
        return match kind {
            Kind::Lifetime => {
                let v = Term::atom(Head::InferenceVar { kind, var });
                let c = in_environment_term(environment, binary(Head::LifetimeEq, v, t));
                constraints.push(c);
                proof {
                    assert(views(constraints@) =~= views(old(constraints)@).push(c@));
                }
                true
            },
            _ => false,
        };
    }
    let mut vars: Vec<VarData> = Vec::new();
    let mut x: usize = 0;
    while x < table.vars.len()
        invariant
            0 <= x <= table.vars.len(),
            vars.len() == x,
            var < table.vars.len(),
            universe == table.vars@[var as int].universe,
            ls@ == leaves(t@, 0),
            forall|j: int|
                0 <= j < x ==> (#[trigger] vars@[j])@ == bind_table(table@, var, t@).vars[j],
        decreases table.vars.len() - x,
    {
        if x == var {
            vars.push(VarData { universe: table.vars[x].universe, value: Some(clone_term(&t)) });
        } else {
            let u = table.vars[x].universe;
            let lowered = if u > universe && leaves_have_var(&ls, x) {
                universe
            } else {
                u
            };
            let value = match &table.vars[x].value {
                Some(v) => Some(bind_term(v, var, &t)),
                None => None,
            };
            vars.push(VarData { universe: lowered, value });
        }
        x += 1;
    }
    let bound = InferenceTable { vars, max_universe: table.max_universe };
    proof {
        assert(bound@.vars =~= bind_table(table@, var, t@).vars);
    }
    let mut rest: Vec<(Term, Term)> = Vec::new();
    let mut i: usize = 0;
    while i < work.len()
        invariant
            0 <= i <= work.len(),
            rest.len() == i,
            forall|j: int|
                0 <= j < i ==> (#[trigger] rest@[j]).0@ == fold(work@[j].0@, bind(var, t@), 0) && rest@[j].1@
                    == fold(work@[j].1@, bind(var, t@), 0),
        decreases work.len() - i,
    {
        let a = bind_term(&work[i].0, var, &t);
        let b = bind_term(&work[i].1, var, &t);
        rest.push((a, b));
        i += 1;
    }
    proof {
        assert(work_view(rest@) =~= bind_work(work_view(work@), var, t@));
    }
    *table = bound;
    *work = rest;
    true
}

/// One step of unification on the last pair of the work.
fn step(
    environment: &Vec<Term>,
    table: &mut InferenceTable,
    goals: &mut Vec<Term>,
    constraints: &mut Vec<Term>,
    work: &mut Vec<(Term, Term)>,
) -> (ok: bool)
    requires
        old(work).len() > 0,
    ensures
        match unify_step(
            views(environment@),
            SpecUnifier {
                table: old(table)@,
                goals: views(old(goals)@),
                constraints: views(old(constraints)@),
            },
            work_view(old(work)@),
        ) {
            Step::Fail => !ok,
            Step::Next(st, rest) => ok && final(table)@ == st.table && views(final(goals)@) == st.goals
                && views(final(constraints)@) == st.constraints && work_view(final(work)@) == rest,
        },
{
    let ghost w0 = work_view(work@);
    let (a, b) = work.pop().unwrap();
    proof {
        assert(work_view(work@) =~= w0.drop_last());
        assert(w0.last() == (a@, b@));
        lemma_view_args(a);
        lemma_view_args(b);
    }
    if term_eq(&a, &b) {
        return true;
    }
    let both_types = head_has_sort(&a.head, Kind::Ty) && head_has_sort(&b.head, Kind::Ty);
    if both_types && a.head.alias() && a.args.len() == 1 {
        let alias = clone_term(&a.args[0]);
        let g = in_environment_term(environment, binary(Head::Fact(Predicate::AliasEq), alias, b));
        goals.push(g);
        proof {
            assert(views(goals@) =~= views(old(goals)@).push(g@));
        }
        return true;
    }
    if both_types && b.head.alias() && b.args.len() == 1 {
        let alias = clone_term(&b.args[0]);
        let g = in_environment_term(environment, binary(Head::Fact(Predicate::AliasEq), alias, a));
        goals.push(g);
        proof {
            assert(views(goals@) =~= views(old(goals)@).push(g@));
        }
        return true;
    }
    if a.is_leaf() {
        match a.head {
            Head::InferenceVar { kind, var } => {
                return bind_var(environment, table, constraints, work, var, kind, b, Ghost(views(goals@)));
            },
            _ => {},
        }
    }
    if b.is_leaf() {
        match b.head {
            Head::InferenceVar { kind, var } => {
                return bind_var(environment, table, constraints, work, var, kind, a, Ghost(views(goals@)));
            },
            _ => {},
        }
    }
    let a_lifetime = head_has_sort(&a.head, Kind::Lifetime);
    let b_lifetime = head_has_sort(&b.head, Kind::Lifetime);
    if a_lifetime && b_lifetime {
        let c = in_environment_term(environment, binary(Head::LifetimeEq, a, b));
        constraints.push(c);
        proof {
            assert(views(constraints@) =~= views(old(constraints)@).push(c@));
        }
        return true;
    }
    if a.head == b.head && a.args.len() == b.args.len() && !a.head.binder() {
        let ghost rest = work_view(work@);
        let mut i: usize = 0;
        while i < a.args.len()
            invariant
                0 <= i <= a.args.len(),
                a.args.len() == b.args.len(),
                a@.args == views(a.args@),
                b@.args == views(b.args@),
                work.len() == rest.len() + i,
                forall|j: int| 0 <= j < rest.len() ==> work_view(work@)[j] == rest[j],
                forall|j: int|
                    0 <= j < i ==> #[trigger] work_view(work@)[rest.len() + j] == (a@.args[j], b@.args[j]),
            decreases a.args.len() - i,
        {
            let ghost before = work_view(work@);
            let x = clone_term(&a.args[i]);
            let y = clone_term(&b.args[i]);
            work.push((x, y));
            proof {
                assert(work_view(work@) =~= before.push((x@, y@)));
            }
            i += 1;
        }
        proof {
            let target = rest + pairs(a@.args, b@.args);
            assert(work_view(work@).len() == target.len());
            assert forall|k: int| 0 <= k < target.len() implies work_view(work@)[k] == target[k] by {
                if k >= rest.len() {
                    let j = k - rest.len();
                    assert(work_view(work@)[rest.len() + j] == (a@.args[j], b@.args[j]));
                }
            }
            assert(work_view(work@) =~= target);
        }
        return true;
    }
    false
}

/// Each of the terms normalized.
pub fn normalize_terms(table: &InferenceTable, ts: &Vec<Term>) -> (r: Vec<Term>)
    ensures
        views(r@) == normalize_all(table@, views(ts@)),
{
    let mut r: Vec<Term> = Vec::new();
    let mut i: usize = 0;
    while i < ts.len()
        invariant
            0 <= i <= ts.len(),
            r.len() == i,
            forall|j: int| 0 <= j < i ==> (#[trigger] r@[j])@ == normalize(table@, ts@[j]@),
        decreases ts.len() - i,
    {
        r.push(table.normalize_deep(&ts[i]));
        i += 1;
    }
    proof {
        assert(views(r@) =~= normalize_all(table@, views(ts@)));
    }
    r
}

impl InferenceTable {
    /// Makes `a` and `b` equal by binding inference variables. On success
    /// the table holds the new bindings and the result the goals and
    /// constraints that remain; on failure the table is as it was.
    pub fn unify(&mut self, environment: &Vec<Term>, a: &Term, b: &Term) -> (r: Result<
        UnificationResult,
        NoSolution,
    >)
        ensures
            match unify_model(views(environment@), old(self)@, a@, b@) {
                Some(u) => r is Ok && final(self)@ == u.table && views(r->Ok_0.goals@) == u.goals && views(
                    r->Ok_0.constraints@,
                ) == u.constraints,
                None => r is Err && final(self)@ == old(self)@,
            },
            crate::wellformed::table_wf(old(self)@) && crate::wellformed::in_table(old(self)@, a@)
                && crate::wellformed::in_table(old(self)@, b@) ==> crate::wellformed::table_wf(final(self)@),
    {
        proof {
            if crate::wellformed::table_wf(old(self)@) && crate::wellformed::in_table(old(self)@, a@)
                && crate::wellformed::in_table(old(self)@, b@) {
                crate::wellformed::lemma_unify_preserves_wf(views(environment@), old(self)@, a@, b@);
            }
        }
        let mut table = self.clone_table();
        let mut goals: Vec<Term> = Vec::new();
        let mut constraints: Vec<Term> = Vec::new();
        let mut work: Vec<(Term, Term)> = Vec::new();
        let x = self.normalize_deep(a);
        let y = self.normalize_deep(b);
        work.push((x, y));
        let ghost env = views(environment@);
        let ghost st0 = SpecUnifier { table: old(self)@, goals: Seq::empty(), constraints: Seq::empty() };
        let ghost w0 = seq![(normalize(old(self)@, a@), normalize(old(self)@, b@))];
        proof {
            assert(work_view(work@) =~= w0);
            assert(views(goals@) =~= Seq::empty());
            assert(views(constraints@) =~= Seq::empty());
        }
        while work.len() > 0
            invariant
                env == views(environment@),
                self@ == old(self)@,
                st0 == (SpecUnifier { table: old(self)@, goals: Seq::empty(), constraints: Seq::empty() }),
                w0 == seq![(normalize(old(self)@, a@), normalize(old(self)@, b@))],
                unify_run(
                    env,
                    SpecUnifier { table: table@, goals: views(goals@), constraints: views(constraints@) },
                    work_view(work@),
                ) == unify_run(env, st0, w0),
            decreases unbound(table@), work_size(work_view(work@), work_view(work@).len()),
        {
            let ghost st = SpecUnifier { table: table@, goals: views(goals@), constraints: views(constraints@) };
            let ghost w = work_view(work@);
            let ok = step(environment, &mut table, &mut goals, &mut constraints, &mut work);
            if !ok {
                proof {
                    assert(unify_run(env, st, w) is None);
                }
                return Err(NoSolution);
            }
            proof {
                lemma_step_decreases(env, st, w);
                assert(unify_run(env, st, w) == unify_run(
                    env,
                    SpecUnifier { table: table@, goals: views(goals@), constraints: views(constraints@) },
                    work_view(work@),
                ));
            }
        }
        proof {
            let st = SpecUnifier { table: table@, goals: views(goals@), constraints: views(constraints@) };
            assert(unify_run(env, st, work_view(work@)) == Some(st));
        }
        let goals = normalize_terms(&table, &goals);
        let constraints = normalize_terms(&table, &constraints);
        *self = table;
        Ok(UnificationResult { goals, constraints })
    }

    /// Makes two atomic facts equal.
    pub fn unify_domain_goals(&mut self, environment: &Vec<Term>, a: &Term, b: &Term) -> (r: Result<
        UnificationResult,
        NoSolution,
    >)
        ensures
            match unify_model(views(environment@), old(self)@, a@, b@) {
                Some(u) => r is Ok && final(self)@ == u.table && views(r->Ok_0.goals@) == u.goals && views(
                    r->Ok_0.constraints@,
                ) == u.constraints,
                None => r is Err && final(self)@ == old(self)@,
            },
            crate::wellformed::table_wf(old(self)@) && crate::wellformed::in_table(old(self)@, a@)
                && crate::wellformed::in_table(old(self)@, b@) ==> crate::wellformed::table_wf(final(self)@),
    {
        proof {
            if crate::wellformed::table_wf(old(self)@) && crate::wellformed::in_table(old(self)@, a@)
                && crate::wellformed::in_table(old(self)@, b@) {
                crate::wellformed::lemma_unify_preserves_wf(views(environment@), old(self)@, a@, b@);
            }
        }
        self.unify(environment, a, b)
    }

    /// Makes two generic arguments equal.
    pub fn unify_parameters(&mut self, environment: &Vec<Term>, a: &Term, b: &Term) -> (r: Result<
        UnificationResult,
        NoSolution,
    >)
        ensures
            match unify_model(views(environment@), old(self)@, a@, b@) {
                Some(u) => r is Ok && final(self)@ == u.table && views(r->Ok_0.goals@) == u.goals && views(
                    r->Ok_0.constraints@,
                ) == u.constraints,
                None => r is Err && final(self)@ == old(self)@,
            },
            crate::wellformed::table_wf(old(self)@) && crate::wellformed::in_table(old(self)@, a@)
                && crate::wellformed::in_table(old(self)@, b@) ==> crate::wellformed::table_wf(final(self)@),
    {
        proof {
            if crate::wellformed::table_wf(old(self)@) && crate::wellformed::in_table(old(self)@, a@)
                && crate::wellformed::in_table(old(self)@, b@) {
                crate::wellformed::lemma_unify_preserves_wf(views(environment@), old(self)@, a@, b@);
            }
        }
        self.unify(environment, a, b)
    }
}

} // verus!
