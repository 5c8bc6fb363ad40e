//! Ex-clauses: what is left to prove after one step of resolution.

use vstd::prelude::*;
use crate::term::SpecTerm;
use crate::term::Term;
use crate::term::views;
use crate::fold::clone_term;
use crate::fold::clone_terms;
use crate::unify::UnificationResult;

verus! {

/// The model of a literal.
pub enum SpecLiteral {
    Positive(SpecTerm),
    Negative(SpecTerm),
}

/// A goal in its environment that must be proved, or one that must fail.
#[derive(Debug)]
pub enum Literal {
    Positive(Term),
    Negative(Term),
}

impl View for Literal {
    type V = SpecLiteral;

    open spec fn view(&self) -> SpecLiteral {
        match self {
            Literal::Positive(g) => SpecLiteral::Positive(g@),
            Literal::Negative(g) => SpecLiteral::Negative(g@),
        }
    }
}

/// The views of a list of literals.
pub open spec fn literal_views(ls: Seq<Literal>) -> Seq<SpecLiteral> {
    Seq::new(ls.len(), |i: int| ls[i]@)
}

/// Each goal as a literal that must be proved.
pub open spec fn positives(goals: Seq<SpecTerm>) -> Seq<SpecLiteral> {
    Seq::new(goals.len(), |i: int| SpecLiteral::Positive(goals[i]))
}

/// The model of an ex-clause.
pub struct SpecExClause {
    pub subst: SpecTerm,
    pub constraints: Seq<SpecTerm>,
    pub subgoals: Seq<SpecLiteral>,
}

/// The resolvent of one proof step: the substitution for the variables of
/// the goal, the constraints on lifetimes so far, and the literals still to
/// be settled, the last one first.
#[derive(Debug)]
pub struct ExClause {
    pub subst: Term,
    pub constraints: Vec<Term>,
    pub subgoals: Vec<Literal>,
}

impl View for ExClause {
    type V = SpecExClause;

    open spec fn view(&self) -> SpecExClause {
        SpecExClause {
            subst: self.subst@,
            constraints: views(self.constraints@),
            subgoals: literal_views(self.subgoals@),
        }
    }
}

impl SpecExClause {
    /// The ex-clause with the goals of a unification as literals to prove and
    /// its constraints added.
    pub open spec fn with_unification(self, goals: Seq<SpecTerm>, constraints: Seq<SpecTerm>) -> SpecExClause {
        SpecExClause {
            subst: self.subst,
            constraints: self.constraints + constraints,
            subgoals: self.subgoals + positives(goals),
        }
    }
}

impl Literal {
    /// A copy of the literal.
    pub fn clone_literal(&self) -> (r: Literal)
        ensures
            r@ == self@,
    {
        match self {
            Literal::Positive(g) => Literal::Positive(clone_term(g)),
            Literal::Negative(g) => Literal::Negative(clone_term(g)),
        }
    }
}

impl ExClause {
    /// A copy of the ex-clause.
    pub fn clone_ex_clause(&self) -> (r: ExClause)
        ensures
            r@ == self@,
    {
        let mut subgoals: Vec<Literal> = Vec::new();
        let mut i: usize = 0;
        while i < self.subgoals.len()
            invariant
                0 <= i <= self.subgoals.len(),
                subgoals.len() == i,
                forall|j: int| 0 <= j < i ==> (#[trigger] subgoals@[j])@ == self.subgoals@[j]@,
            decreases self.subgoals.len() - i,
        {
            subgoals.push(self.subgoals[i].clone_literal());
            i += 1;
        }
        let r = ExClause {
            subst: clone_term(&self.subst),
            constraints: clone_terms(&self.constraints),
            subgoals,
        };
        proof {
            assert(literal_views(r.subgoals@) =~= literal_views(self.subgoals@));
        }
        r
    }
}

/// Moves the terms of `from` to the end of `to`.
pub fn append_terms(to: &mut Vec<Term>, from: Vec<Term>)
    ensures
        views(final(to)@) == views(old(to)@) + views(from@),
{
    let mut from = from;
    let ghost all = views(from@);
    let mut rev: Vec<Term> = Vec::new();
    while from.len() > 0
        invariant
            views(from@).len() + rev.len() == all.len(),
            forall|j: int| 0 <= j < from.len() ==> (#[trigger] from@[j])@ == all[j],
            forall|j: int| 0 <= j < rev.len() ==> (#[trigger] rev@[j])@ == all[all.len() - 1 - j],
        decreases from.len(),
    {
        let t = from.pop().unwrap();
        rev.push(t);
    }
    let ghost start = views(to@);
    while rev.len() > 0
        invariant
            rev.len() <= all.len(),
            forall|j: int| 0 <= j < rev.len() ==> (#[trigger] rev@[j])@ == all[all.len() - 1 - j],
            views(to@) == start + all.subrange(0, all.len() - rev.len()),
        decreases rev.len(),
    {
        let ghost before = views(to@);
        let ghost k = all.len() - rev.len();
        let t = rev.pop().unwrap();
        to.push(t);
        proof {
            assert(t@ == all[k]);
            assert(views(to@) =~= before.push(t@));
            assert(start + all.subrange(0, k + 1) =~= (start + all.subrange(0, k)).push(all[k]));
        }
    }
    proof {
        assert(all.subrange(0, all.len() as int) =~= all);
    }
}

impl UnificationResult {
    /// Adds what the unification left to an ex-clause: its goals as
    /// literals to prove, and its constraints.
    pub fn into_ex_clause(self, ex_clause: &mut ExClause)
        ensures
            final(ex_clause)@ == old(ex_clause)@.with_unification(views(self.goals@), views(self.constraints@)),
    {
        let UnificationResult { goals, constraints } = self;
        let mut goals = goals;
        let ghost all = views(goals@);
        let mut rev: Vec<Term> = Vec::new();
        while goals.len() > 0
            invariant
                goals.len() + rev.len() == all.len(),
                forall|j: int| 0 <= j < goals.len() ==> (#[trigger] goals@[j])@ == all[j],
                forall|j: int| 0 <= j < rev.len() ==> (#[trigger] rev@[j])@ == all[all.len() - 1 - j],
            decreases goals.len(),
        {
            let t = goals.pop().unwrap();
            rev.push(t);
        }
        let ghost start = literal_views(ex_clause.subgoals@);
        while rev.len() > 0
            invariant
                rev.len() <= all.len(),
                forall|j: int| 0 <= j < rev.len() ==> (#[trigger] rev@[j])@ == all[all.len() - 1 - j],
                literal_views(ex_clause.subgoals@) == start + positives(all.subrange(0, all.len() - rev.len())),
                ex_clause.subst == old(ex_clause).subst,
                ex_clause.constraints == old(ex_clause).constraints,
            decreases rev.len(),
        {
            let ghost before = literal_views(ex_clause.subgoals@);
            let ghost k = all.len() - rev.len();
            let t = rev.pop().unwrap();
            ex_clause.subgoals.push(Literal::Positive(t));
            proof {
                assert(t@ == all[k]);
                assert(literal_views(ex_clause.subgoals@) =~= before.push(SpecLiteral::Positive(t@)));
                assert(start + positives(all.subrange(0, k + 1)) =~= (start + positives(
                    all.subrange(0, k),
                )).push(SpecLiteral::Positive(all[k])));
            }
        }
        proof {
            assert(all.subrange(0, all.len() as int) =~= all);
        }
        append_terms(&mut ex_clause.constraints, constraints);
    }
}

} // verus!
