//! The resolution context: the program's clauses, the traits that may be
//! assumed while they are proved, and the bounds on the search.

use vstd::prelude::*;
use crate::symbol::Head;
use crate::symbol::Kind;
use crate::symbol::Predicate;
use crate::term::SpecTerm;
use crate::term::Term;
use crate::term::lemma_view_args;
use crate::term::size;
use crate::term::views;
use crate::fold::clone_term;
use crate::infer::InferenceTable;
use crate::infer::normalize;
use crate::truncate::at_least_one;
use crate::truncate::frame;
use crate::truncate::truncate;
use crate::truncate::truncate_model;
use crate::unify::head_has_sort;
use crate::unify::sort_of;

verus! {

/// The model of a program environment.
pub struct SpecContext {
    pub program_clauses: Seq<SpecTerm>,
    pub coinductive_traits: Seq<u32>,
}

/// The clauses of a program, and the traits whose implementation may be
/// assumed while it is being proved.
#[derive(Debug)]
pub struct SlgContext {
    pub program_clauses: Vec<Term>,
    pub coinductive_traits: Vec<u32>,
}

impl View for SlgContext {
    type V = SpecContext;

    open spec fn view(&self) -> SpecContext {
        SpecContext {
            program_clauses: views(self.program_clauses@),
            coinductive_traits: self.coinductive_traits@,
        }
    }
}

/// Whether a goal may be assumed while it is proved: the implementation of
/// a coinductive trait, a well-formedness fact, or one of these under
/// universal quantifiers or in an environment.
pub open spec fn is_coinductive_model(traits: Seq<u32>, goal: SpecTerm) -> bool
    decreases goal,
{
    match goal.head {
        Head::Fact(Predicate::Implemented(id)) => traits.contains(id),
        Head::Fact(Predicate::WellFormedTy) => true,
        Head::Fact(Predicate::WellFormedTrait(_)) => true,
        Head::ForAll => goal.args.len() == 2 && is_coinductive_model(traits, goal.args[1]),
        Head::InEnvironment => goal.args.len() > 0 && is_coinductive_model(traits, goal.args.last()),
        _ => false,
    }
}

/// Whether two terms could be made equal, as far as their symbols show:
/// a variable, an alias type and a lifetime could match anything.
pub open spec fn could_match(a: SpecTerm, b: SpecTerm) -> bool
    decreases a, 0nat,
{
    if a.is_leaf() || b.is_leaf() || a.head.is_alias() || b.head.is_alias() || sort_of(a.head) == Some(
        Kind::Lifetime,
    ) || sort_of(b.head) == Some(Kind::Lifetime) {
        true
    } else {
        a.head == b.head && a.args.len() == b.args.len() && could_match_prefix(a.args, b.args, a.args.len())
    }
}

/// Whether the first `n` terms of two lists could match one by one.
pub open spec fn could_match_prefix(a: Seq<SpecTerm>, b: Seq<SpecTerm>, n: nat) -> bool
    decreases a, n,
{
    if n == 0 || n > a.len() || n > b.len() {
        true
    } else {
        could_match_prefix(a, b, (n - 1) as nat) && could_match(a[n - 1], b[n - 1])
    }
}

/// Whether the consequence of a clause could match a goal. A clause is a
/// term headed `Clause` whose arguments are its binders, its consequence
/// and its conditions.
pub open spec fn clause_could_match(clause: SpecTerm, goal: SpecTerm) -> bool {
    clause.head is Clause && clause.args.len() >= 2 && could_match(clause.args[1], goal)
}

/// Those of the first `n` clauses whose consequence could match the goal.
pub open spec fn matching(clauses: Seq<SpecTerm>, goal: SpecTerm, n: nat) -> Seq<SpecTerm>
    decreases n,
{
    if n == 0 || n > clauses.len() {
        Seq::empty()
    } else if clause_could_match(clauses[n - 1], goal) {
        matching(clauses, goal, (n - 1) as nat).push(clauses[n - 1])
    } else {
        matching(clauses, goal, (n - 1) as nat)
    }
}

/// The clauses that might apply to a goal: those of the environment, then
/// those of the program, each only if its consequence could match.
pub open spec fn program_clauses_model(ctx: SpecContext, environment: Seq<SpecTerm>, goal: SpecTerm) -> Seq<
    SpecTerm,
> {
    matching(environment, goal, environment.len()) + matching(
        ctx.program_clauses,
        goal,
        ctx.program_clauses.len(),
    )
}

/// Whether two terms could be made equal, as far as their symbols show.
pub fn terms_could_match(a: &Term, b: &Term) -> (r: bool)
    ensures
        r == could_match(a@, b@),
    decreases a,
{
    proof {
        lemma_view_args(*a);
        lemma_view_args(*b);
    }
    if a.is_leaf() || b.is_leaf() || a.head.alias() || b.head.alias() || head_has_sort(&a.head, Kind::Lifetime)
        || head_has_sort(&b.head, Kind::Lifetime) {
        return true;
    }
    if !(a.head == b.head) || a.args.len() != b.args.len() {
        return false;
    }
    let mut i: usize = 0;
    while i < a.args.len()
        invariant
            0 <= i <= a.args.len(),
            a.args.len() == b.args.len(),
            a@.args == views(a.args@),
            b@.args == views(b.args@),
            could_match_prefix(a@.args, b@.args, i as nat),
            could_match(a@, b@) == could_match_prefix(a@.args, b@.args, a@.args.len()),
        decreases a.args.len() - i,
    {
        if !terms_could_match(&a.args[i], &b.args[i]) {
            proof {
                assert(a@.args[i as int] == a.args@[i as int]@);
                assert(b@.args[i as int] == b.args@[i as int]@);
                assert(!could_match_prefix(a@.args, b@.args, (i + 1) as nat));
                lemma_could_match_prefix_fails(a@.args, b@.args, (i + 1) as nat, a@.args.len());
            }
            return false;
        }
        i += 1;
    }
    true
}

/// Terms that could not match so far cannot match further on.
proof fn lemma_could_match_prefix_fails(a: Seq<SpecTerm>, b: Seq<SpecTerm>, n: nat, m: nat)
    requires
        n <= m <= a.len(),
        m <= b.len(),
        !could_match_prefix(a, b, n),
    ensures
        !could_match_prefix(a, b, m),
    decreases m,
{
    if m > n {
        lemma_could_match_prefix_fails(a, b, n, (m - 1) as nat);
    }
}

/// Appends to `out` those of `clauses` whose consequence could match the goal.
pub fn push_matching(clauses: &Vec<Term>, goal: &Term, out: &mut Vec<Term>)
    ensures
        views(final(out)@) == views(old(out)@) + matching(views(clauses@), goal@, clauses@.len()),
{
    let mut i: usize = 0;
    proof {
        assert(views(out@) =~= views(old(out)@) + matching(views(clauses@), goal@, 0));
    }
    while i < clauses.len()
        invariant
            0 <= i <= clauses.len(),
            views(out@) == views(old(out)@) + matching(views(clauses@), goal@, i as nat),
        decreases clauses.len() - i,
    {
        let c = &clauses[i];
        proof {
            lemma_view_args(*c);
        }
        let is_clause = match c.head {
            Head::Clause(_) => true,
            _ => false,
        };
        let ghost before = views(out@);
        if is_clause && c.args.len() >= 2 && terms_could_match(&c.args[1], goal) {
            out.push(clone_term(c));
            proof {
                assert(views(out@) =~= before.push(c@));
                assert(views(out@) =~= views(old(out)@) + matching(views(clauses@), goal@, (i + 1) as nat));
            }
        }
        i += 1;
    }
}

impl SlgContext {
    /// Whether the goal is coinductive: one that may be assumed while it is
    /// proved.
    pub fn is_coinductive(&self, goal: &Term) -> (r: bool)
        ensures
            r == is_coinductive_model(self@.coinductive_traits, goal@),
        decreases goal,
    {
        proof {
            lemma_view_args(*goal);
        }
        match goal.head {
            Head::Fact(Predicate::Implemented(id)) => {
                let mut i: usize = 0;
                while i < self.coinductive_traits.len()
                    invariant
                        0 <= i <= self.coinductive_traits.len(),
                        forall|j: int| 0 <= j < i ==> self.coinductive_traits@[j] != id,
                        goal@.head == Head::Fact(Predicate::Implemented(id)),
                    decreases self.coinductive_traits.len() - i,
                {
                    if self.coinductive_traits[i] == id {
                        proof {
                            assert(self.coinductive_traits@[i as int] == id);
                        }
                        return true;
                    }
                    i += 1;
                }
                false
            },
            Head::Fact(Predicate::WellFormedTy) => true,
            Head::Fact(Predicate::WellFormedTrait(_)) => true,
            Head::ForAll => goal.args.len() == 2 && self.is_coinductive(&goal.args[1]),
            Head::InEnvironment => goal.args.len() > 0 && self.is_coinductive(&goal.args[goal.args.len() - 1]),
            _ => false,
        }
    }

    /// The clauses that might apply to `goal`: more than those that do,
    /// never fewer. The clauses of the environment come first.
    pub fn program_clauses(&self, environment: &Vec<Term>, goal: &Term) -> (r: Vec<Term>)
        ensures
            views(r@) == program_clauses_model(self@, views(environment@), goal@),
    {
        let mut r: Vec<Term> = Vec::new();
        push_matching(environment, goal, &mut r);
        push_matching(&self.program_clauses, goal, &mut r);
        proof {
            assert(views(r@) =~= program_clauses_model(self@, views(environment@), goal@));
        }
        r
    }

    /// The goal truncated, if it has more than `max_size` nodes: what
    /// comes back has at most `max_size` nodes besides those that no cut
    /// takes away.
    pub fn truncate_goal(&self, infer: &mut InferenceTable, max_size: usize, subgoal: &Term) -> (r: Option<Term>)
        ensures
            match truncate_model(old(infer)@, max_size, subgoal@) {
                Some((after, t)) => r is Some && r->0@ == t && final(infer)@ == after,
                None => r is None && final(infer)@ == old(infer)@,
            },
            r is Some && max_size < usize::MAX ==> size(r->0@) <= at_least_one(max_size) + frame(
                normalize(old(infer)@, subgoal@),
            ),
            crate::wellformed::table_wf(old(infer)@) ==> crate::wellformed::table_wf(final(infer)@),
    {
        truncate(infer, max_size, subgoal)
    }

    /// The substitution truncated, if it has more than `max_size` nodes:
    /// what comes back has at most `max_size` nodes besides those that no
    /// cut takes away.
    pub fn truncate_answer(&self, infer: &mut InferenceTable, max_size: usize, subst: &Term) -> (r: Option<Term>)
        ensures
            match truncate_model(old(infer)@, max_size, subst@) {
                Some((after, t)) => r is Some && r->0@ == t && final(infer)@ == after,
                None => r is None && final(infer)@ == old(infer)@,
            },
            r is Some && max_size < usize::MAX ==> size(r->0@) <= at_least_one(max_size) + frame(
                normalize(old(infer)@, subst@),
            ),
            crate::wellformed::table_wf(old(infer)@) ==> crate::wellformed::table_wf(final(infer)@),
    {
        truncate(infer, max_size, subst)
    }
}

} // verus!
