//! The solver: resolution as it runs.

use vstd::prelude::*;
use crate::symbol::ClausePriority;
use crate::symbol::Head;
use crate::symbol::VariableKind;
use crate::term::SpecTerm;
use crate::term::Term;
use crate::term::lemma_view_args;
use crate::term::term_eq;
use crate::term::views;
use crate::fold::LeafMap;
use crate::fold::clone_term;
use crate::fold::clone_terms;
use crate::fold::fold;
use crate::fold::fold_term;
use crate::fold::image_of;
use crate::infer::Canonical;
use crate::infer::CanonicalVarKind;
use crate::infer::InferenceTable;
use crate::infer::SpecCanonical;
use crate::infer::SpecTable;
use crate::infer::SpecUCanonical;
use crate::infer::UCanonical;
use crate::infer::kinds_in_universe;
use crate::infer::substitute;
use crate::unify::UnificationResult;
use crate::unify::in_environment;
use crate::unify::in_environment_term;
use crate::canonicalize::universe_rank;
use crate::canonicalize::canonicalize_model;
use crate::canonicalize::u_canonicalize_model;
use crate::ex_clause::ExClause;
use crate::ex_clause::Literal;
use crate::ex_clause::SpecLiteral;
use crate::ex_clause::append_terms;
use crate::ex_clause::literal_views;
use crate::context::SlgContext;
use crate::slg::Simplified;
use crate::slg::SpecMemo;
use crate::slg::SpecOutcome;
use crate::slg::lower;
use crate::slg::recorded;
use crate::slg::recorded_upto;
use crate::slg::settled;
use crate::slg::stack_position;
use crate::slg::stack_position_upto;
use crate::slg::SpecSolution;
use crate::slg::answer;
use crate::slg::apply_answer;
use crate::slg::apply_answers;
use crate::slg::binder_kinds;
use crate::slg::by_priority;
use crate::slg::with_priority;
use crate::slg::condition_literals;
use crate::slg::conjuncts;
use crate::slg::constrained_subst;
use crate::slg::floundered;
use crate::slg::goal_parts;
use crate::slg::kinds_prefix;
use crate::slg::list;
use crate::slg::merge;
use crate::slg::merge_answers;
use crate::slg::no_answers;
use crate::slg::open_key;
use crate::slg::resolve_clauses;
use crate::slg::resolvent;
use crate::slg::restore_binders;
use crate::slg::restore_image;
use crate::slg::restore_universe;
use crate::slg::restore_upto;
use crate::slg::restoring;
use crate::slg::simplify;
use crate::slg::solution_of;
use crate::slg::solve_ex;
use crate::slg::solve_model;
use crate::slg::solve_table;
use crate::slg::trivial_answer;
use crate::slg::unify_all;
use crate::slg::with_literal;
use crate::slg::without_last;

verus! {

/// The views of a list of canonical values.
pub open spec fn canonical_views(cs: Seq<Canonical>) -> Seq<SpecCanonical> {
    Seq::new(cs.len(), |i: int| cs[i]@)
}

/// The views of a list of table keys.
pub open spec fn key_views(ks: Seq<UCanonical>) -> Seq<SpecUCanonical> {
    Seq::new(ks.len(), |i: int| ks[i]@)
}

/// What a search found: its answers, each once, whether it gave up
/// somewhere, and the lowest position on the stack of a table that it came
/// back to, if it came back to any.
#[derive(Debug)]
pub struct Outcome {
    pub answers: Vec<Canonical>,
    pub floundered: bool,
    pub reach: Option<usize>,
}

impl View for Outcome {
    type V = SpecOutcome;

    open spec fn view(&self) -> SpecOutcome {
        SpecOutcome {
            answers: canonical_views(self.answers@),
            floundered: self.floundered,
            reach: match self.reach {
                Some(p) => Some(p as nat),
                None => None,
            },
        }
    }
}

/// The memo table: the answers of the tables that are complete. A memo
/// table serves one program; the answers it records are replayed whenever
/// their goal comes up again.
#[derive(Debug)]
pub struct MemoTable {
    pub tables: Vec<(UCanonical, Vec<Canonical>)>,
}

impl View for MemoTable {
    type V = SpecMemo;

    open spec fn view(&self) -> SpecMemo {
        Seq::new(self.tables@.len(), |i: int| (self.tables@[i].0@, canonical_views(self.tables@[i].1@)))
    }
}

/// A copy of a list of answers.
pub fn clone_answers(answers: &Vec<Canonical>) -> (r: Vec<Canonical>)
    ensures
        canonical_views(r@) == canonical_views(answers@),
{
    let mut r: Vec<Canonical> = Vec::new();
    let mut i: usize = 0;
    while i < answers.len()
        invariant
            0 <= i <= answers.len(),
            r.len() == i,
            forall|j: int| 0 <= j < i ==> (#[trigger] r@[j])@ == answers@[j]@,
        decreases answers.len() - i,
    {
        r.push(clone_canonical(&answers[i]));
        i += 1;
    }
    proof {
        assert(canonical_views(r@) =~= canonical_views(answers@));
    }
    r
}

/// An entry that is found among the first is the one found among more.
proof fn lemma_recorded_stable(memo: SpecMemo, key: SpecUCanonical, n: nat, m: nat)
    requires
        n <= m <= memo.len(),
        recorded_upto(memo, key, n) is Some,
    ensures
        recorded_upto(memo, key, m) == recorded_upto(memo, key, n),
    decreases m,
{
    if m > n {
        lemma_recorded_stable(memo, key, n, (m - 1) as nat);
    }
}

/// A position that is found among the first is the one found among more.
proof fn lemma_stack_position_stable(stack: Seq<SpecUCanonical>, key: SpecUCanonical, n: nat, m: nat)
    requires
        n <= m <= stack.len(),
        stack_position_upto(stack, key, n) is Some,
    ensures
        stack_position_upto(stack, key, m) == stack_position_upto(stack, key, n),
    decreases m,
{
    if m > n {
        lemma_stack_position_stable(stack, key, n, (m - 1) as nat);
    }
}

impl MemoTable {
    /// A memo table that records nothing.
    pub fn new() -> (r: MemoTable)
        ensures
            r@.len() == 0,
    {
        MemoTable { tables: Vec::new() }
    }

    /// The answers that the memo table records for a key.
    pub fn lookup(&self, key: &UCanonical) -> (r: Option<Vec<Canonical>>)
        ensures
            match recorded(self@, key@) {
                Some(answers) => r is Some && canonical_views(r->0@) == answers,
                None => r is None,
            },
    {
        let mut i: usize = 0;
        while i < self.tables.len()
            invariant
                0 <= i <= self.tables.len(),
                recorded_upto(self@, key@, i as nat) is None,
            decreases self.tables.len() - i,
        {
            if key_eq(&self.tables[i].0, key) {
                proof {
                    assert(self@[i as int].0 == key@);
                    assert(recorded_upto(self@, key@, (i + 1) as nat) == Some(self@[i as int].1));
                    lemma_recorded_stable(self@, key@, (i + 1) as nat, self@.len());
                }
                return Some(clone_answers(&self.tables[i].1));
            }
            proof {
                assert(self@[i as int].0 == self.tables@[i as int].0@);
            }
            i += 1;
        }
        None
    }

    /// Records the answers of a table that is complete.
    pub fn record(&mut self, key: &UCanonical, answers: &Vec<Canonical>)
        ensures
            final(self)@ == old(self)@.push((key@, canonical_views(answers@))),
    {
        self.tables.push((clone_key(key), clone_answers(answers)));
        proof {
            assert(self@ =~= old(self)@.push((key@, canonical_views(answers@))));
        }
    }
}

/// The position on the stack at which a key stands.
pub fn position_on(stack: &Vec<UCanonical>, key: &UCanonical) -> (r: Option<usize>)
    ensures
        match stack_position(key_views(stack@), key@) {
            Some(p) => r == Some(p as usize) && p < stack@.len(),
            None => r is None,
        },
{
    let mut i: usize = 0;
    while i < stack.len()
        invariant
            0 <= i <= stack.len(),
            stack_position_upto(key_views(stack@), key@, i as nat) is None,
        decreases stack.len() - i,
    {
        if key_eq(&stack[i], key) {
            proof {
                assert(key_views(stack@)[i as int] == key@);
                assert(stack_position_upto(key_views(stack@), key@, (i + 1) as nat) == Some(i as nat));
                lemma_stack_position_stable(key_views(stack@), key@, (i + 1) as nat, stack@.len());
            }
            return Some(i);
        }
        proof {
            assert(key_views(stack@)[i as int] == stack@[i as int]@);
        }
        i += 1;
    }
    None
}

/// The lower of two positions on the stack.
pub fn lower_of(a: Option<usize>, b: Option<usize>) -> (r: Option<usize>)
    ensures
        (match r {
            Some(p) => Some(p as nat),
            None => None,
        }) == lower(
            match a {
                Some(p) => Some(p as nat),
                None => None,
            },
            match b {
                Some(p) => Some(p as nat),
                None => None,
            },
        ),
{
    match (a, b) {
        (Some(x), Some(y)) => if x <= y {
            Some(x)
        } else {
            Some(y)
        },
        (Some(x), None) => Some(x),
        (None, y) => y,
    }
}

/// The solution of a goal.
#[derive(Debug)]
pub enum Solution {
    /// The goal holds in exactly one way: the substitution for its
    /// variables, with the constraints on lifetimes, in canonical form.
    Unique(Canonical),
    /// The goal may hold in several ways, or the search could not tell.
    Ambiguous,
    /// The goal does not hold.
    NoSolution,
}

impl View for Solution {
    type V = SpecSolution;

    open spec fn view(&self) -> SpecSolution {
        match self {
            Solution::Unique(c) => SpecSolution::Unique(c@),
            Solution::Ambiguous => SpecSolution::Ambiguous,
            Solution::NoSolution => SpecSolution::NoSolution,
        }
    }
}

/// Whether two lists of binders are equal.
pub fn binders_eq(a: &Vec<CanonicalVarKind>, b: &Vec<CanonicalVarKind>) -> (r: bool)
    ensures
        r == (a@ == b@),
{
    if a.len() != b.len() {
        return false;
    }
    let mut i: usize = 0;
    while i < a.len()
        invariant
            0 <= i <= a.len(),
            a.len() == b.len(),
            forall|j: int| 0 <= j < i ==> a@[j] == b@[j],
        decreases a.len() - i,
    {
        if !(a[i] == b[i]) {
            return false;
        }
        i += 1;
    }
    proof {
        assert(a@ =~= b@);
    }
    true
}

/// Whether two canonical values are equal.
pub fn canonical_eq(a: &Canonical, b: &Canonical) -> (r: bool)
    ensures
        r == (a@ == b@),
{
    binders_eq(&a.binders, &b.binders) && term_eq(&a.value, &b.value)
}

/// Whether two table keys are equal.
pub fn key_eq(a: &UCanonical, b: &UCanonical) -> (r: bool)
    ensures
        r == (a@ == b@),
{
    a.universes == b.universes && canonical_eq(&a.canonical, &b.canonical)
}

/// A copy of a list of binders.
pub fn clone_binders(a: &Vec<CanonicalVarKind>) -> (r: Vec<CanonicalVarKind>)
    ensures
        r@ == a@,
{
    let mut r: Vec<CanonicalVarKind> = Vec::new();
    let mut i: usize = 0;
    while i < a.len()
        invariant
            0 <= i <= a.len(),
            r.len() == i,
            forall|j: int| 0 <= j < i ==> r@[j] == a@[j],
        decreases a.len() - i,
    {
        r.push(a[i]);
        i += 1;
    }
    proof {
        assert(r@ =~= a@);
    }
    r
}

/// A copy of a canonical value.
pub fn clone_canonical(a: &Canonical) -> (r: Canonical)
    ensures
        r@ == a@,
{
    Canonical { binders: clone_binders(&a.binders), value: clone_term(&a.value) }
}

/// A copy of a table key.
pub fn clone_key(a: &UCanonical) -> (r: UCanonical)
    ensures
        r@ == a@,
{
    UCanonical { canonical: clone_canonical(&a.canonical), universes: a.universes }
}

/// Whether the answer is among the answers.
pub fn has_answer(answers: &Vec<Canonical>, x: &Canonical) -> (r: bool)
    ensures
        r == canonical_views(answers@).contains(x@),
{
    let mut i: usize = 0;
    while i < answers.len()
        invariant
            0 <= i <= answers.len(),
            forall|j: int| 0 <= j < i ==> canonical_views(answers@)[j] != x@,
        decreases answers.len() - i,
    {
        if canonical_eq(&answers[i], x) {
            proof {
                assert(canonical_views(answers@)[i as int] == x@);
            }
            return true;
        }
        i += 1;
    }
    false
}

/// Whether the key is on the stack.
pub fn on_stack(stack: &Vec<UCanonical>, key: &UCanonical) -> (r: bool)
    ensures
        r == key_views(stack@).contains(key@),
{
    let mut i: usize = 0;
    while i < stack.len()
        invariant
            0 <= i <= stack.len(),
            forall|j: int| 0 <= j < i ==> key_views(stack@)[j] != key@,
        decreases stack.len() - i,
    {
        if key_eq(&stack[i], key) {
            proof {
                assert(key_views(stack@)[i as int] == key@);
            }
            return true;
        }
        i += 1;
    }
    false
}

/// The stack with one more key.
pub fn pushed(stack: &Vec<UCanonical>, key: &UCanonical) -> (r: Vec<UCanonical>)
    ensures
        key_views(r@) == key_views(stack@).push(key@),
{
    let mut r: Vec<UCanonical> = Vec::new();
    let mut i: usize = 0;
    while i < stack.len()
        invariant
            0 <= i <= stack.len(),
            r.len() == i,
            forall|j: int| 0 <= j < i ==> (#[trigger] r@[j])@ == stack@[j]@,
        decreases stack.len() - i,
    {
        r.push(clone_key(&stack[i]));
        i += 1;
    }
    r.push(clone_key(key));
    proof {
        assert(key_views(r@) =~= key_views(stack@).push(key@));
    }
    r
}

/// Two outcomes as one.
pub fn merge_outcomes(a: Outcome, b: &Outcome) -> (r: Outcome)
    ensures
        r@ == merge(a@, b@),
{
    let ghost a0 = a@.answers;
    let mut answers = a.answers;
    let mut i: usize = 0;
    while i < b.answers.len()
        invariant
            0 <= i <= b.answers.len(),
            canonical_views(answers@) == merge_answers(a0, canonical_views(b.answers@), i as nat),
        decreases b.answers.len() - i,
    {
        let ghost before = canonical_views(answers@);
        if !has_answer(&answers, &b.answers[i]) {
            answers.push(clone_canonical(&b.answers[i]));
            proof {
                assert(canonical_views(answers@) =~= before.push(b.answers@[i as int]@));
            }
        }
        i += 1;
    }
    Outcome { answers, floundered: a.floundered || b.floundered, reach: lower_of(a.reach, b.reach) }
}

/// No answer, and the search was complete.
fn none_found() -> (r: Outcome)
    ensures
        r@ == no_answers(),
{
    let r = Outcome { answers: Vec::new(), floundered: false, reach: None };
    proof {
        assert(r@.answers =~= Seq::empty());
    }
    r
}

/// No answer, and the search gave up.
fn gave_up() -> (r: Outcome)
    ensures
        r@ == floundered(),
{
    let r = Outcome { answers: Vec::new(), floundered: true, reach: None };
    proof {
        assert(r@.answers =~= Seq::empty());
    }
    r
}

/// One answer of a complete search.
fn one_answer(c: Canonical) -> (r: Outcome)
    ensures
        r@ == (SpecOutcome { answers: seq![c@], floundered: false, reach: None }),
{
    let mut answers: Vec<Canonical> = Vec::new();
    answers.push(c);
    let r = Outcome { answers, floundered: false, reach: None };
    proof {
        assert(r@.answers =~= seq![c@]);
    }
    r
}

/// The environment and the goal of a goal in its environment.
pub fn split_goal(g: &Term) -> (r: Option<(Vec<Term>, Term)>)
    ensures
        match goal_parts(g@) {
            Some((environment, goal)) => r is Some && views((r->0).0@) == environment && (r->0).1@ == goal,
            None => r is None,
        },
{
    proof {
        lemma_view_args(*g);
    }
    match g.head {
        Head::InEnvironment => {},
        _ => {
            return None;
        },
    }
    if g.args.len() == 0 {
        return None;
    }
    let n = g.args.len() - 1;
    let mut environment: Vec<Term> = Vec::new();
    let mut i: usize = 0;
    while i < n
        invariant
            0 <= i <= n,
            n == g.args.len() - 1,
            environment.len() == i,
            forall|j: int| 0 <= j < i ==> (#[trigger] environment@[j])@ == g.args@[j]@,
        decreases n - i,
    {
        environment.push(clone_term(&g.args[i]));
        i += 1;
    }
    let goal = clone_term(&g.args[n]);
    proof {
        assert(views(environment@) =~= g@.args.drop_last());
    }
    Some((environment, goal))
}

/// The kinds of the variables that a list of binders introduces.
pub fn read_kinds(binders: &Term) -> (r: Option<Vec<VariableKind>>)
    ensures
        match binder_kinds(binders@) {
            Some(ks) => r is Some && r->0@ == ks,
            None => r is None,
        },
{
    proof {
        lemma_view_args(*binders);
    }
    match binders.head {
        Head::Binders => {},
        _ => {
            return None;
        },
    }
    let mut ks: Vec<VariableKind> = Vec::new();
    let mut i: usize = 0;
    while i < binders.args.len()
        invariant
            0 <= i <= binders.args.len(),
            binders@.args == views(binders.args@),
            kinds_prefix(binders@.args, i as nat) == Some(ks@),
        decreases binders.args.len() - i,
    {
        proof {
            lemma_view_args(binders.args@[i as int]);
        }
        match binders.args[i].head {
            Head::BinderKind(k) => {
                ks.push(k);
            },
            _ => {
                proof {
                    lemma_kinds_prefix_fails(binders@.args, (i + 1) as nat, binders@.args.len());
                }
                return None;
            },
        }
        i += 1;
    }
    Some(ks)
}

/// A binder term that is no kind among the first is none in the whole list.
proof fn lemma_kinds_prefix_fails(args: Seq<SpecTerm>, n: nat, m: nat)
    requires
        n <= m <= args.len(),
        kinds_prefix(args, n) is None,
    ensures
        kinds_prefix(args, m) is None,
    decreases m,
{
    if m > n {
        lemma_kinds_prefix_fails(args, n, (m - 1) as nat);
    }
}

/// A list of terms as one term.
pub fn list_term(ts: Vec<Term>) -> (r: Term)
    ensures
        r@ == list(views(ts@)),
{
    Term::new(Head::List, ts)
}

/// A substitution with its constraints as one term.
pub fn constrained_subst_term(subst: &Term, constraints: &Vec<Term>) -> (r: Term)
    ensures
        r@ == constrained_subst(subst@, views(constraints@)),
{
    let mut args: Vec<Term> = Vec::new();
    args.push(clone_term(subst));
    args.push(list_term(clone_terms(constraints)));
    let r = Term::new(Head::List, args);
    proof {
        assert(r@.args =~= seq![subst@, list(views(constraints@))]);
    }
    r
}

/// The universe that has number `k` among the universes `us`.
pub fn restored_universe(us: &Vec<Head>, k: usize) -> (r: usize)
    ensures
        r == restore_universe(us@, k),
{
    let mut i: usize = 0;
    while i < us.len()
        invariant
            0 <= i <= us.len(),
            restore_upto(us@, k, i as nat) is None,
        decreases us.len() - i,
    {
        match us[i] {
            Head::Placeholder { kind, universe, index } => {
                if universe_rank(us, universe) == k {
                    proof {
                        assert(restore_upto(us@, k, (i + 1) as nat) == Some(universe));
                        lemma_restore_stable(us@, k, (i + 1) as nat, us@.len());
                    }
                    return universe;
                }
            },
            _ => {},
        }
        i += 1;
    }
    k
}

/// A universe that is found among the first is the one found among more.
proof fn lemma_restore_stable(us: Seq<Head>, k: usize, n: nat, m: nat)
    requires
        n <= m <= us.len(),
        restore_upto(us, k, n) is Some,
    ensures
        restore_upto(us, k, m) == restore_upto(us, k, n),
    decreases m,
{
    if m > n {
        lemma_restore_stable(us, k, n, (m - 1) as nat);
    }
}

/// The return from renumbered universes, as a leaf map.
pub struct Restore<'a> {
    pub us: &'a Vec<Head>,
}

impl<'a> LeafMap for Restore<'a> {
    open spec fn image(&self, head: Head, depth: u32) -> SpecTerm {
        restore_image(self.us@, head, depth)
    }

    fn apply(&self, head: Head, depth: u32) -> (r: Term) {
        match head {
            Head::Placeholder { kind, universe, index } => Term::atom(
                Head::Placeholder { kind, universe: restored_universe(self.us, universe), index },
            ),
            _ => Term::atom(head),
        }
    }
}

/// The canonical value with its universes restored.
pub fn restore(us: &Vec<Head>, c: &Canonical) -> (r: Canonical)
    ensures
        r@.binders == restore_binders(us@, c@.binders),
        r@.value == fold(c@.value, restoring(us@), 0),
{
    let f = Restore { us };
    proof {
        assert(image_of(&f) =~= restoring(us@));
    }
    let value = fold_term(&c.value, &f, 0);
    let mut binders: Vec<CanonicalVarKind> = Vec::new();
    let mut i: usize = 0;
    while i < c.binders.len()
        invariant
            0 <= i <= c.binders.len(),
            binders.len() == i,
            forall|j: int| 0 <= j < i ==> #[trigger] binders@[j] == restore_binders(us@, c@.binders)[j],
        decreases c.binders.len() - i,
    {
        let b = c.binders[i];
        binders.push(CanonicalVarKind { kind: b.kind, universe: restored_universe(us, b.universe) });
        i += 1;
    }
    proof {
        assert(binders@ =~= restore_binders(us@, c@.binders));
    }
    Canonical { binders, value }
}

/// Adds a literal that must be proved.
pub fn push_positive(ex: &mut ExClause, g: Term)
    ensures
        final(ex)@ == with_literal(old(ex)@, SpecLiteral::Positive(g@)),
{
    ex.subgoals.push(Literal::Positive(g));
    proof {
        assert(literal_views(ex.subgoals@) =~= literal_views(old(ex).subgoals@).push(SpecLiteral::Positive(g@)));
    }
}

/// Adds a literal that must fail.
pub fn push_negative(ex: &mut ExClause, g: Term)
    ensures
        final(ex)@ == with_literal(old(ex)@, SpecLiteral::Negative(g@)),
{
    ex.subgoals.push(Literal::Negative(g));
    proof {
        assert(literal_views(ex.subgoals@) =~= literal_views(old(ex).subgoals@).push(SpecLiteral::Negative(g@)));
    }
}

/// What one step made of a goal that is not atomic.
#[derive(Clone, Copy, PartialEq, Eq, Structural, Debug)]
pub enum Progress {
    Flounder,
    Fail,
    Continue,
}

/// One step on a goal that is not atomic. Where the search goes on, the
/// table and the ex-clause are those to go on with.
pub fn simplify_goal(
    table: &mut InferenceTable,
    ex: &mut ExClause,
    environment: &Vec<Term>,
    goal: &Term,
) -> (r: Progress)
    ensures
        match simplify(old(table)@, old(ex)@, views(environment@), goal@) {
            Simplified::Flounder => r == Progress::Flounder,
            Simplified::Fail => r == Progress::Fail,
            Simplified::Continue(t2, ex2) => r == Progress::Continue && final(table)@ == t2 && final(ex)@ == ex2,
        },
{
    proof {
        lemma_view_args(*goal);
    }
    match goal.head {
        Head::All => {
            let n = goal.args.len();
            let mut i: usize = 0;
            let ghost start = literal_views(ex.subgoals@);
            let ghost all = conjuncts(views(environment@), goal@.args);
            while i < n
                invariant
                    0 <= i <= n,
                    n == goal.args.len(),
                    goal@.args == views(goal.args@),
                    all == conjuncts(views(environment@), goal@.args),
                    ex.subst == old(ex).subst,
                    ex.constraints == old(ex).constraints,
                    literal_views(ex.subgoals@) == start + all.subrange(0, i as int),
                decreases n - i,
            {
                let ghost before = literal_views(ex.subgoals@);
                let g = in_environment_term(environment, clone_term(&goal.args[n - 1 - i]));
                ex.subgoals.push(Literal::Positive(g));
                proof {
                    assert(all[i as int] == SpecLiteral::Positive(g@));
                    assert(literal_views(ex.subgoals@) =~= before.push(SpecLiteral::Positive(g@)));
                    assert(start + all.subrange(0, i + 1) =~= (start + all.subrange(0, i as int)).push(
                        all[i as int],
                    ));
                }
                i += 1;
            }
            proof {
                assert(all.subrange(0, n as int) =~= all);
            }
            Progress::Continue
        },
        Head::Implies => {
            if goal.args.len() == 0 {
                return Progress::Flounder;
            }
            let n = goal.args.len() - 1;
            let mut larger = clone_terms(environment);
            let mut i: usize = 0;
            while i < n
                invariant
                    0 <= i <= n,
                    n == goal.args.len() - 1,
                    goal@.args == views(goal.args@),
                    views(larger@) == views(environment@) + goal@.args.subrange(0, i as int),
                decreases n - i,
            {
                let ghost before = views(larger@);
                let c = clone_term(&goal.args[i]);
                larger.push(c);
                proof {
                    assert(views(larger@) =~= before.push(c@));
                    assert(views(environment@) + goal@.args.subrange(0, i + 1) =~= (views(environment@)
                        + goal@.args.subrange(0, i as int)).push(goal@.args[i as int]));
                }
                i += 1;
            }
            proof {
                assert(goal@.args.subrange(0, n as int) =~= goal@.args.drop_last());
            }
            let g = in_environment_term(&larger, clone_term(&goal.args[n]));
            push_positive(ex, g);
            Progress::Continue
        },
        Head::ForAll => {
            if goal.args.len() != 2 {
                return Progress::Flounder;
            }
            match read_kinds(&goal.args[0]) {
                Some(kinds) => {
                    let body = table.instantiate_binders_universally(&kinds, &goal.args[1]);
                    push_positive(ex, in_environment_term(environment, body));
                    Progress::Continue
                },
                None => Progress::Flounder,
            }
        },
        Head::Exists => {
            if goal.args.len() != 2 {
                return Progress::Flounder;
            }
            match read_kinds(&goal.args[0]) {
                Some(kinds) => {
                    let body = table.instantiate_binders_existentially(&kinds, &goal.args[1]);
                    push_positive(ex, in_environment_term(environment, body));
                    Progress::Continue
                },
                None => Progress::Flounder,
            }
        },
        Head::Not => {
            if goal.args.len() != 1 {
                return Progress::Flounder;
            }
            push_negative(ex, in_environment_term(environment, clone_term(&goal.args[0])));
            Progress::Continue
        },
        Head::Equal => {
            if goal.args.len() != 2 {
                return Progress::Flounder;
            }
            match table.unify(environment, &goal.args[0], &goal.args[1]) {
                Ok(u) => {
                    u.into_ex_clause(ex);
                    Progress::Continue
                },
                Err(_) => Progress::Fail,
            }
        },
        _ => Progress::Flounder,
    }
}

/// Opens a key in a table of its own.
pub fn open_table(key: &UCanonical) -> (r: (InferenceTable, Term, Term))
    ensures
        r.0@ == open_key(key@).table,
        r.1@ == open_key(key@).subst,
        r.2@ == open_key(key@).goal,
{
    let mut table = InferenceTable::new();
    if key.universes > 0 {
        table.max_universe = key.universes - 1;
    }
    proof {
        assert(table@.vars =~= Seq::empty());
    }
    let params = table.fresh_subst(&key.canonical.binders);
    let goal = substitute(&key.canonical.value, &params);
    let subst = list_term(params);
    (table, subst, goal)
}

/// The answer of an ex-clause without literals.
pub fn answer_of(max_size: usize, table: &InferenceTable, ex: &ExClause) -> (r: Outcome)
    ensures
        r@ == answer(max_size, table@, ex@),
{
    let mut scratch = table.clone_table();
    match crate::truncate::truncate(&mut scratch, max_size, &ex.subst) {
        Some(_) => gave_up(),
        None => {
            let cs = constrained_subst_term(&ex.subst, &ex.constraints);
            one_answer(table.canonicalize_constrained_subst(&cs))
        },
    }
}

/// The answer that a coinductive goal is assumed to have within its own proof.
pub fn assumed_answer(key: &UCanonical) -> (r: Canonical)
    ensures
        r@ == trivial_answer(key@),
{
    let (table, subst, _) = open_table(key);
    let none: Vec<Term> = Vec::new();
    proof {
        assert(views(none@) =~= Seq::empty());
    }
    let cs = constrained_subst_term(&subst, &none);
    table.canonicalize_constrained_subst(&cs)
}

/// The resolvent of an atomic goal with a clause.
pub fn resolve(
    table: &InferenceTable,
    subst: &Term,
    environment: &Vec<Term>,
    goal: &Term,
    clause: &Term,
) -> (r: Option<(InferenceTable, ExClause)>)
    ensures
        match resolvent(table@, subst@, views(environment@), goal@, clause@) {
            Some((t2, ex)) => r is Some && (r->0).0@ == t2 && (r->0).1@ == ex,
            None => r is None,
        },
{
    proof {
        lemma_view_args(*clause);
    }
    match clause.head {
        Head::Clause(_) => {},
        _ => {
            return None;
        },
    }
    if clause.args.len() < 2 {
        return None;
    }
    let kinds = match read_kinds(&clause.args[0]) {
        Some(kinds) => kinds,
        None => {
            return None;
        },
    };
    let mut opened = table.clone_table();
    let binders = kinds_in_universe(&kinds, opened.max_universe);
    let params = opened.fresh_subst(&binders);
    let consequence = substitute(&clause.args[1], &params);
    match opened.unify(environment, &consequence, goal) {
        Err(_) => None,
        Ok(u) => {
            let mut subgoals: Vec<Literal> = Vec::new();
            let ghost conditions = condition_literals(views(environment@), clause@.args, views(params@));
            let mut i: usize = 2;
            while i < clause.args.len()
                invariant
                    2 <= i <= clause.args.len(),
                    clause@.args == views(clause.args@),
                    conditions == condition_literals(views(environment@), clause@.args, views(params@)),
                    subgoals.len() == i - 2,
                    forall|j: int| 0 <= j < i - 2 ==> (#[trigger] subgoals@[j])@ == conditions[j],
                decreases clause.args.len() - i,
            {
                let c = substitute(&clause.args[i], &params);
                subgoals.push(Literal::Positive(in_environment_term(environment, c)));
                i += 1;
            }
            let mut ex = ExClause { subst: clone_term(subst), constraints: Vec::new(), subgoals };
            proof {
                assert(literal_views(ex.subgoals@) =~= conditions);
                assert(views(ex.constraints@) =~= Seq::empty());
            }
            let ghost goals = views(u.goals@);
            let ghost constraints = views(u.constraints@);
            u.into_ex_clause(&mut ex);
            proof {
                assert(Seq::<SpecTerm>::empty() + constraints =~= constraints);
            }
            Some((opened, ex))
        },
    }
}

/// An answer of a table brought back to the goal it was asked for.
pub fn apply(
    table: &InferenceTable,
    rest: &ExClause,
    environment: &Vec<Term>,
    fv: &Vec<Head>,
    us: &Vec<Head>,
    found: &Canonical,
) -> (r: Option<(InferenceTable, ExClause)>)
    ensures
        match apply_answer(table@, rest@, views(environment@), fv@, us@, found@) {
            Some((t2, ex)) => r is Some && (r->0).0@ == t2 && (r->0).1@ == ex,
            None => r is None,
        },
{
    let restored = restore(us, found);
    let mut opened = table.clone_table();
    let params = opened.fresh_subst(&restored.binders);
    let inst = substitute(&restored.value, &params);
    proof {
        lemma_view_args(inst);
    }
    match inst.head {
        Head::List => {},
        _ => {
            return None;
        },
    }
    if inst.args.len() != 2 {
        return None;
    }
    proof {
        lemma_view_args(inst.args@[0]);
        lemma_view_args(inst.args@[1]);
    }
    if inst.args[0].args.len() != fv.len() {
        return None;
    }
    let ghost env = views(environment@);
    let ghost start = opened@;
    let ghost values = inst@.args[0].args;
    let mut goals: Vec<Term> = Vec::new();
    let mut constraints: Vec<Term> = clone_terms(&inst.args[1].args);
    let ghost given = views(constraints@);
    let mut added: Vec<Term> = Vec::new();
    proof {
        assert(views(goals@) =~= Seq::empty());
        assert(views(added@) =~= Seq::empty());
    }
    let mut i: usize = 0;
    while i < fv.len()
        invariant
            0 <= i <= fv.len(),
            env == views(environment@),
            inst.args@.len() == 2,
            values == views(inst.args@[0].args@),
            values.len() == fv@.len(),
            unify_all(env, start, fv@, values, fv@.len()) is None ==> apply_answer(
                table@,
                rest@,
                views(environment@),
                fv@,
                us@,
                found@,
            ) is None,
            unify_all(env, start, fv@, values, i as nat) == Some(
                crate::unify::SpecUnification { table: opened@, goals: views(goals@), constraints: views(added@) },
            ),
        decreases fv.len() - i,
    {
        let v = Term::atom(fv[i]);
        match opened.unify(environment, &v, &inst.args[0].args[i]) {
            Err(_) => {
                proof {
                    assert(unify_all(env, start, fv@, values, (i + 1) as nat) is None);
                    lemma_unify_all_fails(env, start, fv@, values, (i + 1) as nat, fv@.len());
                }
                return None;
            },
            Ok(u) => {
                append_terms(&mut goals, u.goals);
                append_terms(&mut added, u.constraints);
            },
        }
        i += 1;
    }
    append_terms(&mut constraints, added);
    let mut ex = rest.clone_ex_clause();
    let u = UnificationResult { goals, constraints };
    u.into_ex_clause(&mut ex);
    proof {
        let c0 = rest@.constraints;
        assert(c0 + (given + views(added@)) =~= c0 + given + views(added@));
    }
    Some((opened, ex))
}

/// Variables that do not unify with their values so far do not further on.
proof fn lemma_unify_all_fails(
    environment: Seq<SpecTerm>,
    table: crate::infer::SpecTable,
    fv: Seq<Head>,
    params: Seq<SpecTerm>,
    n: nat,
    m: nat,
)
    requires
        n <= m <= fv.len(),
        m <= params.len(),
        unify_all(environment, table, fv, params, n) is None,
    ensures
        unify_all(environment, table, fv, params, m) is None,
    decreases m,
{
    if m > n {
        lemma_unify_all_fails(environment, table, fv, params, n, (m - 1) as nat);
    }
}

/// The answers of an ex-clause.
pub fn solve_ex_clause(
    ctx: &SlgContext,
    max_size: usize,
    table: InferenceTable,
    ex: ExClause,
    stack: &Vec<UCanonical>,
    memo: &mut MemoTable,
    fuel: usize,
) -> (r: Outcome)
    ensures
        (r@, final(memo)@) == solve_ex(
            ctx@,
            max_size,
            table@,
            ex@,
            key_views(stack@),
            old(memo)@,
            fuel as nat,
        ),
    decreases fuel, 0nat,
{
    if fuel == 0 {
        return gave_up();
    }
    if ex.subgoals.len() == 0 {
        proof {
            assert(ex@.subgoals.len() == 0);
        }
        return answer_of(max_size, &table, &ex);
    }
    let mut table = table;
    let mut rest = ex;
    let ghost ex0 = rest@;
    let literal = rest.subgoals.pop().unwrap();
    proof {
        assert(literal_views(rest.subgoals@) =~= ex0.subgoals.drop_last());
        assert(ex0.subgoals.last() == literal@);
        assert(rest@ == without_last(ex0));
    }
    match literal {
        Literal::Negative(g) => {
            let mut scratch = table.clone_table();
            match scratch.invert(&g) {
                None => gave_up(),
                Some(inverted) => {
                    let canonical = scratch.canonicalize_goal(&inverted);
                    let key = scratch.u_canonicalize_goal(&canonical).quantified;
                    if memo.lookup(&key).is_none() && on_stack(stack, &key) {
                        return gave_up();
                    }
                    let sub = solve_goal(ctx, max_size, &key, stack, memo, fuel - 1);
                    if sub.floundered {
                        gave_up()
                    } else if sub.answers.len() > 0 {
                        let r = Outcome { answers: Vec::new(), floundered: false, reach: sub.reach };
                        proof {
                            assert(r@.answers =~= Seq::empty());
                        }
                        r
                    } else {
                        let o = solve_ex_clause(ctx, max_size, table, rest, stack, memo, fuel - 1);
                        Outcome { answers: o.answers, floundered: o.floundered, reach: lower_of(o.reach, sub.reach) }
                    }
                },
            }
        },
        Literal::Positive(g) => {
            match split_goal(&g) {
                None => gave_up(),
                Some((environment, goal)) => {
                    proof {
                        lemma_view_args(goal);
                    }
                    let atomic = match goal.head {
                        Head::Fact(_) => true,
                        _ => false,
                    };
                    if atomic {
                        let mut scratch = table.clone_table();
                        if ctx.truncate_goal(&mut scratch, max_size, &g).is_some() {
                            return gave_up();
                        }
                        let cz = table.canonicalize(&g);
                        let uc = table.u_canonicalize_goal(&cz.quantified);
                        let sub = solve_goal(ctx, max_size, &uc.quantified, stack, memo, fuel - 1);
                        let applied = apply_each(
                            ctx,
                            max_size,
                            &table,
                            &rest,
                            &environment,
                            &cz.free_vars,
                            &uc.universes,
                            &sub.answers,
                            stack,
                            memo,
                            fuel - 1,
                        );
                        Outcome {
                            answers: applied.answers,
                            floundered: applied.floundered || sub.floundered,
                            reach: lower_of(applied.reach, sub.reach),
                        }
                    } else {
                        match simplify_goal(&mut table, &mut rest, &environment, &goal) {
                            Progress::Flounder => gave_up(),
                            Progress::Fail => none_found(),
                            Progress::Continue => solve_ex_clause(ctx, max_size, table, rest, stack, memo, fuel - 1),
                        }
                    }
                },
            }
        },
    }
}

/// The answers of an ex-clause for each answer to the literal that was
/// taken from it.
pub fn apply_each(
    ctx: &SlgContext,
    max_size: usize,
    table: &InferenceTable,
    rest: &ExClause,
    environment: &Vec<Term>,
    fv: &Vec<Head>,
    us: &Vec<Head>,
    answers: &Vec<Canonical>,
    stack: &Vec<UCanonical>,
    memo: &mut MemoTable,
    fuel: usize,
) -> (r: Outcome)
    ensures
        (r@, final(memo)@) == apply_answers(
            ctx@,
            max_size,
            table@,
            rest@,
            views(environment@),
            fv@,
            us@,
            canonical_views(answers@),
            answers@.len(),
            key_views(stack@),
            old(memo)@,
            fuel as nat,
        ),
    decreases fuel, 1nat,
{
    let mut acc = none_found();
    let mut i: usize = 0;
    while i < answers.len()
        invariant
            0 <= i <= answers.len(),
            (acc@, memo@) == apply_answers(
                ctx@,
                max_size,
                table@,
                rest@,
                views(environment@),
                fv@,
                us@,
                canonical_views(answers@),
                i as nat,
                key_views(stack@),
                old(memo)@,
                fuel as nat,
            ),
        decreases answers.len() - i,
    {
        let one = if fuel == 0 {
            gave_up()
        } else {
            match apply(table, rest, environment, fv, us, &answers[i]) {
                Some((t2, ex2)) => solve_ex_clause(ctx, max_size, t2, ex2, stack, memo, fuel - 1),
                None => none_found(),
            }
        };
        acc = merge_outcomes(acc, &one);
        i += 1;
    }
    acc
}

/// Appends the clauses that have the priority.
fn push_with_priority(clauses: &Vec<Term>, priority: ClausePriority, out: &mut Vec<Term>)
    ensures
        views(final(out)@) == views(old(out)@) + with_priority(views(clauses@), priority, clauses@.len()),
{
    proof {
        assert(views(out@) =~= views(old(out)@) + with_priority(views(clauses@), priority, 0));
    }
    let mut i: usize = 0;
    while i < clauses.len()
        invariant
            0 <= i <= clauses.len(),
            views(out@) == views(old(out)@) + with_priority(views(clauses@), priority, i as nat),
        decreases clauses.len() - i,
    {
        proof {
            lemma_view_args(clauses@[i as int]);
        }
        let ghost before = views(out@);
        if clauses[i].head == Head::Clause(priority) {
            out.push(clone_term(&clauses[i]));
            proof {
                assert(views(out@) =~= before.push(clauses@[i as int]@));
                assert(views(out@) =~= views(old(out)@) + with_priority(
                    views(clauses@),
                    priority,
                    (i + 1) as nat,
                ));
            }
        }
        i += 1;
    }
}

/// The clauses of high priority in their order, then those of low priority.
pub fn order_by_priority(clauses: &Vec<Term>) -> (r: Vec<Term>)
    ensures
        views(r@) == by_priority(views(clauses@)),
{
    let mut r: Vec<Term> = Vec::new();
    push_with_priority(clauses, ClausePriority::High, &mut r);
    push_with_priority(clauses, ClausePriority::Low, &mut r);
    proof {
        assert(views(r@) =~= by_priority(views(clauses@)));
    }
    r
}

/// The answers of the table that `key` names: replayed from the memo
/// table if it records them, settled at once if the key is on the stack,
/// and searched for otherwise, and recorded if the table is complete.
pub fn solve_goal(
    ctx: &SlgContext,
    max_size: usize,
    key: &UCanonical,
    stack: &Vec<UCanonical>,
    memo: &mut MemoTable,
    fuel: usize,
) -> (r: Outcome)
    ensures
        (r@, final(memo)@) == solve_table(ctx@, max_size, key@, key_views(stack@), old(memo)@, fuel as nat),
    decreases fuel, 0nat,
{
    match memo.lookup(key) {
        Some(answers) => {
            return Outcome { answers, floundered: false, reach: None };
        },
        None => {},
    }
    match position_on(stack, key) {
        Some(p) => {
            let mut answers: Vec<Canonical> = Vec::new();
            if ctx.is_coinductive(&key.canonical.value) {
                let c = assumed_answer(key);
                answers.push(c);
                proof {
                    assert(canonical_views(answers@) =~= seq![c@]);
                }
            } else {
                proof {
                    assert(canonical_views(answers@) =~= Seq::empty());
                }
            }
            let height = stack.len();
            let r = Outcome { answers, floundered: false, reach: Some(p) };
            proof {
                assert(p < height);
                assert(r@.reach == stack_position(key_views(stack@), key@));
            }
            return r;
        },
        None => {},
    }
    if fuel == 0 {
        return gave_up();
    }
    let (table, subst, root) = open_table(key);
    match split_goal(&root) {
        None => gave_up(),
        Some((environment, goal)) => {
            proof {
                lemma_view_args(goal);
            }
            let atomic = match goal.head {
                Head::Fact(_) => true,
                _ => false,
            };
            let deeper = pushed(stack, key);
            let o = if atomic {
                let clauses = order_by_priority(&ctx.program_clauses(&environment, &goal));
                resolve_each(ctx, max_size, &table, &subst, &environment, &goal, &clauses, &deeper, memo, fuel - 1)
            } else {
                let mut subgoals: Vec<Literal> = Vec::new();
                subgoals.push(Literal::Positive(root));
                let ex = ExClause { subst, constraints: Vec::new(), subgoals };
                proof {
                    assert(views(ex.constraints@) =~= Seq::empty());
                    assert(literal_views(ex.subgoals@) =~= seq![SpecLiteral::Positive(root@)]);
                }
                solve_ex_clause(ctx, max_size, table, ex, &deeper, memo, fuel - 1)
            };
            let own = stack.len();
            let is_settled = match o.reach {
                Some(p) => p >= own,
                None => true,
            };
            if is_settled {
                if !o.floundered {
                    memo.record(key, &o.answers);
                }
                Outcome { answers: o.answers, floundered: o.floundered, reach: None }
            } else {
                o
            }
        },
    }
}

/// The answers of an atomic goal by each of the clauses.
pub fn resolve_each(
    ctx: &SlgContext,
    max_size: usize,
    table: &InferenceTable,
    subst: &Term,
    environment: &Vec<Term>,
    goal: &Term,
    clauses: &Vec<Term>,
    stack: &Vec<UCanonical>,
    memo: &mut MemoTable,
    fuel: usize,
) -> (r: Outcome)
    ensures
        (r@, final(memo)@) == resolve_clauses(
            ctx@,
            max_size,
            table@,
            subst@,
            views(environment@),
            goal@,
            views(clauses@),
            clauses@.len(),
            key_views(stack@),
            old(memo)@,
            fuel as nat,
        ),
    decreases fuel, 1nat,
{
    let mut acc = none_found();
    let mut i: usize = 0;
    while i < clauses.len()
        invariant
            0 <= i <= clauses.len(),
            (acc@, memo@) == resolve_clauses(
                ctx@,
                max_size,
                table@,
                subst@,
                views(environment@),
                goal@,
                views(clauses@),
                i as nat,
                key_views(stack@),
                old(memo)@,
                fuel as nat,
            ),
        decreases clauses.len() - i,
    {
        let one = if fuel == 0 {
            gave_up()
        } else {
            match resolve(table, subst, environment, goal, &clauses[i]) {
                Some((t2, ex)) => solve_ex_clause(ctx, max_size, t2, ex, stack, memo, fuel - 1),
                None => none_found(),
            }
        };
        acc = merge_outcomes(acc, &one);
        i += 1;
    }
    acc
}

/// The solution that an outcome amounts to.
pub fn into_solution(outcome: Outcome) -> (r: Solution)
    ensures
        r@ == solution_of(outcome@),
{
    let mut outcome = outcome;
    if outcome.floundered {
        Solution::Ambiguous
    } else if outcome.answers.len() == 0 {
        Solution::NoSolution
    } else if outcome.answers.len() == 1 {
        let ghost first = outcome.answers@[0]@;
        let c = outcome.answers.pop().unwrap();
        proof {
            assert(c@ == first);
        }
        Solution::Unique(c)
    } else {
        Solution::Ambiguous
    }
}

/// Solves a goal given in canonical form with renumbered universes: a
/// goal in its environment, as one term. No goal larger than `max_size`
/// nodes is taken up, and no chain of steps is longer than `fuel`; where
/// either bound stops the search the solution is ambiguous.
pub fn solve(ctx: &SlgContext, goal: &UCanonical, max_size: usize, fuel: usize) -> (r: Solution)
    ensures
        r@ == solve_model(ctx@, max_size, goal@, fuel as nat),
{
    let stack: Vec<UCanonical> = Vec::new();
    let mut memo = MemoTable::new();
    proof {
        assert(key_views(stack@) =~= Seq::empty());
        assert(memo@ =~= Seq::empty());
    }
    into_solution(solve_goal(ctx, max_size, goal, &stack, &mut memo, fuel))
}

/// Solves a goal with a memo table that other goals of the same program
/// have filled and may use after.
pub fn solve_with_memo(ctx: &SlgContext, goal: &UCanonical, max_size: usize, fuel: usize, memo: &mut MemoTable) -> (r:
    Solution)
    ensures
        r@ == solution_of(solve_table(ctx@, max_size, goal@, Seq::empty(), old(memo)@, fuel as nat).0),
        final(memo)@ == solve_table(ctx@, max_size, goal@, Seq::empty(), old(memo)@, fuel as nat).1,
{
    let stack: Vec<UCanonical> = Vec::new();
    proof {
        assert(key_views(stack@) =~= Seq::empty());
    }
    into_solution(solve_goal(ctx, max_size, goal, &stack, memo, fuel))
}

/// The goal with up to `fuel` leading existential quantifiers opened: the
/// variables of each become fresh inference variables of the table.
pub open spec fn peel_model(table: SpecTable, goal: SpecTerm, fuel: nat) -> (SpecTable, SpecTerm)
    decreases fuel,
{
    if fuel > 0 && goal.head is Exists && goal.args.len() == 2 && binder_kinds(goal.args[0]) is Some {
        let binders = crate::infer::in_universe(binder_kinds(goal.args[0])->0, table.max_universe);
        peel_model(
            table.with_variables(binders, binders.len()),
            fold(goal.args[1], crate::infer::instantiate(crate::infer::fresh_params(binders, table.vars.len())), 0),
            (fuel - 1) as nat,
        )
    } else {
        (table, goal)
    }
}

/// The goal with its leading existential quantifiers opened.
pub fn peel(table: &mut InferenceTable, goal: &Term, fuel: usize) -> (r: Term)
    ensures
        (final(table)@, r@) == peel_model(old(table)@, goal@, fuel as nat),
    decreases fuel,
{
    proof {
        lemma_view_args(*goal);
    }
    let is_exists = match goal.head {
        Head::Exists => true,
        _ => false,
    };
    if fuel > 0 && is_exists && goal.args.len() == 2 {
        match read_kinds(&goal.args[0]) {
            Some(kinds) => {
                let body = table.instantiate_binders_existentially(&kinds, &goal.args[1]);
                peel(table, &body, fuel - 1)
            },
            None => clone_term(goal),
        }
    } else {
        clone_term(goal)
    }
}

/// The key of a goal asked in `environment`: the leading existential
/// quantifiers of the goal are opened, and the variables that they
/// declare, with any inference variable that the goal holds, are what the
/// solution is to find.
pub open spec fn root_key(environment: Seq<SpecTerm>, goal: SpecTerm) -> SpecUCanonical {
    let (table, peeled) = peel_model(
        SpecTable { vars: Seq::empty(), max_universe: 0 },
        goal,
        crate::term::capped_size(goal) as nat,
    );
    u_canonicalize_model(canonicalize_model(table, in_environment(environment, peeled)).quantified).quantified
}

/// Solves `goal` in `environment`. The solution speaks of the variables
/// that the leading existential quantifiers of the goal declare and of the
/// inference variables of the goal, in the order of their first occurrence.
pub fn solve_in_environment(
    ctx: &SlgContext,
    environment: &Vec<Term>,
    goal: &Term,
    max_size: usize,
    fuel: usize,
) -> (r: Solution)
    ensures
        r@ == solve_model(ctx@, max_size, root_key(views(environment@), goal@), fuel as nat),
{
    let mut table = InferenceTable::new();
    proof {
        assert(table@.vars =~= Seq::empty());
    }
    let peeled = peel(&mut table, goal, crate::term::term_size(goal));
    let g = in_environment_term(environment, peeled);
    let canonical = table.canonicalize_goal(&g);
    let key = table.u_canonicalize_goal(&canonical).quantified;
    solve(ctx, &key, max_size, fuel)
}

impl Solution {
    /// Whether the goal holds in exactly one way.
    pub fn is_unique(&self) -> (r: bool)
        ensures
            r == (self@ is Unique),
    {
        match self {
            Solution::Unique(_) => true,
            _ => false,
        }
    }
}

} // verus!
