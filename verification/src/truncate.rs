//! Truncation: bounding the size of a term by putting fresh inference
//! variables in place of the types that do not fit.

use vstd::prelude::*;
use crate::symbol::Head;
use crate::symbol::Kind;
use crate::term::SpecTerm;
use crate::term::Term;
use crate::term::capped_size;
use crate::term::size;
use crate::term::size_prefix;
use crate::term::lemma_view_args;
use crate::term::term_size;
use crate::term::views;
use crate::fold::clone_term;
use crate::infer::InferenceTable;
use crate::infer::SpecTable;
use crate::infer::normalize;
use crate::unify::head_has_sort;
use crate::unify::sort_of;

verus! {

/// The table with `k` more variables, unbound, in its largest universe.
pub open spec fn with_fresh(table: SpecTable, k: nat) -> SpecTable
    decreases k,
{
    if k == 0 {
        table
    } else {
        with_fresh(table, (k - 1) as nat).with_variable(table.max_universe)
    }
}

/// Fresh variables leave the largest universe as it is and add to the variables.
proof fn lemma_with_fresh(table: SpecTable, k: nat)
    ensures
        with_fresh(table, k).max_universe == table.max_universe,
        with_fresh(table, k).vars.len() == table.vars.len() + k,
    decreases k,
{
    if k > 0 {
        lemma_with_fresh(table, (k - 1) as nat);
    }
}

/// Fresh variables added in two steps are the fresh variables added in one.
proof fn lemma_with_fresh_twice(table: SpecTable, a: nat, b: nat)
    ensures
        with_fresh(with_fresh(table, a), b) == with_fresh(table, a + b),
    decreases b,
{
    lemma_with_fresh(table, a);
    if b > 0 {
        lemma_with_fresh_twice(table, a, (b - 1) as nat);
    }
}

/// The size that each of `n` sub-terms may take when the node above them
/// may take `budget`.
pub open spec fn share(budget: usize, n: nat) -> usize {
    if n == 0 || budget == 0 {
        0
    } else {
        ((budget - 1) / n as int) as usize
    }
}

/// The term cut down towards `budget` nodes, and the number of the next
/// fresh variable: a term that fits stays; a type that does not fit, and
/// whose sub-terms cannot each have a node of the budget, becomes the
/// variable numbered `next`; any other term keeps its symbol, and its
/// sub-terms share the rest of the budget in equal parts.
pub open spec fn cut(t: SpecTerm, budget: usize, next: nat) -> (SpecTerm, nat)
    decreases t, 0nat,
{
    if capped_size(t) <= budget || t.args.len() == 0 {
        (t, next)
    } else if sort_of(t.head) == Some(Kind::Ty) && budget <= t.args.len() {
        (SpecTerm::atom(Head::InferenceVar { kind: Kind::Ty, var: next as usize }), next + 1)
    } else {
        let (args, after) = cut_prefix(t.args, t.args.len(), share(budget, t.args.len()), next);
        (SpecTerm { head: t.head, args }, after)
    }
}

/// The first `n` terms of a list, each cut down towards `budget` nodes.
pub open spec fn cut_prefix(ts: Seq<SpecTerm>, n: nat, budget: usize, next: nat) -> (Seq<SpecTerm>, nat)
    decreases ts, n,
{
    if n == 0 || n > ts.len() {
        (Seq::empty(), next)
    } else {
        let (before, mid) = cut_prefix(ts, (n - 1) as nat, budget, next);
        let (last, after) = cut(ts[n - 1], budget, mid);
        (before.push(last), after)
    }
}

/// Cutting a term only ever takes fresh variables: the next free number does not go down.
proof fn lemma_cut_grows(t: SpecTerm, budget: usize, next: nat)
    ensures
        cut(t, budget, next).1 >= next,
    decreases t, 0nat,
{
    if capped_size(t) <= budget || t.args.len() == 0 {
    } else if sort_of(t.head) == Some(Kind::Ty) && budget <= t.args.len() {
    } else {
        lemma_cut_prefix_grows(t.args, t.args.len(), share(budget, t.args.len()), next);
    }
}

/// Cutting a list of terms keeps their number and only ever takes fresh variables.
proof fn lemma_cut_prefix_grows(ts: Seq<SpecTerm>, n: nat, budget: usize, next: nat)
    ensures
        cut_prefix(ts, n, budget, next).1 >= next,
        n <= ts.len() ==> cut_prefix(ts, n, budget, next).0.len() == n,
    decreases ts, n,
{
    if n == 0 || n > ts.len() {
    } else {
        lemma_cut_prefix_grows(ts, (n - 1) as nat, budget, next);
        lemma_cut_grows(ts[n - 1], budget, cut_prefix(ts, (n - 1) as nat, budget, next).1);
    }
}

/// What truncation returns: nothing where the normalized term has at most
/// `max_size` nodes; otherwise the term cut down, with the table that holds
/// the fresh variables of the cut.
pub open spec fn truncate_model(table: SpecTable, max_size: usize, t: SpecTerm) -> Option<
    (SpecTable, SpecTerm),
> {
    let n = normalize(table, t);
    if capped_size(n) <= max_size {
        None
    } else {
        let (r, after) = cut(n, max_size, table.vars.len());
        Some((with_fresh(table, (after - table.vars.len()) as nat), r))
    }
}

/// The size that each of `n` sub-terms may take.
fn share_of(budget: usize, n: usize) -> (r: usize)
    ensures
        r == share(budget, n as nat),
{
    if n == 0 || budget == 0 {
        0
    } else {
        (budget - 1) / n
    }
}

/// Cuts a term down towards `budget` nodes, with fresh variables of the largest universe.
fn cut_term(t: &Term, budget: usize, table: &mut InferenceTable) -> (r: Term)
    ensures
        r@ == cut(t@, budget, old(table)@.vars.len()).0,
        final(table)@ == with_fresh(
            old(table)@,
            (cut(t@, budget, old(table)@.vars.len()).1 - old(table)@.vars.len()) as nat,
        ),
        crate::wellformed::table_wf(old(table)@) ==> crate::wellformed::table_wf(final(table)@),
    decreases t,
{
    proof {
        lemma_view_args(*t);
        lemma_cut_grows(t@, budget, old(table)@.vars.len());
    }
    if term_size(t) <= budget || t.args.len() == 0 {
        return clone_term(t);
    }
    if head_has_sort(&t.head, Kind::Ty) && budget <= t.args.len() {
        let universe = table.max_universe();
        let v = table.new_variable(universe);
        proof {
            assert(with_fresh(old(table)@, 0) == old(table)@);
            assert(with_fresh(old(table)@, 1) == old(table)@.with_variable(old(table)@.max_universe));
        }
        return v.to_ty();
    }
    let part = share_of(budget, t.args.len());
    let ghost base = old(table)@.vars.len();
    let mut args: Vec<Term> = Vec::new();
    let mut i: usize = 0;
    while i < t.args.len()
        invariant
            0 <= i <= t.args.len(),
            args.len() == i,
            t@.args == views(t.args@),
            base == old(table)@.vars.len(),
            cut_prefix(t@.args, i as nat, part, base).1 >= base,
            views(args@) == cut_prefix(t@.args, i as nat, part, base).0,
            table@ == with_fresh(old(table)@, (cut_prefix(t@.args, i as nat, part, base).1 - base) as nat),
            crate::wellformed::table_wf(old(table)@) ==> crate::wellformed::table_wf(table@),
        decreases t.args.len() - i,
    {
        let ghost mid = cut_prefix(t@.args, i as nat, part, base).1;
        let ghost before = views(args@);
        proof {
            lemma_with_fresh(old(table)@, (mid - base) as nat);
            lemma_cut_grows(t@.args[i as int], part, mid);
            lemma_with_fresh_twice(
                old(table)@,
                (mid - base) as nat,
                (cut(t@.args[i as int], part, mid).1 - mid) as nat,
            );
        }
        let a = cut_term(&t.args[i], part, table);
        args.push(a);
        proof {
            assert(views(args@) =~= before.push(a@));
        }
        i += 1;
    }
    let r = Term::new(t.head, args);
    r
}

/// The term truncated, if it has more than `max_size` nodes: what comes
/// back has at most `max_size` nodes besides those that no cut takes away.
pub fn truncate(table: &mut InferenceTable, max_size: usize, value: &Term) -> (r: Option<Term>)
    ensures
        match truncate_model(old(table)@, max_size, value@) {
            Some((after, t)) => r is Some && r->0@ == t && final(table)@ == after,
            None => r is None && final(table)@ == old(table)@,
        },
        r is Some && max_size < usize::MAX ==> size(r->0@) <= at_least_one(max_size) + frame(
            normalize(old(table)@, value@),
        ),
        crate::wellformed::table_wf(old(table)@) ==> crate::wellformed::table_wf(final(table)@),
{
    proof {
        if max_size < usize::MAX && truncate_model(table@, max_size, value@) is Some {
            lemma_truncated_fits(table@, max_size, value@);
        }
    }
    let n = table.normalize_deep(value);
    if term_size(&n) <= max_size {
        return None;
    }
    Some(cut_term(&n, max_size, table))
}

/// The number of nodes of a term that no cut takes away: every node that
/// is no type counts once, and once more for each of its sub-terms.
pub open spec fn frame(t: SpecTerm) -> nat
    decreases t, 0nat,
{
    frame_prefix(t.args, t.args.len()) + if sort_of(t.head) == Some(Kind::Ty) {
        0nat
    } else {
        1 + t.args.len()
    }
}

/// The nodes of the first `n` terms of a list that no cut takes away.
pub open spec fn frame_prefix(ts: Seq<SpecTerm>, n: nat) -> nat
    decreases ts, n,
{
    if n == 0 || n > ts.len() {
        0
    } else {
        frame_prefix(ts, (n - 1) as nat) + frame(ts[n - 1])
    }
}

/// A budget, or one node where the budget is nothing: no term has less.
pub open spec fn at_least_one(budget: usize) -> nat {
    if budget == 0 {
        1
    } else {
        budget as nat
    }
}

/// Truncation bounds the size: a term is cut down to the budget and the
/// nodes that no cut takes away. A term that is made of types alone, as a
/// type is, has no such nodes and is cut down to the budget; of a goal or
/// a substitution the types are cut, and the facts, lists and lifetimes
/// that hold them stay.
pub proof fn lemma_cut_fits(t: SpecTerm, budget: usize, next: nat)
    requires
        budget < usize::MAX,
    ensures
        size(cut(t, budget, next).0) <= at_least_one(budget) + frame(t),
    decreases t, 0nat,
{
    if capped_size(t) <= budget || t.args.len() == 0 {
        assert(size_prefix(t.args, t.args.len()) == 0 || capped_size(t) <= budget);
    } else if sort_of(t.head) == Some(Kind::Ty) && budget <= t.args.len() {
        let v = SpecTerm::atom(Head::InferenceVar { kind: Kind::Ty, var: next as usize });
        assert(size_prefix(v.args, v.args.len()) == 0);
    } else {
        let n = t.args.len();
        let part = share(budget, n);
        assert(n * part <= at_least_one(budget) - 1 && part <= budget) by (nonlinear_arith)
            requires
                n >= 1,
                part == if budget == 0 {
                    0
                } else {
                    (budget - 1) / (n as int)
                },
                at_least_one(budget) == if budget == 0 {
                    1
                } else {
                    budget as int
                },
        ;
        assert(n * at_least_one(part) <= n * part + n && (part >= 1 ==> n * at_least_one(part) == n * part))
            by (nonlinear_arith)
            requires
                n >= 1,
                at_least_one(part) == if part == 0 {
                    1
                } else {
                    part as int
                },
        ;
        if sort_of(t.head) == Some(Kind::Ty) {
            assert(part >= 1) by (nonlinear_arith)
                requires
                    n >= 1,
                    budget > n,
                    part == (budget - 1) / (n as int),
            ;
        }
        lemma_cut_prefix_fits(t.args, n, part, next);
        lemma_cut_prefix_grows(t.args, n, part, next);
    }
}

/// Each of the terms of a list is cut down to the budget and the nodes
/// that no cut takes away.
proof fn lemma_cut_prefix_fits(ts: Seq<SpecTerm>, n: nat, budget: usize, next: nat)
    requires
        budget < usize::MAX,
        n <= ts.len(),
    ensures
        size_prefix(cut_prefix(ts, n, budget, next).0, n) <= n * at_least_one(budget) + frame_prefix(ts, n),
    decreases ts, n,
{
    if n > 0 {
        let (before, mid) = cut_prefix(ts, (n - 1) as nat, budget, next);
        let (last, after) = cut(ts[n - 1], budget, mid);
        lemma_cut_prefix_fits(ts, (n - 1) as nat, budget, next);
        lemma_cut_prefix_grows(ts, (n - 1) as nat, budget, next);
        lemma_cut_fits(ts[n - 1], budget, mid);
        let all = before.push(last);
        lemma_size_prefix_agrees(all, before, (n - 1) as nat);
        assert(all[n - 1] == last);
        assert(n * at_least_one(budget) == (n - 1) * at_least_one(budget) + at_least_one(budget))
            by (nonlinear_arith);
    }
}

/// What truncation returns has at most `max_size` nodes besides the nodes
/// that no cut takes away.
pub proof fn lemma_truncated_fits(table: SpecTable, max_size: usize, t: SpecTerm)
    requires
        max_size < usize::MAX,
        truncate_model(table, max_size, t) is Some,
    ensures
        size((truncate_model(table, max_size, t)->0).1) <= at_least_one(max_size) + frame(normalize(table, t)),
{
    lemma_cut_fits(normalize(table, t), max_size, table.vars.len());
}

/// Whether a term is made of types alone.
pub open spec fn all_types(t: SpecTerm) -> bool
    decreases t, 0nat,
{
    sort_of(t.head) == Some(Kind::Ty) && all_types_prefix(t.args, t.args.len())
}

/// Whether the first `n` terms of a list are made of types alone.
pub open spec fn all_types_prefix(ts: Seq<SpecTerm>, n: nat) -> bool
    decreases ts, n,
{
    if n == 0 || n > ts.len() {
        true
    } else {
        all_types_prefix(ts, (n - 1) as nat) && all_types(ts[n - 1])
    }
}

/// A cut can take away every node of a term that is made of types alone.
pub proof fn lemma_types_have_no_frame(t: SpecTerm)
    requires
        all_types(t),
    ensures
        frame(t) == 0,
    decreases t, 0nat,
{
    lemma_types_have_no_frame_prefix(t.args, t.args.len());
}

/// The same of the first `n` terms of a list.
proof fn lemma_types_have_no_frame_prefix(ts: Seq<SpecTerm>, n: nat)
    requires
        n <= ts.len(),
        all_types_prefix(ts, n),
    ensures
        frame_prefix(ts, n) == 0,
    decreases ts, n,
{
    if n > 0 {
        lemma_types_have_no_frame_prefix(ts, (n - 1) as nat);
        lemma_types_have_no_frame(ts[n - 1]);
    }
}

/// A type that is made of types alone, however deep, is cut down to the
/// budget.
pub proof fn lemma_cut_type_fits(t: SpecTerm, budget: usize, next: nat)
    requires
        1 <= budget < usize::MAX,
        all_types(t),
    ensures
        size(cut(t, budget, next).0) <= budget,
{
    lemma_cut_fits(t, budget, next);
    lemma_types_have_no_frame(t);
}

/// Lists that agree on their first terms agree on the size of these.
proof fn lemma_size_prefix_agrees(a: Seq<SpecTerm>, b: Seq<SpecTerm>, n: nat)
    requires
        n <= a.len(),
        n <= b.len(),
        forall|i: int| 0 <= i < n ==> a[i] == b[i],
    ensures
        size_prefix(a, n) == size_prefix(b, n),
    decreases n,
{
    if n > 0 {
        lemma_size_prefix_agrees(a, b, (n - 1) as nat);
    }
}

} // verus!
