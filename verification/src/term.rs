//! Terms: a symbol applied to an ordered list of sub-terms.

use vstd::prelude::*;
use crate::symbol::Head;
use crate::symbol::child_depth;
use crate::symbol::next_depth;

verus! {

/// The mathematical model of a term.
pub struct SpecTerm {
    pub head: Head,
    pub args: Seq<SpecTerm>,
}

/// A term: types, lifetimes, constants, facts, goals and clauses alike.
#[derive(Debug)]
pub struct Term {
    pub head: Head,
    pub args: Vec<Term>,
}

/// The model of a term: the same symbol over the models of its sub-terms.
pub open spec fn model(t: Term) -> SpecTerm
    decreases t,
{
    SpecTerm {
        head: t.head,
        args: Seq::new(
            t.args.len() as nat,
            |i: int|
                if 0 <= i < t.args.len() {
                    model(t.args[i])
                } else {
                    arbitrary()
                },
        ),
    }
}

impl View for Term {
    type V = SpecTerm;

    open spec fn view(&self) -> SpecTerm {
        model(*self)
    }
}

/// The views of a list of terms.
pub open spec fn views(ts: Seq<Term>) -> Seq<SpecTerm> {
    Seq::new(ts.len(), |i: int| ts[i]@)
}

/// The view of a term has the symbol of the term over the views of its sub-terms.
pub proof fn lemma_view_args(t: Term)
    ensures
        t@.head == t.head,
        t@.args == views(t.args@),
{
    assert(t@.args.len() == t.args@.len());
    assert forall|i: int| 0 <= i < t.args@.len() implies #[trigger] t@.args[i] == t.args@[i]@ by {
        assert(t.args[i] == t.args@[i]);
    }
    assert(t@.args =~= views(t.args@));
}

impl SpecTerm {
    /// A leaf is a variable symbol without arguments; folds rewrite leaves only.
    pub open spec fn is_leaf(self) -> bool {
        self.head.is_leaf() && self.args.len() == 0
    }

    /// The term that is the symbol alone.
    pub open spec fn atom(head: Head) -> SpecTerm {
        SpecTerm { head, args: Seq::empty() }
    }
}

impl Term {
    /// The term that is the symbol alone.
    pub fn atom(head: Head) -> (t: Term)
        ensures
            t@ == SpecTerm::atom(head),
    {
        let t = Term { head, args: Vec::new() };
        proof {
            lemma_view_args(t);
            assert(t@.args =~= Seq::empty());
        }
        t
    }

    /// The term with the given symbol and sub-terms.
    pub fn new(head: Head, args: Vec<Term>) -> (t: Term)
        ensures
            t@.head == head,
            t@.args == views(args@),
    {
        let t = Term { head, args };
        proof {
            lemma_view_args(t);
        }
        t
    }

    /// Whether the term is a leaf: a variable symbol without arguments.
    pub fn is_leaf(&self) -> (r: bool)
        ensures
            r == self@.is_leaf(),
    {
        proof {
            lemma_view_args(*self);
        }
        self.head.leaf() && self.args.len() == 0
    }
}

/// The number of nodes of a term.
pub open spec fn size(t: SpecTerm) -> nat
    decreases t, 0nat,
{
    1 + size_prefix(t.args, t.args.len())
}

/// The number of nodes of the first `n` terms of a list.
pub open spec fn size_prefix(ts: Seq<SpecTerm>, n: nat) -> nat
    decreases ts, n,
{
    if n == 0 || n > ts.len() {
        0
    } else {
        size_prefix(ts, (n - 1) as nat) + size(ts[n - 1])
    }
}

/// The leaves of a term from left to right, each with the number of binders above it.
pub open spec fn leaves(t: SpecTerm, depth: u32) -> Seq<(Head, u32)>
    decreases t, 0nat,
{
    if t.is_leaf() {
        seq![(t.head, depth)]
    } else {
        leaves_prefix(t.args, t.args.len(), child_depth(t.head, depth))
    }
}

/// The leaves of the first `n` terms of a list.
pub open spec fn leaves_prefix(ts: Seq<SpecTerm>, n: nat, depth: u32) -> Seq<(Head, u32)>
    decreases ts, n,
{
    if n == 0 || n > ts.len() {
        Seq::empty()
    } else {
        leaves_prefix(ts, (n - 1) as nat, depth) + leaves(ts[n - 1], depth)
    }
}

/// Whether two terms are equal.
pub fn term_eq(a: &Term, b: &Term) -> (r: bool)
    ensures
        r == (a@ == b@),
    decreases a,
{
    proof {
        lemma_view_args(*a);
        lemma_view_args(*b);
    }
    if !(a.head == b.head) {
        return false;
    }
    if a.args.len() != b.args.len() {
        assert(a@.args.len() != b@.args.len());
        return false;
    }
    let mut i: usize = 0;
    while i < a.args.len()
        invariant
            0 <= i <= a.args.len(),
            a.args.len() == b.args.len(),
            forall|j: int| 0 <= j < i ==> a.args@[j]@ == b.args@[j]@,
        decreases a.args.len() - i,
    {
        if !term_eq(&a.args[i], &b.args[i]) {
            proof {
                assert(a@.args[i as int] == a.args@[i as int]@);
                assert(b@.args[i as int] == b.args@[i as int]@);
            }
            return false;
        }
        i += 1;
    }
    proof {
        assert(a@.args =~= b@.args);
    }
    true
}

/// The number of nodes of a term, counted no further than the largest number.
pub open spec fn capped_size(t: SpecTerm) -> usize {
    if size(t) <= usize::MAX {
        size(t) as usize
    } else {
        usize::MAX
    }
}

/// The number of nodes of a term, counted no further than the largest number.
pub fn term_size(t: &Term) -> (n: usize)
    ensures
        n == capped_size(t@),
    decreases t,
{
    proof {
        lemma_view_args(*t);
    }
    let mut n: usize = 1;
    let mut i: usize = 0;
    while i < t.args.len()
        invariant
            0 <= i <= t.args.len(),
            t@.args == views(t.args@),
            n as nat == 1 + size_prefix(t@.args, i as nat) || (n == usize::MAX && 1 + size_prefix(
                t@.args,
                i as nat,
            ) >= usize::MAX),
            i < t.args.len() ==> size_prefix(t@.args, (i + 1) as nat) == size_prefix(t@.args, i as nat) + size(
                t@.args[i as int],
            ),
        decreases t.args.len() - i,
    {
        let k = term_size(&t.args[i]);
        n = n.saturating_add(k);
        i += 1;
    }
    n
}

/// Appends the leaves of `t` to `out`.
pub fn collect_leaves(t: &Term, depth: u32, out: &mut Vec<(Head, u32)>)
    ensures
        final(out)@ == old(out)@ + leaves(t@, depth),
    decreases t,
{
    proof {
        lemma_view_args(*t);
    }
    if t.is_leaf() {
        out.push((t.head, depth));
        proof {
            assert(out@ =~= old(out)@ + leaves(t@, depth));
        }
        return ;
    }
    let d = next_depth(&t.head, depth);
    let mut i: usize = 0;
    while i < t.args.len()
        invariant
            0 <= i <= t.args.len(),
            t@.args == views(t.args@),
            out@ == old(out)@ + leaves_prefix(t@.args, i as nat, d),
        decreases t.args.len() - i,
    {
        let ghost before = out@;
        collect_leaves(&t.args[i], d, out);
        proof {
            assert(out@ =~= old(out)@ + leaves_prefix(t@.args, (i + 1) as nat, d));
        }
        i += 1;
    }
}

} // verus!
