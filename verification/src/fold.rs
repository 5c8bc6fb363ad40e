//! Rewriting the leaves of a term while keeping its shape.

use vstd::prelude::*;
use crate::symbol::Head;
use crate::symbol::child_depth;
use crate::symbol::next_depth;
use crate::term::SpecTerm;
use crate::term::Term;
use crate::term::leaves;
use crate::term::leaves_prefix;
use crate::term::lemma_view_args;
use crate::term::views;

verus! {

/// A rewriting of leaves: what stands in place of a variable symbol found
/// under `depth` binders.
pub trait LeafMap {
    spec fn image(&self, head: Head, depth: u32) -> SpecTerm;

    fn apply(&self, head: Head, depth: u32) -> (r: Term)
        ensures
            r@ == self.image(head, depth),
    ;
}

/// The rewriting of a leaf map as a function.
pub open spec fn image_of<F: LeafMap>(f: &F) -> spec_fn(Head, u32) -> SpecTerm {
    |head: Head, depth: u32| f.image(head, depth)
}

/// The term `t`, standing under `depth` binders, with every leaf replaced by
/// its image under `f`.
pub open spec fn fold(t: SpecTerm, f: spec_fn(Head, u32) -> SpecTerm, depth: u32) -> SpecTerm
    decreases t,
{
    if t.is_leaf() {
        f(t.head, depth)
    } else {
        SpecTerm {
            head: t.head,
            args: Seq::new(
                t.args.len(),
                |i: int|
                    if 0 <= i < t.args.len() {
                        fold(t.args[i], f, child_depth(t.head, depth))
                    } else {
                        arbitrary()
                    },
            ),
        }
    }
}

/// A list of terms, each folded.
pub open spec fn fold_all(ts: Seq<SpecTerm>, f: spec_fn(Head, u32) -> SpecTerm, depth: u32) -> Seq<
    SpecTerm,
> {
    Seq::new(ts.len(), |i: int| fold(ts[i], f, depth))
}

/// A folded term that is no leaf keeps its symbol over its folded sub-terms.
pub proof fn lemma_fold_args(t: SpecTerm, f: spec_fn(Head, u32) -> SpecTerm, depth: u32)
    requires
        !t.is_leaf(),
    ensures
        fold(t, f, depth).head == t.head,
        fold(t, f, depth).args == fold_all(t.args, f, child_depth(t.head, depth)),
{
    assert(fold(t, f, depth).args =~= fold_all(t.args, f, child_depth(t.head, depth)));
}

/// Rewrites the leaves of `t` by `f`.
pub fn fold_term<F: LeafMap>(t: &Term, f: &F, depth: u32) -> (r: Term)
    ensures
        r@ == fold(t@, image_of(f), depth),
    decreases t,
{
    proof {
        lemma_view_args(*t);
    }
    if t.is_leaf() {
        return f.apply(t.head, depth);
    }
    let d = next_depth(&t.head, depth);
    let mut args: Vec<Term> = Vec::new();
    let mut i: usize = 0;
    while i < t.args.len()
        invariant
            0 <= i <= t.args.len(),
            args.len() == i,
            t@.args == views(t.args@),
            d == child_depth(t.head, depth),
            forall|j: int| 0 <= j < i ==> (#[trigger] args@[j])@ == fold(t@.args[j], image_of(f), d),
        decreases t.args.len() - i,
    {
        let a = fold_term(&t.args[i], f, d);
        args.push(a);
        i += 1;
    }
    let r = Term::new(t.head, args);
    proof {
        lemma_fold_args(t@, image_of(f), depth);
        assert(r@.args =~= fold(t@, image_of(f), depth).args);
    }
    r
}

/// A copy of a term.
pub fn clone_term(t: &Term) -> (r: Term)
    ensures
        r@ == t@,
    decreases t,
{
    proof {
        lemma_view_args(*t);
    }
    let mut args: Vec<Term> = Vec::new();
    let mut i: usize = 0;
    while i < t.args.len()
        invariant
            0 <= i <= t.args.len(),
            args.len() == i,
            t@.args == views(t.args@),
            forall|j: int| 0 <= j < i ==> (#[trigger] args@[j])@ == t@.args[j],
        decreases t.args.len() - i,
    {
        let a = clone_term(&t.args[i]);
        args.push(a);
        i += 1;
    }
    let r = Term::new(t.head, args);
    proof {
        assert(r@.args =~= t@.args);
    }
    r
}

/// A copy of a list of terms.
pub fn clone_terms(ts: &Vec<Term>) -> (r: Vec<Term>)
    ensures
        views(r@) == views(ts@),
        r@.len() == ts@.len(),
        forall|j: int| 0 <= j < ts@.len() ==> (#[trigger] r@[j])@ == ts@[j]@,
{
    let mut r: Vec<Term> = Vec::new();
    let mut i: usize = 0;
    while i < ts.len()
        invariant
            0 <= i <= ts.len(),
            r.len() == i,
            forall|j: int| 0 <= j < i ==> (#[trigger] r@[j])@ == ts@[j]@,
        decreases ts.len() - i,
    {
        r.push(clone_term(&ts[i]));
        i += 1;
    }
    proof {
        assert(views(r@) =~= views(ts@));
    }
    r
}

/// One leaf rewriting after another, as one.
pub open spec fn compose(f: spec_fn(Head, u32) -> SpecTerm, g: spec_fn(Head, u32) -> SpecTerm) -> spec_fn(
    Head,
    u32,
) -> SpecTerm {
    |head: Head, depth: u32| fold(f(head, depth), g, depth)
}

/// Folding twice is folding once by the composed rewriting.
pub proof fn lemma_fold_compose(
    t: SpecTerm,
    f: spec_fn(Head, u32) -> SpecTerm,
    g: spec_fn(Head, u32) -> SpecTerm,
    depth: u32,
)
    ensures
        fold(fold(t, f, depth), g, depth) == fold(t, compose(f, g), depth),
    decreases t,
{
    if !t.is_leaf() {
        let cd = child_depth(t.head, depth);
        let u = fold(t, f, depth);
        lemma_fold_args(t, f, depth);
        assert(!u.is_leaf());
        lemma_fold_args(u, g, depth);
        lemma_fold_args(t, compose(f, g), depth);
        assert forall|i: int| 0 <= i < t.args.len() implies fold(u.args[i], g, cd) == fold(
            t.args[i],
            compose(f, g),
            cd,
        ) by {
            lemma_fold_compose(t.args[i], f, g, cd);
        }
        assert(fold(u, g, depth).args =~= fold(t, compose(f, g), depth).args);
    }
}

/// An element of either part is an element of the whole, and none else is.
pub proof fn lemma_contains_concat<A>(a: Seq<A>, b: Seq<A>, x: A)
    ensures
        (a + b).contains(x) <==> a.contains(x) || b.contains(x),
{
    if a.contains(x) {
        let i = choose|i: int| 0 <= i < a.len() && a[i] == x;
        assert((a + b)[i] == x);
    }
    if b.contains(x) {
        let i = choose|i: int| 0 <= i < b.len() && b[i] == x;
        assert((a + b)[a.len() + i] == x);
    }
    if (a + b).contains(x) {
        let i = choose|i: int| 0 <= i < (a + b).len() && (a + b)[i] == x;
        if i < a.len() {
            assert(a[i] == x);
        } else {
            assert(b[i - a.len()] == x);
        }
    }
}

/// The leaves of a sub-term are leaves of the list it stands in.
pub proof fn lemma_leaves_prefix_contains(ts: Seq<SpecTerm>, n: nat, depth: u32, i: int, x: (Head, u32))
    requires
        0 <= i < n <= ts.len(),
        leaves(ts[i], depth).contains(x),
    ensures
        leaves_prefix(ts, n, depth).contains(x),
    decreases n,
{
    lemma_contains_concat(leaves_prefix(ts, (n - 1) as nat, depth), leaves(ts[n - 1], depth), x);
    if i < n - 1 {
        lemma_leaves_prefix_contains(ts, (n - 1) as nat, depth, i, x);
    }
}

/// Two rewritings that agree on the leaves of a term fold it alike.
pub proof fn lemma_fold_ext(
    t: SpecTerm,
    f: spec_fn(Head, u32) -> SpecTerm,
    g: spec_fn(Head, u32) -> SpecTerm,
    depth: u32,
)
    requires
        forall|h: Head, d: u32| #[trigger] leaves(t, depth).contains((h, d)) ==> f(h, d) == g(h, d),
    ensures
        fold(t, f, depth) == fold(t, g, depth),
    decreases t,
{
    if t.is_leaf() {
        assert(leaves(t, depth)[0] == (t.head, depth));
        assert(leaves(t, depth).contains((t.head, depth)));
    } else {
        let cd = child_depth(t.head, depth);
        lemma_fold_args(t, f, depth);
        lemma_fold_args(t, g, depth);
        assert forall|i: int| 0 <= i < t.args.len() implies fold(t.args[i], f, cd) == fold(t.args[i], g, cd) by {
            assert forall|h: Head, d: u32| #[trigger]
                leaves(t.args[i], cd).contains((h, d)) implies f(h, d) == g(h, d) by {
                lemma_leaves_prefix_contains(t.args, t.args.len(), cd, i, (h, d));
                assert(leaves(t, depth).contains((h, d)));
            }
            lemma_fold_ext(t.args[i], f, g, cd);
        }
        assert(fold(t, f, depth).args =~= fold(t, g, depth).args);
    }
}

/// The leaves with each symbol replaced by the symbol of its image.
pub open spec fn map_leaves(ls: Seq<(Head, u32)>, m: spec_fn(Head, u32) -> SpecTerm) -> Seq<(Head, u32)> {
    Seq::new(ls.len(), |i: int| (m(ls[i].0, ls[i].1).head, ls[i].1))
}

/// A rewriting that puts a leaf in place of every leaf keeps the leaves in
/// their places.
pub proof fn lemma_leaves_of_fold(t: SpecTerm, m: spec_fn(Head, u32) -> SpecTerm, depth: u32)
    requires
        forall|h: Head, d: u32| #[trigger] leaves(t, depth).contains((h, d)) ==> m(h, d).is_leaf(),
    ensures
        leaves(fold(t, m, depth), depth) == map_leaves(leaves(t, depth), m),
    decreases t, 0nat,
{
    if t.is_leaf() {
        assert(leaves(t, depth)[0] == (t.head, depth));
        assert(leaves(t, depth).contains((t.head, depth)));
        assert(leaves(fold(t, m, depth), depth) =~= map_leaves(leaves(t, depth), m));
    } else {
        let cd = child_depth(t.head, depth);
        lemma_fold_args(t, m, depth);
        assert forall|h: Head, d: u32| #[trigger]
            leaves_prefix(t.args, t.args.len(), cd).contains((h, d)) implies m(h, d).is_leaf() by {
            assert(leaves(t, depth).contains((h, d)));
        }
        lemma_leaves_of_fold_prefix(t.args, t.args.len(), m, cd);
    }
}

/// A rewriting of leaves into leaves keeps the leaves of a list of terms in their places.
proof fn lemma_leaves_of_fold_prefix(ts: Seq<SpecTerm>, n: nat, m: spec_fn(Head, u32) -> SpecTerm, depth: u32)
    requires
        n <= ts.len(),
        forall|h: Head, d: u32| #[trigger] leaves_prefix(ts, n, depth).contains((h, d)) ==> m(h, d).is_leaf(),
    ensures
        leaves_prefix(fold_all(ts, m, depth), n, depth) == map_leaves(leaves_prefix(ts, n, depth), m),
    decreases ts, n,
{
    if n == 0 {
        assert(leaves_prefix(fold_all(ts, m, depth), n, depth) =~= map_leaves(leaves_prefix(ts, n, depth), m));
    } else {
        let before = leaves_prefix(ts, (n - 1) as nat, depth);
        let last = leaves(ts[n - 1], depth);
        assert(leaves_prefix(ts, n, depth) == before + last);
        assert forall|h: Head, d: u32| #[trigger] before.contains((h, d)) implies m(h, d).is_leaf() by {
            lemma_contains_concat(before, last, (h, d));
            assert(leaves_prefix(ts, n, depth).contains((h, d)));
        }
        assert forall|h: Head, d: u32| #[trigger] last.contains((h, d)) implies m(h, d).is_leaf() by {
            lemma_contains_concat(before, last, (h, d));
            assert(leaves_prefix(ts, n, depth).contains((h, d)));
        }
        lemma_leaves_of_fold_prefix(ts, (n - 1) as nat, m, depth);
        lemma_leaves_of_fold(ts[n - 1], m, depth);
        assert(fold_all(ts, m, depth)[n - 1] == fold(ts[n - 1], m, depth));
        assert(map_leaves(before + last, m) =~= map_leaves(before, m) + map_leaves(last, m));
    }
}

/// A term that stands deeper has the same leaves, each at least as deep.
pub proof fn lemma_leaves_deeper(t: SpecTerm, d1: u32, d2: u32)
    requires
        d1 <= d2,
    ensures
        leaves(t, d2).len() == leaves(t, d1).len(),
        forall|i: int|
            0 <= i < leaves(t, d1).len() ==> (#[trigger] leaves(t, d2)[i]).0 == leaves(t, d1)[i].0 && leaves(
                t,
                d2,
            )[i].1 >= leaves(t, d1)[i].1,
    decreases t, 0nat,
{
    if !t.is_leaf() {
        lemma_leaves_prefix_deeper(t.args, t.args.len(), child_depth(t.head, d1), child_depth(t.head, d2));
    }
}

/// A list of terms that stands deeper has the same leaves, each at least as deep.
proof fn lemma_leaves_prefix_deeper(ts: Seq<SpecTerm>, n: nat, d1: u32, d2: u32)
    requires
        d1 <= d2,
    ensures
        leaves_prefix(ts, n, d2).len() == leaves_prefix(ts, n, d1).len(),
        forall|i: int|
            0 <= i < leaves_prefix(ts, n, d1).len() ==> (#[trigger] leaves_prefix(ts, n, d2)[i]).0
                == leaves_prefix(ts, n, d1)[i].0 && leaves_prefix(ts, n, d2)[i].1 >= leaves_prefix(ts, n, d1)[i].1,
    decreases ts, n,
{
    if n > 0 && n <= ts.len() {
        lemma_leaves_prefix_deeper(ts, (n - 1) as nat, d1, d2);
        lemma_leaves_deeper(ts[n - 1], d1, d2);
    }
}

/// Every leaf of a folded term is a leaf of the image of a leaf of the term.
pub proof fn lemma_fold_leaves(t: SpecTerm, f: spec_fn(Head, u32) -> SpecTerm, depth: u32, x: (Head, u32))
    requires
        leaves(fold(t, f, depth), depth).contains(x),
    ensures
        exists|h: Head, d: u32| #[trigger] leaves(t, depth).contains((h, d)) && leaves(f(h, d), d).contains(x),
    decreases t, 0nat,
{
    if t.is_leaf() {
        assert(leaves(t, depth)[0] == (t.head, depth));
        assert(leaves(t, depth).contains((t.head, depth)));
    } else {
        let cd = child_depth(t.head, depth);
        lemma_fold_args(t, f, depth);
        lemma_fold_leaves_prefix(t.args, t.args.len(), f, cd, x);
        let (h, d) = choose|h: Head, d: u32| #[trigger]
            leaves_prefix(t.args, t.args.len(), cd).contains((h, d)) && leaves(f(h, d), d).contains(x);
        assert(leaves(t, depth).contains((h, d)));
    }
}

/// Every leaf of a folded list of terms is a leaf of the image of a leaf of the list.
proof fn lemma_fold_leaves_prefix(
    ts: Seq<SpecTerm>,
    n: nat,
    f: spec_fn(Head, u32) -> SpecTerm,
    depth: u32,
    x: (Head, u32),
)
    requires
        n <= ts.len(),
        leaves_prefix(fold_all(ts, f, depth), n, depth).contains(x),
    ensures
        exists|h: Head, d: u32| #[trigger]
            leaves_prefix(ts, n, depth).contains((h, d)) && leaves(f(h, d), d).contains(x),
    decreases ts, n,
{
    if n == 0 {
        assert(leaves_prefix(fold_all(ts, f, depth), n, depth).len() == 0);
    } else {
        let folded = fold_all(ts, f, depth);
        assert(folded[n - 1] == fold(ts[n - 1], f, depth));
        lemma_contains_concat(leaves_prefix(folded, (n - 1) as nat, depth), leaves(folded[n - 1], depth), x);
        let before = leaves_prefix(ts, (n - 1) as nat, depth);
        let last = leaves(ts[n - 1], depth);
        if leaves_prefix(folded, (n - 1) as nat, depth).contains(x) {
            lemma_fold_leaves_prefix(ts, (n - 1) as nat, f, depth, x);
            let (h, d) = choose|h: Head, d: u32| #[trigger] before.contains((h, d)) && leaves(f(h, d), d).contains(x);
            lemma_contains_concat(before, last, (h, d));
            assert(leaves_prefix(ts, n, depth).contains((h, d)));
        } else {
            lemma_fold_leaves(ts[n - 1], f, depth, x);
            let (h, d) = choose|h: Head, d: u32| #[trigger] last.contains((h, d)) && leaves(f(h, d), d).contains(x);
            lemma_contains_concat(before, last, (h, d));
            assert(leaves_prefix(ts, n, depth).contains((h, d)));
        }
    }
}

} // verus!
