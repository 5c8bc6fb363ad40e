//! Canonical forms: a term with its inference variables replaced by the
//! variables of one outermost binder, numbered by first occurrence.

use vstd::prelude::*;
use crate::symbol::Head;
use crate::symbol::Kind;
use crate::symbol::depth_succ;
use crate::term::SpecTerm;
use crate::term::Term;
use crate::term::collect_leaves;
use crate::term::leaves;
use crate::fold::LeafMap;
use crate::fold::fold;
use crate::fold::fold_term;
use crate::fold::image_of;
use crate::infer::Canonical;
use crate::infer::CanonicalVarKind;
use crate::infer::InferenceTable;
use crate::infer::SpecCanonical;
use crate::infer::SpecTable;
use crate::infer::SpecUCanonical;
use crate::infer::UCanonical;
use crate::infer::normalize;
use crate::unify::sort_of;
use crate::unify::universe_of;
use crate::unify::head_sort;

verus! {

/// What identifies a leaf when leaves are told apart.
#[derive(Clone, Copy, PartialEq, Eq, Structural, Debug)]
pub enum Selector {
    /// Inference variables, by their number.
    Var,
    /// Placeholders, by universe and index.
    Placeholder,
    /// Placeholders, by universe alone.
    Universe,
}

/// The key of a symbol under a selector, if the selector picks it.
pub open spec fn key_of(sel: Selector, head: Head) -> Option<(usize, usize)> {
    match (sel, head) {
        (Selector::Var, Head::InferenceVar { kind, var }) => Some((var, 0usize)),
        (Selector::Placeholder, Head::Placeholder { kind, universe, index }) => Some((universe, index)),
        (Selector::Universe, Head::Placeholder { kind, universe, index }) => Some((universe, 0usize)),
        _ => None,
    }
}

/// The position of the first of the first `n` symbols that has the key.
pub open spec fn position_upto(hs: Seq<Head>, sel: Selector, key: (usize, usize), n: nat) -> Option<int>
    decreases n,
{
    if n == 0 || n > hs.len() {
        None
    } else {
        match position_upto(hs, sel, key, (n - 1) as nat) {
            Some(i) => Some(i),
            None => if key_of(sel, hs[n - 1]) == Some(key) {
                Some(n - 1)
            } else {
                None
            },
        }
    }
}

/// The position of the first symbol that has the key.
pub open spec fn position(hs: Seq<Head>, sel: Selector, key: (usize, usize)) -> Option<int> {
    position_upto(hs, sel, key, hs.len())
}

/// The symbols that the selector picks among the first `n` leaves, each key
/// once, in the order of first occurrence.
pub open spec fn distinct(ls: Seq<(Head, u32)>, sel: Selector, n: nat) -> Seq<Head>
    decreases n,
{
    if n == 0 || n > ls.len() {
        Seq::empty()
    } else {
        let before = distinct(ls, sel, (n - 1) as nat);
        match key_of(sel, ls[n - 1].0) {
            Some(key) => if position(before, sel, key) is None {
                before.push(ls[n - 1].0)
            } else {
                before
            },
            None => before,
        }
    }
}

/// A position that is found is within the list and holds the key.
pub proof fn lemma_position_bounds(hs: Seq<Head>, sel: Selector, key: (usize, usize), n: nat)
    ensures
        match position_upto(hs, sel, key, n) {
            Some(i) => 0 <= i < n && i < hs.len() && key_of(sel, hs[i]) == Some(key),
            None => true,
        },
    decreases n,
{
    if n > 0 && n <= hs.len() {
        lemma_position_bounds(hs, sel, key, (n - 1) as nat);
    }
}

/// A key that is found among the first symbols is found there among more.
proof fn lemma_position_stable(hs: Seq<Head>, sel: Selector, key: (usize, usize), n: nat, m: nat)
    requires
        n <= m <= hs.len(),
        position_upto(hs, sel, key, n) is Some,
    ensures
        position_upto(hs, sel, key, m) == position_upto(hs, sel, key, n),
    decreases m,
{
    if m > n {
        lemma_position_stable(hs, sel, key, n, (m - 1) as nat);
    }
}

/// The key of a symbol under a selector.
pub fn head_key(sel: Selector, head: &Head) -> (r: Option<(usize, usize)>)
    ensures
        r == key_of(sel, *head),
{
    match (sel, head) {
        (Selector::Var, Head::InferenceVar { kind, var }) => Some((*var, 0usize)),
        (Selector::Placeholder, Head::Placeholder { kind, universe, index }) => Some((*universe, *index)),
        (Selector::Universe, Head::Placeholder { kind, universe, index }) => Some((*universe, 0usize)),
        _ => None,
    }
}

/// Whether a key is there and is the given one.
fn same_key(a: Option<(usize, usize)>, b: (usize, usize)) -> (r: bool)
    ensures
        r == (a == Some(b)),
{
    match a {
        Some(k) => k.0 == b.0 && k.1 == b.1,
        None => false,
    }
}

/// The position of the first symbol that has the key.
pub fn find_position(hs: &Vec<Head>, sel: Selector, key: (usize, usize)) -> (r: Option<usize>)
    ensures
        match r {
            Some(i) => position(hs@, sel, key) == Some(i as int),
            None => position(hs@, sel, key) is None,
        },
{
    let mut i: usize = 0;
    while i < hs.len()
        invariant
            0 <= i <= hs.len(),
            position_upto(hs@, sel, key, i as nat) is None,
        decreases hs.len() - i,
    {
        if same_key(head_key(sel, &hs[i]), key) {
            proof {
                assert(position_upto(hs@, sel, key, (i + 1) as nat) == Some(i as int));
                lemma_position_stable(hs@, sel, key, (i + 1) as nat, hs@.len());
            }
            return Some(i);
        }
        i += 1;
    }
    None
}

/// The symbols that the selector picks among the leaves, each key once, in
/// the order of first occurrence.
pub fn collect_distinct(ls: &Vec<(Head, u32)>, sel: Selector) -> (r: Vec<Head>)
    ensures
        r@ == distinct(ls@, sel, ls@.len()),
{
    let mut r: Vec<Head> = Vec::new();
    let mut i: usize = 0;
    while i < ls.len()
        invariant
            0 <= i <= ls.len(),
            r@ == distinct(ls@, sel, i as nat),
        decreases ls.len() - i,
    {
        match head_key(sel, &ls[i].0) {
            Some(key) => {
                if find_position(&r, sel, key).is_none() {
                    r.push(ls[i].0);
                }
            },
            None => {},
        }
        i += 1;
    }
    r
}

/// The sort of a variable symbol; a symbol without a sort counts as a type.
pub open spec fn kind_of(head: Head) -> Kind {
    match sort_of(head) {
        Some(k) => k,
        None => Kind::Ty,
    }
}

/// The sort of a variable symbol.
pub fn head_kind(head: &Head) -> (k: Kind)
    ensures
        k == kind_of(*head),
{
    match head_sort(head) {
        Some(k) => k,
        None => Kind::Ty,
    }
}

/// What abstraction over the inference variables `fv` puts in place of a
/// leaf: the variable of the new outermost binder for each of `fv`, of the
/// sort of its first occurrence, and a bound variable that pointed out of
/// the term moved past the new binder.
pub open spec fn abstract_image(fv: Seq<Head>, head: Head, depth: u32) -> SpecTerm {
    match head {
        Head::InferenceVar { kind, var } => match position(fv, Selector::Var, (var, 0usize)) {
            Some(i) => SpecTerm::atom(Head::BoundVar { kind: kind_of(fv[i]), depth, index: i as usize }),
            None => SpecTerm::atom(head),
        },
        Head::BoundVar { kind, depth: d, index } => if d >= depth {
            SpecTerm::atom(Head::BoundVar { kind, depth: depth_succ(d), index })
        } else {
            SpecTerm::atom(head)
        },
        _ => SpecTerm::atom(head),
    }
}

/// Abstraction as a leaf rewriting.
pub open spec fn abstraction(fv: Seq<Head>) -> spec_fn(Head, u32) -> SpecTerm {
    |head: Head, depth: u32| abstract_image(fv, head, depth)
}

/// The universe of an inference variable; one that the table does not hold
/// counts as of the largest universe.
pub open spec fn var_universe(table: SpecTable, var: usize) -> usize {
    if var < table.vars.len() {
        table.vars[var as int].universe
    } else {
        table.max_universe
    }
}

/// The kind and universe of each of the inference variables `fv`.
pub open spec fn binders_of(table: SpecTable, fv: Seq<Head>) -> Seq<CanonicalVarKind> {
    Seq::new(
        fv.len(),
        |i: int|
            CanonicalVarKind {
                kind: kind_of(fv[i]),
                universe: match fv[i] {
                    Head::InferenceVar { kind, var } => var_universe(table, var),
                    _ => table.max_universe,
                },
            },
    )
}

/// The model of a canonicalized term: the canonical form and the inference
/// variables that its binders stand for.
pub struct SpecCanonicalized {
    pub quantified: SpecCanonical,
    pub free_vars: Seq<Head>,
}

/// The unbound inference variables of the normalized term, in the order of
/// first occurrence.
pub open spec fn free_vars(table: SpecTable, t: SpecTerm) -> Seq<Head> {
    let ls = leaves(normalize(table, t), 0);
    distinct(ls, Selector::Var, ls.len())
}

/// The canonical form of `t` in `table`.
pub open spec fn canonicalize_model(table: SpecTable, t: SpecTerm) -> SpecCanonicalized {
    let fv = free_vars(table, t);
    SpecCanonicalized {
        quantified: SpecCanonical {
            binders: binders_of(table, fv),
            value: fold(normalize(table, t), abstraction(fv), 0),
        },
        free_vars: fv,
    }
}

/// Abstraction over inference variables, as a leaf map.
pub struct Abstraction<'a> {
    pub fv: &'a Vec<Head>,
}

impl<'a> LeafMap for Abstraction<'a> {
    open spec fn image(&self, head: Head, depth: u32) -> SpecTerm {
        abstract_image(self.fv@, head, depth)
    }

    fn apply(&self, head: Head, depth: u32) -> (r: Term) {
        match head {
            Head::InferenceVar { kind, var } => match find_position(self.fv, Selector::Var, (var, 0usize)) {
                Some(i) => {
                    proof {
                        lemma_position_bounds(self.fv@, Selector::Var, (var, 0usize), self.fv@.len());
                    }
                    Term::atom(Head::BoundVar { kind: head_kind(&self.fv[i]), depth, index: i })
                },
                None => Term::atom(head),
            },
            Head::BoundVar { kind, depth: d, index } => {
                if d >= depth {
                    Term::atom(Head::BoundVar { kind, depth: if d < u32::MAX {
                        d + 1
                    } else {
                        d
                    }, index })
                } else {
                    Term::atom(head)
                }
            },
            _ => Term::atom(head),
        }
    }
}

/// A canonicalized term: the canonical form and the inference variables
/// that its binders stand for.
#[derive(Debug)]
pub struct Canonicalized {
    pub quantified: Canonical,
    pub free_vars: Vec<Head>,
}

impl View for Canonicalized {
    type V = SpecCanonicalized;

    open spec fn view(&self) -> SpecCanonicalized {
        SpecCanonicalized { quantified: self.quantified@, free_vars: self.free_vars@ }
    }
}

impl InferenceTable {
    /// The universe of an inference variable.
    pub fn universe_of_var(&self, var: usize) -> (u: usize)
        ensures
            u == var_universe(self@, var),
    {
        if var < self.vars.len() {
            self.vars[var].universe
        } else {
            self.max_universe
        }
    }

    /// The canonical form of `value`: normalized, with each unbound inference
    /// variable replaced by a variable of one new outermost binder.
    pub fn canonicalize(&self, value: &Term) -> (r: Canonicalized)
        ensures
            r@ == canonicalize_model(self@, value@),
    {
        let n = self.normalize_deep(value);
        let mut ls: Vec<(Head, u32)> = Vec::new();
        collect_leaves(&n, 0, &mut ls);
        assert(ls@ =~= leaves(n@, 0));
        let fv = collect_distinct(&ls, Selector::Var);
        let mut binders: Vec<CanonicalVarKind> = Vec::new();
        let mut i: usize = 0;
        while i < fv.len()
            invariant
                0 <= i <= fv.len(),
                binders.len() == i,
                forall|j: int| 0 <= j < i ==> #[trigger] binders@[j] == binders_of(self@, fv@)[j],
            decreases fv.len() - i,
        {
            let kind = head_kind(&fv[i]);
            let universe = match fv[i] {
                Head::InferenceVar { kind, var } => self.universe_of_var(var),
                _ => self.max_universe,
            };
            binders.push(CanonicalVarKind { kind, universe });
            i += 1;
        }
        let f = Abstraction { fv: &fv };
        proof {
            assert(image_of(&f) =~= abstraction(fv@));
            assert(binders@ =~= binders_of(self@, fv@));
        }
        let value = fold_term(&n, &f, 0);
        Canonicalized { quantified: Canonical { binders, value }, free_vars: fv }
    }

    /// The canonical form of a goal in its environment.
    pub fn canonicalize_goal(&self, value: &Term) -> (r: Canonical)
        ensures
            r@ == canonicalize_model(self@, value@).quantified,
    {
        self.canonicalize(value).quantified
    }

    /// The canonical form of a substitution with its constraints.
    pub fn canonicalize_constrained_subst(&self, value: &Term) -> (r: Canonical)
        ensures
            r@ == canonicalize_model(self@, value@).quantified,
    {
        self.canonicalize(value).quantified
    }
}

/// The number of the first `n` symbols that name a placeholder of a
/// universe further out than `u`.
pub open spec fn rank_upto(us: Seq<Head>, u: usize, n: nat) -> nat
    decreases n,
{
    if n == 0 || n > us.len() {
        0
    } else {
        rank_upto(us, u, (n - 1) as nat) + match universe_of(us[n - 1]) {
            Some(v) => if v < u {
                1nat
            } else {
                0nat
            },
            None => 0nat,
        }
    }
}

/// The number of the universes `us` that are further out than `u`: the
/// number that `u` gets when the universes are numbered in order.
pub open spec fn rank(us: Seq<Head>, u: usize) -> usize {
    rank_upto(us, u, us.len()) as usize
}

/// The number of the universes `us` that are further out than `u`.
pub fn universe_rank(us: &Vec<Head>, u: usize) -> (r: usize)
    ensures
        r == rank(us@, u),
{
    let mut r: usize = 0;
    let mut i: usize = 0;
    while i < us.len()
        invariant
            0 <= i <= us.len(),
            r == rank_upto(us@, u, i as nat),
            r <= i,
        decreases us.len() - i,
    {
        match us[i] {
            Head::Placeholder { kind, universe, index } => {
                if universe < u {
                    r += 1;
                }
            },
            _ => {},
        }
        i += 1;
    }
    r
}

/// The placeholder that stands for a universe when universes are collected.
pub open spec fn universe_mark(kind: Kind, universe: usize) -> (Head, u32) {
    (Head::Placeholder { kind, universe, index: 0 }, 0u32)
}

/// The marks of the universes of the binders.
pub open spec fn binder_marks(binders: Seq<CanonicalVarKind>) -> Seq<(Head, u32)> {
    Seq::new(binders.len(), |i: int| universe_mark(binders[i].kind, binders[i].universe))
}

/// The root universe, the universes of the binders and the placeholders of
/// the value: every universe that a canonical value speaks of.
pub open spec fn universe_leaves(c: SpecCanonical) -> Seq<(Head, u32)> {
    seq![universe_mark(Kind::Ty, 0)] + binder_marks(c.binders) + leaves(c.value, 0)
}

/// The universes that a canonical value speaks of, each once.
pub open spec fn universes_of(c: SpecCanonical) -> Seq<Head> {
    distinct(universe_leaves(c), Selector::Universe, universe_leaves(c).len())
}

/// What renumbering of universes puts in place of a leaf.
pub open spec fn renumber_image(us: Seq<Head>, head: Head, depth: u32) -> SpecTerm {
    match head {
        Head::Placeholder { kind, universe, index } => SpecTerm::atom(
            Head::Placeholder { kind, universe: rank(us, universe), index },
        ),
        _ => SpecTerm::atom(head),
    }
}

/// Renumbering of universes as a leaf rewriting.
pub open spec fn renumbering(us: Seq<Head>) -> spec_fn(Head, u32) -> SpecTerm {
    |head: Head, depth: u32| renumber_image(us, head, depth)
}

/// The binders with their universes renumbered.
pub open spec fn renumber_binders(us: Seq<Head>, binders: Seq<CanonicalVarKind>) -> Seq<CanonicalVarKind> {
    Seq::new(
        binders.len(),
        |i: int| CanonicalVarKind { kind: binders[i].kind, universe: rank(us, binders[i].universe) },
    )
}

/// The model of a canonical value with renumbered universes, and the
/// universes that the numbers stand for.
pub struct SpecUCanonicalized {
    pub quantified: SpecUCanonical,
    pub universes: Seq<Head>,
}

/// The canonical value with its universes numbered `0, 1, ..` in their
/// order, the root first.
pub open spec fn u_canonicalize_model(c: SpecCanonical) -> SpecUCanonicalized {
    let us = universes_of(c);
    SpecUCanonicalized {
        quantified: SpecUCanonical {
            canonical: SpecCanonical {
                binders: renumber_binders(us, c.binders),
                value: fold(c.value, renumbering(us), 0),
            },
            universes: us.len() as usize,
        },
        universes: us,
    }
}

/// Renumbering of universes, as a leaf map.
pub struct Renumbering<'a> {
    pub us: &'a Vec<Head>,
}

impl<'a> LeafMap for Renumbering<'a> {
    open spec fn image(&self, head: Head, depth: u32) -> SpecTerm {
        renumber_image(self.us@, head, depth)
    }

    fn apply(&self, head: Head, depth: u32) -> (r: Term) {
        match head {
            Head::Placeholder { kind, universe, index } => Term::atom(
                Head::Placeholder { kind, universe: universe_rank(self.us, universe), index },
            ),
            _ => Term::atom(head),
        }
    }
}

/// A canonical value with renumbered universes, and for each number the
/// placeholder of the universe that it stands for.
#[derive(Debug)]
pub struct UCanonicalized {
    pub quantified: UCanonical,
    pub universes: Vec<Head>,
}

impl View for UCanonicalized {
    type V = SpecUCanonicalized;

    open spec fn view(&self) -> SpecUCanonicalized {
        SpecUCanonicalized { quantified: self.quantified@, universes: self.universes@ }
    }
}

/// The sequence that numbers a placeholder of universe `u` the `p`-th beyond `base`.
pub open spec fn offset_var(base: usize, p: int) -> usize {
    if base + p <= usize::MAX {
        (base + p) as usize
    } else {
        usize::MAX
    }
}

/// What inversion puts in place of a leaf: for each of the placeholders
/// `ps` the inference variable that stands for it.
pub open spec fn invert_image(ps: Seq<Head>, base: usize, head: Head, depth: u32) -> SpecTerm {
    match head {
        Head::Placeholder { kind, universe, index } => match position(
            ps,
            Selector::Placeholder,
            (universe, index),
        ) {
            Some(i) => SpecTerm::atom(Head::InferenceVar { kind, var: offset_var(base, i) }),
            None => SpecTerm::atom(head),
        },
        _ => SpecTerm::atom(head),
    }
}

/// Inversion as a leaf rewriting.
pub open spec fn inversion(ps: Seq<Head>, base: usize) -> spec_fn(Head, u32) -> SpecTerm {
    |head: Head, depth: u32| invert_image(ps, base, head, depth)
}

/// The kind and universe of each of the placeholders `ps`.
pub open spec fn placeholder_binders(ps: Seq<Head>) -> Seq<CanonicalVarKind> {
    Seq::new(
        ps.len(),
        |i: int|
            CanonicalVarKind {
                kind: match sort_of(ps[i]) {
                    Some(k) => k,
                    None => Kind::Ty,
                },
                universe: match universe_of(ps[i]) {
                    Some(u) => u,
                    None => 0,
                },
            },
    )
}

/// The placeholders of the normalized term, each once.
pub open spec fn placeholders(table: SpecTable, t: SpecTerm) -> Seq<Head> {
    let ls = leaves(normalize(table, t), 0);
    distinct(ls, Selector::Placeholder, ls.len())
}

/// The inverse of `t`: none where an unbound inference variable is left in
/// it; otherwise the table with one fresh variable for each placeholder of
/// `t`, in the placeholder's universe, and `t` with these in place of the
/// placeholders.
pub open spec fn invert_model(table: SpecTable, t: SpecTerm) -> Option<(SpecTable, SpecTerm)> {
    if free_vars(table, t).len() > 0 {
        None
    } else {
        let ps = placeholders(table, t);
        Some(
            (
                table.with_variables(placeholder_binders(ps), ps.len()),
                fold(normalize(table, t), inversion(ps, table.vars.len() as usize), 0),
            ),
        )
    }
}

/// Inversion, as a leaf map.
pub struct Inversion<'a> {
    pub ps: &'a Vec<Head>,
    pub base: usize,
}

impl<'a> LeafMap for Inversion<'a> {
    open spec fn image(&self, head: Head, depth: u32) -> SpecTerm {
        invert_image(self.ps@, self.base, head, depth)
    }

    fn apply(&self, head: Head, depth: u32) -> (r: Term) {
        match head {
            Head::Placeholder { kind, universe, index } => match find_position(
                self.ps,
                Selector::Placeholder,
                (universe, index),
            ) {
                Some(i) => Term::atom(Head::InferenceVar { kind, var: self.base.saturating_add(i) }),
                None => Term::atom(head),
            },
            _ => Term::atom(head),
        }
    }
}

impl InferenceTable {
    /// Renumbers the universes of a canonical value in their order.
    pub fn u_canonicalize(&self, value: &Canonical) -> (r: UCanonicalized)
        ensures
            r@ == u_canonicalize_model(value@),
    {
        let mut ls: Vec<(Head, u32)> = Vec::new();
        ls.push((Head::Placeholder { kind: Kind::Ty, universe: 0, index: 0 }, 0));
        let mut i: usize = 0;
        while i < value.binders.len()
            invariant
                0 <= i <= value.binders.len(),
                ls@.len() == 1 + i,
                ls@[0] == universe_mark(Kind::Ty, 0),
                forall|j: int|
                    0 <= j < i ==> #[trigger] ls@[1 + j] == universe_mark(
                        value.binders@[j].kind,
                        value.binders@[j].universe,
                    ),
            decreases value.binders.len() - i,
        {
            let b = value.binders[i];
            ls.push((Head::Placeholder { kind: b.kind, universe: b.universe, index: 0 }, 0));
            i += 1;
        }
        proof {
            let target = seq![universe_mark(Kind::Ty, 0)] + binder_marks(value@.binders);
            assert(ls@.len() == target.len());
            assert forall|k: int| 0 <= k < target.len() implies ls@[k] == target[k] by {
                if k >= 1 {
                    let j = k - 1;
                    assert(ls@[1 + j] == universe_mark(value.binders@[j].kind, value.binders@[j].universe));
                }
            }
            assert(ls@ =~= target);
        }
        collect_leaves(&value.value, 0, &mut ls);
        assert(ls@ =~= universe_leaves(value@));
        let us = collect_distinct(&ls, Selector::Universe);
        let mut binders: Vec<CanonicalVarKind> = Vec::new();
        let mut i: usize = 0;
        while i < value.binders.len()
            invariant
                0 <= i <= value.binders.len(),
                binders.len() == i,
                forall|j: int|
                    0 <= j < i ==> #[trigger] binders@[j] == renumber_binders(us@, value@.binders)[j],
            decreases value.binders.len() - i,
        {
            let b = value.binders[i];
            binders.push(CanonicalVarKind { kind: b.kind, universe: universe_rank(&us, b.universe) });
            i += 1;
        }
        let f = Renumbering { us: &us };
        proof {
            assert(image_of(&f) =~= renumbering(us@));
            assert(binders@ =~= renumber_binders(us@, value@.binders));
        }
        let term = fold_term(&value.value, &f, 0);
        let universes = us.len();
        UCanonicalized {
            quantified: UCanonical { canonical: Canonical { binders, value: term }, universes },
            universes: us,
        }
    }

    /// Renumbers the universes of a canonical goal in their order.
    pub fn u_canonicalize_goal(&self, value: &Canonical) -> (r: UCanonicalized)
        ensures
            r@ == u_canonicalize_model(value@),
    {
        self.u_canonicalize(value)
    }

    /// Inverts `value` for a proof by negation: every placeholder becomes a
    /// fresh inference variable of its universe. Nothing is returned, and
    /// the table is left as it was, where an unbound inference variable
    /// occurs in `value`.
    pub fn invert(&mut self, value: &Term) -> (r: Option<Term>)
        ensures
            match invert_model(old(self)@, value@) {
                Some((table, t)) => r is Some && r->0@ == t && final(self)@ == table,
                None => r is None && final(self)@ == old(self)@,
            },
            crate::wellformed::table_wf(old(self)@) ==> crate::wellformed::table_wf(final(self)@),
    {
        let n = self.normalize_deep(value);
        let mut ls: Vec<(Head, u32)> = Vec::new();
        collect_leaves(&n, 0, &mut ls);
        assert(ls@ =~= leaves(n@, 0));
        let fv = collect_distinct(&ls, Selector::Var);
        if fv.len() > 0 {
            return None;
        }
        let ps = collect_distinct(&ls, Selector::Placeholder);
        let mut binders: Vec<CanonicalVarKind> = Vec::new();
        let mut i: usize = 0;
        while i < ps.len()
            invariant
                0 <= i <= ps.len(),
                binders.len() == i,
                forall|j: int| 0 <= j < i ==> #[trigger] binders@[j] == placeholder_binders(ps@)[j],
            decreases ps.len() - i,
        {
            let kind = match head_sort(&ps[i]) {
                Some(k) => k,
                None => Kind::Ty,
            };
            let universe = match ps[i] {
                Head::Placeholder { kind, universe, index } => universe,
                _ => 0,
            };
            binders.push(CanonicalVarKind { kind, universe });
            i += 1;
        }
        proof {
            assert(binders@ =~= placeholder_binders(ps@));
        }
        let base = self.vars.len();
        let _ = self.fresh_subst(&binders);
        let f = Inversion { ps: &ps, base };
        proof {
            assert(image_of(&f) =~= inversion(ps@, base));
        }
        Some(fold_term(&n, &f, 0))
    }

    /// Inverts a goal in its environment for a proof by negation.
    pub fn invert_goal(&mut self, value: &Term) -> (r: Option<Term>)
        ensures
            match invert_model(old(self)@, value@) {
                Some((table, t)) => r is Some && r->0@ == t && final(self)@ == table,
                None => r is None && final(self)@ == old(self)@,
            },
            crate::wellformed::table_wf(old(self)@) ==> crate::wellformed::table_wf(final(self)@),
    {
        self.invert(value)
    }
}

} // verus!
