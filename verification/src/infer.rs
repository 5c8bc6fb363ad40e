//! The inference table: the inference variables of one query, the universe
//! of each and the terms they are bound to.

use vstd::prelude::*;
use crate::symbol::Head;
use crate::symbol::Kind;
use crate::symbol::VariableKind;
use crate::term::SpecTerm;
use crate::term::Term;
use crate::term::views;
use crate::fold::LeafMap;
use crate::fold::clone_term;
use crate::fold::fold;
use crate::fold::fold_term;
use crate::fold::image_of;

verus! {

/// The model of one inference variable: its universe and, once bound, its value.
pub struct SpecVar {
    pub universe: usize,
    pub value: Option<SpecTerm>,
}

/// The model of an inference table.
pub struct SpecTable {
    pub vars: Seq<SpecVar>,
    pub max_universe: usize,
}

/// One inference variable of a table.
#[derive(Debug)]
pub struct VarData {
    pub universe: usize,
    pub value: Option<Term>,
}

impl View for VarData {
    type V = SpecVar;

    open spec fn view(&self) -> SpecVar {
        SpecVar {
            universe: self.universe,
            value: match self.value {
                Some(t) => Some(t@),
                None => None,
            },
        }
    }
}

/// The inference variables of one query.
#[derive(Debug)]
pub struct InferenceTable {
    pub vars: Vec<VarData>,
    pub max_universe: usize,
}

impl View for InferenceTable {
    type V = SpecTable;

    open spec fn view(&self) -> SpecTable {
        SpecTable { vars: Seq::new(self.vars@.len(), |i: int| self.vars@[i]@), max_universe: self.max_universe }
    }
}

/// A kind of variable together with the universe it lives in.
#[derive(Clone, Copy, PartialEq, Eq, Structural, Debug)]
pub struct CanonicalVarKind {
    pub kind: Kind,
    pub universe: usize,
}

/// The handle of an inference variable.
#[derive(Clone, Copy, PartialEq, Eq, Structural, Debug)]
pub struct InferenceVariable {
    pub index: usize,
}

impl InferenceVariable {
    /// The variable as a term of the given sort.
    pub open spec fn term(self, kind: Kind) -> SpecTerm {
        SpecTerm::atom(Head::InferenceVar { kind, var: self.index })
    }

    /// The variable as a type.
    pub fn to_ty(self) -> (t: Term)
        ensures
            t@ == self.term(Kind::Ty),
    {
        Term::atom(Head::InferenceVar { kind: Kind::Ty, var: self.index })
    }

    /// The variable as a lifetime.
    pub fn to_lifetime(self) -> (t: Term)
        ensures
            t@ == self.term(Kind::Lifetime),
    {
        Term::atom(Head::InferenceVar { kind: Kind::Lifetime, var: self.index })
    }

    /// The variable as a constant.
    pub fn to_const(self) -> (t: Term)
        ensures
            t@ == self.term(Kind::Const),
    {
        Term::atom(Head::InferenceVar { kind: Kind::Const, var: self.index })
    }

    /// The variable as a term of the given sort.
    pub fn to_term(self, kind: Kind) -> (t: Term)
        ensures
            t@ == self.term(kind),
    {
        Term::atom(Head::InferenceVar { kind, var: self.index })
    }
}

impl SpecTable {
    /// Whether `var` is a variable of the table that is bound.
    pub open spec fn is_bound(self, var: usize) -> bool {
        var < self.vars.len() && self.vars[var as int].value is Some
    }

    /// Whether `var` is a variable of the table that is not bound.
    pub open spec fn is_unbound(self, var: usize) -> bool {
        var < self.vars.len() && self.vars[var as int].value is None
    }

    /// The value of a bound variable.
    pub open spec fn value(self, var: usize) -> SpecTerm {
        self.vars[var as int].value->0
    }

    /// The table with one more variable, unbound, in `universe`.
    pub open spec fn with_variable(self, universe: usize) -> SpecTable {
        SpecTable { vars: self.vars.push(SpecVar { universe, value: None }), max_universe: self.max_universe }
    }

    /// The table with one more universe.
    pub open spec fn with_universe(self) -> SpecTable {
        SpecTable { vars: self.vars, max_universe: universe_succ(self.max_universe) }
    }

    /// The table with one fresh variable for each of the first `n` of `binders`.
    pub open spec fn with_variables(self, binders: Seq<CanonicalVarKind>, n: nat) -> SpecTable
        decreases n,
    {
        if n == 0 || n > binders.len() {
            self
        } else {
            self.with_variables(binders, (n - 1) as nat).with_variable(binders[n - 1].universe)
        }
    }

}

/// The universe after `u`; it saturates at the largest universe.
pub open spec fn universe_succ(u: usize) -> usize {
    if u < usize::MAX {
        (u + 1) as usize
    } else {
        u
    }
}

/// What normalization puts in place of a leaf: the value of a bound
/// inference variable, and the leaf itself otherwise.
pub open spec fn resolve_image(table: SpecTable, head: Head, depth: u32) -> SpecTerm {
    match head {
        Head::InferenceVar { kind, var } => if table.is_bound(var) {
            table.value(var)
        } else {
            SpecTerm::atom(head)
        },
        _ => SpecTerm::atom(head),
    }
}

/// Normalization as a leaf rewriting.
pub open spec fn resolve(table: SpecTable) -> spec_fn(Head, u32) -> SpecTerm {
    |head: Head, depth: u32| resolve_image(table, head, depth)
}

/// The term with every bound inference variable replaced by its value.
pub open spec fn normalize(table: SpecTable, t: SpecTerm) -> SpecTerm {
    fold(t, resolve(table), 0)
}

/// What shifting by `by` binders puts in place of a leaf: a bound variable
/// that points out of the term points `by` binders further out.
pub open spec fn shift_image(by: u32, head: Head, depth: u32) -> SpecTerm {
    match head {
        Head::BoundVar { kind, depth: d, index } => if d >= depth {
            SpecTerm::atom(
                Head::BoundVar {
                    kind,
                    depth: if d + by <= u32::MAX {
                        (d + by) as u32
                    } else {
                        u32::MAX
                    },
                    index,
                },
            )
        } else {
            SpecTerm::atom(head)
        },
        _ => SpecTerm::atom(head),
    }
}

/// Shifting as a leaf rewriting.
pub open spec fn shift(by: u32) -> spec_fn(Head, u32) -> SpecTerm {
    |head: Head, depth: u32| shift_image(by, head, depth)
}

/// What instantiation puts in place of a leaf: the parameter for a variable
/// of the opened binder, and a variable bound further out moved one binder in.
pub open spec fn instantiate_image(params: Seq<SpecTerm>, head: Head, depth: u32) -> SpecTerm {
    match head {
        Head::BoundVar { kind, depth: d, index } => if d == depth && index < params.len() {
            params[index as int]
        } else if d > depth {
            SpecTerm::atom(Head::BoundVar { kind, depth: (d - 1) as u32, index })
        } else {
            SpecTerm::atom(head)
        },
        _ => SpecTerm::atom(head),
    }
}

/// Instantiation as a leaf rewriting.
pub open spec fn instantiate(params: Seq<SpecTerm>) -> spec_fn(Head, u32) -> SpecTerm {
    |head: Head, depth: u32| instantiate_image(params, head, depth)
}

/// The term of the first `n` fresh variables of `binders`, numbered from `base`.
pub open spec fn fresh_params(binders: Seq<CanonicalVarKind>, base: nat) -> Seq<SpecTerm> {
    Seq::new(
        binders.len(),
        |i: int| SpecTerm::atom(Head::InferenceVar { kind: binders[i].kind, var: (base + i) as usize }),
    )
}

/// The placeholders of `universe` for the slots of `kinds`.
pub open spec fn placeholder_params(kinds: Seq<VariableKind>, universe: usize) -> Seq<SpecTerm> {
    Seq::new(
        kinds.len(),
        |i: int| SpecTerm::atom(Head::Placeholder { kind: kinds[i].sort(), universe, index: i as usize }),
    )
}

/// The binders that put each of `kinds` in `universe`.
pub open spec fn in_universe(kinds: Seq<VariableKind>, universe: usize) -> Seq<CanonicalVarKind> {
    Seq::new(kinds.len(), |i: int| CanonicalVarKind { kind: kinds[i].sort(), universe })
}

/// Normalization by a table, as a leaf map.
pub struct Resolve<'a> {
    pub table: &'a InferenceTable,
}

impl<'a> LeafMap for Resolve<'a> {
    open spec fn image(&self, head: Head, depth: u32) -> SpecTerm {
        resolve_image(self.table@, head, depth)
    }

    fn apply(&self, head: Head, depth: u32) -> (r: Term) {
        match head {
            Head::InferenceVar { kind, var } => {
                if var < self.table.vars.len() {
                    match &self.table.vars[var].value {
                        Some(t) => clone_term(t),
                        None => Term::atom(head),
                    }
                } else {
                    Term::atom(head)
                }
            },
            _ => Term::atom(head),
        }
    }
}

/// Shifting under more binders, as a leaf map.
pub struct Shift {
    pub by: u32,
}

impl LeafMap for Shift {
    open spec fn image(&self, head: Head, depth: u32) -> SpecTerm {
        shift_image(self.by, head, depth)
    }

    fn apply(&self, head: Head, depth: u32) -> (r: Term) {
        match head {
            Head::BoundVar { kind, depth: d, index } => {
                if d >= depth {
                    Term::atom(Head::BoundVar { kind, depth: d.saturating_add(self.by), index })
                } else {
                    Term::atom(head)
                }
            },
            _ => Term::atom(head),
        }
    }
}

/// Opening a binder with given parameters, as a leaf map.
pub struct Instantiate<'a> {
    pub params: &'a Vec<Term>,
}

impl<'a> LeafMap for Instantiate<'a> {
    open spec fn image(&self, head: Head, depth: u32) -> SpecTerm {
        instantiate_image(views(self.params@), head, depth)
    }

    fn apply(&self, head: Head, depth: u32) -> (r: Term) {
        match head {
            Head::BoundVar { kind, depth: d, index } => {
                if d == depth && index < self.params.len() {
                    clone_term(&self.params[index])
                } else if d > depth {
                    Term::atom(Head::BoundVar { kind, depth: d - 1, index })
                } else {
                    Term::atom(head)
                }
            },
            _ => Term::atom(head),
        }
    }
}

/// The term `t` moved under `by` more binders.
pub fn shifted_in(t: &Term, by: u32) -> (r: Term)
    ensures
        r@ == fold(t@, shift(by), 0),
{
    let f = Shift { by };
    proof {
        assert(image_of(&f) =~= shift(by));
    }
    fold_term(t, &f, 0)
}

/// The body `value` of a binder with its variables replaced by `params`.
pub fn substitute(value: &Term, params: &Vec<Term>) -> (r: Term)
    ensures
        r@ == fold(value@, instantiate(views(params@)), 0),
{
    let f = Instantiate { params };
    proof {
        assert(image_of(&f) =~= instantiate(views(params@)));
    }
    fold_term(value, &f, 0)
}

/// The model of a canonical value.
pub struct SpecCanonical {
    pub binders: Seq<CanonicalVarKind>,
    pub value: SpecTerm,
}

/// A term whose inference variables were replaced by the variables of one
/// outermost binder, with the kind and universe of each.
#[derive(Debug)]
pub struct Canonical {
    pub binders: Vec<CanonicalVarKind>,
    pub value: Term,
}

impl View for Canonical {
    type V = SpecCanonical;

    open spec fn view(&self) -> SpecCanonical {
        SpecCanonical { binders: self.binders@, value: self.value@ }
    }
}

/// The model of a canonical value with its universes renumbered.
pub struct SpecUCanonical {
    pub canonical: SpecCanonical,
    pub universes: usize,
}

/// A canonical value whose universes are numbered `0 .. universes` in order.
#[derive(Debug)]
pub struct UCanonical {
    pub canonical: Canonical,
    pub universes: usize,
}

impl View for UCanonical {
    type V = SpecUCanonical;

    open spec fn view(&self) -> SpecUCanonical {
        SpecUCanonical { canonical: self.canonical@, universes: self.universes }
    }
}

/// The universe that stands for universe `u` of a renumbered value in a table
/// whose largest universe was `base`: the root stays the root, and every other
/// universe lies beyond `base`.
pub open spec fn offset_universe(base: usize, u: usize) -> usize {
    if u == 0 {
        0
    } else if base + u <= usize::MAX {
        (base + u) as usize
    } else {
        usize::MAX
    }
}

/// What moving into fresh universes puts in place of a leaf.
pub open spec fn offset_image(base: usize, head: Head, depth: u32) -> SpecTerm {
    match head {
        Head::Placeholder { kind, universe, index } => SpecTerm::atom(
            Head::Placeholder { kind, universe: offset_universe(base, universe), index },
        ),
        _ => SpecTerm::atom(head),
    }
}

/// Moving into fresh universes as a leaf rewriting.
pub open spec fn offset(base: usize) -> spec_fn(Head, u32) -> SpecTerm {
    |head: Head, depth: u32| offset_image(base, head, depth)
}

/// The binders with each universe moved beyond `base`.
pub open spec fn offset_binders(base: usize, binders: Seq<CanonicalVarKind>) -> Seq<CanonicalVarKind> {
    Seq::new(
        binders.len(),
        |i: int| CanonicalVarKind { kind: binders[i].kind, universe: offset_universe(base, binders[i].universe) },
    )
}

/// The universe that stands for universe `u` beyond `base`.
fn offset_universe_of(base: usize, u: usize) -> (r: usize)
    ensures
        r == offset_universe(base, u),
{
    if u == 0 {
        0
    } else {
        base.saturating_add(u)
    }
}

/// Moving into fresh universes, as a leaf map.
pub struct Offset {
    pub base: usize,
}

impl LeafMap for Offset {
    open spec fn image(&self, head: Head, depth: u32) -> SpecTerm {
        offset_image(self.base, head, depth)
    }

    fn apply(&self, head: Head, depth: u32) -> (r: Term) {
        match head {
            Head::Placeholder { kind, universe, index } => Term::atom(
                Head::Placeholder { kind, universe: offset_universe_of(self.base, universe), index },
            ),
            _ => Term::atom(head),
        }
    }
}

impl InferenceTable {
    /// A table without variables, whose only universe is the root.
    pub fn new() -> (table: InferenceTable)
        ensures
            table@.vars.len() == 0,
            table@.max_universe == 0,
            crate::wellformed::table_wf(table@),
    {
        InferenceTable { vars: Vec::new(), max_universe: 0 }
    }

    /// A copy of the table.
    pub fn clone_table(&self) -> (table: InferenceTable)
        ensures
            table@ == self@,
    {
        let mut vars: Vec<VarData> = Vec::new();
        let mut i: usize = 0;
        while i < self.vars.len()
            invariant
                0 <= i <= self.vars.len(),
                vars.len() == i,
                forall|j: int| 0 <= j < i ==> (#[trigger] vars@[j])@ == self.vars@[j]@,
            decreases self.vars.len() - i,
        {
            let value = match &self.vars[i].value {
                Some(t) => Some(clone_term(t)),
                None => None,
            };
            vars.push(VarData { universe: self.vars[i].universe, value });
            i += 1;
        }
        let table = InferenceTable { vars, max_universe: self.max_universe };
        proof {
            assert(table@.vars =~= self@.vars);
        }
        table
    }

    /// The largest universe of the table.
    pub fn max_universe(&self) -> (u: usize)
        ensures
            u == self@.max_universe,
    {
        self.max_universe
    }

    /// Opens a universe beyond all others and returns it.
    pub fn new_universe(&mut self) -> (u: usize)
        ensures
            final(self)@ == old(self)@.with_universe(),
            u == final(self)@.max_universe,
            crate::wellformed::table_wf(old(self)@) ==> crate::wellformed::table_wf(final(self)@),
    {
        proof {
            if crate::wellformed::table_wf(old(self)@) {
                crate::wellformed::lemma_with_universe_wf(old(self)@);
            }
        }
        if self.max_universe < usize::MAX {
            self.max_universe = self.max_universe + 1;
        }
        proof {
            assert(self@.vars =~= old(self)@.vars);
        }
        self.max_universe
    }

    /// A fresh inference variable of universe `ui`.
    pub fn new_variable(&mut self, ui: usize) -> (v: InferenceVariable)
        ensures
            final(self)@ == old(self)@.with_variable(ui),
            v.index == old(self)@.vars.len(),
            crate::wellformed::table_wf(old(self)@) ==> crate::wellformed::table_wf(final(self)@),
    {
        let index = self.vars.len();
        self.vars.push(VarData { universe: ui, value: None });
        let grown = self.vars.len();
        proof {
            assert(grown == old(self)@.vars.len() + 1);
            if crate::wellformed::table_wf(old(self)@) {
                crate::wellformed::lemma_with_variable_wf(old(self)@, ui);
            }
        }
        proof {
            assert(self@.vars =~= old(self)@.vars.push(SpecVar { universe: ui, value: None }));
        }
        InferenceVariable { index }
    }

    /// One fresh inference variable for each of `binders`, in its universe.
    pub fn fresh_subst(&mut self, binders: &Vec<CanonicalVarKind>) -> (params: Vec<Term>)
        ensures
            final(self)@ == old(self)@.with_variables(binders@, binders@.len()),
            views(params@) == fresh_params(binders@, old(self)@.vars.len()),
            crate::wellformed::table_wf(old(self)@) ==> crate::wellformed::table_wf(final(self)@),
    {
        let mut params: Vec<Term> = Vec::new();
        let mut i: usize = 0;
        while i < binders.len()
            invariant
                0 <= i <= binders.len(),
                params.len() == i,
                self@ == old(self)@.with_variables(binders@, i as nat),
                self@.vars.len() == old(self)@.vars.len() + i,
                crate::wellformed::table_wf(old(self)@) ==> crate::wellformed::table_wf(self@),
                forall|j: int|
                    0 <= j < i ==> (#[trigger] params@[j])@ == SpecTerm::atom(
                        Head::InferenceVar { kind: binders@[j].kind, var: (old(self)@.vars.len() + j) as usize },
                    ),
            decreases binders.len() - i,
        {
            let v = self.new_variable(binders[i].universe);
            params.push(v.to_term(binders[i].kind));
            i += 1;
        }
        proof {
            assert(views(params@) =~= fresh_params(binders@, old(self)@.vars.len()));
        }
        params
    }

    /// The value of `leaf` if it is a bound inference variable, moved under
    /// `binders` binders.
    pub fn normalize_shallow(&self, leaf: &Term, binders: u32) -> (r: Option<Term>)
        ensures
            match leaf@.head {
                Head::InferenceVar { kind, var } => if leaf@.is_leaf() && self@.is_bound(var) {
                    r is Some && r->0@ == fold(self@.value(var), shift(binders), 0)
                } else {
                    r is None
                },
                _ => r is None,
            },
    {
        if !leaf.is_leaf() {
            return None;
        }
        match leaf.head {
            Head::InferenceVar { kind, var } => {
                if var < self.vars.len() {
                    match &self.vars[var].value {
                        Some(t) => Some(shifted_in(t, binders)),
                        None => None,
                    }
                } else {
                    None
                }
            },
            _ => None,
        }
    }

    /// The value of `leaf` if it is a bound inference variable, moved under
    /// `binders` binders.
    pub fn normalize_lifetime(&self, leaf: &Term, binders: u32) -> (r: Option<Term>)
        ensures
            match leaf@.head {
                Head::InferenceVar { kind, var } => if leaf@.is_leaf() && self@.is_bound(var) {
                    r is Some && r->0@ == fold(self@.value(var), shift(binders), 0)
                } else {
                    r is None
                },
                _ => r is None,
            },
    {
        self.normalize_shallow(leaf, binders)
    }

    /// The term with every bound inference variable replaced by its value.
    pub fn normalize_deep(&self, value: &Term) -> (r: Term)
        ensures
            r@ == normalize(self@, value@),
    {
        let f = Resolve { table: self };
        proof {
            assert(image_of(&f) =~= resolve(self@));
        }
        fold_term(value, &f, 0)
    }

    /// Opens a binder over `kinds` around `value` with fresh inference
    /// variables of the current universe.
    pub fn instantiate_binders_existentially(&mut self, kinds: &Vec<VariableKind>, value: &Term) -> (r: Term)
        ensures
            final(self)@ == old(self)@.with_variables(
                in_universe(kinds@, old(self)@.max_universe),
                kinds@.len(),
            ),
            r@ == fold(
                value@,
                instantiate(
                    fresh_params(in_universe(kinds@, old(self)@.max_universe), old(self)@.vars.len()),
                ),
                0,
            ),
            crate::wellformed::table_wf(old(self)@) ==> crate::wellformed::table_wf(final(self)@),
    {
        let binders = kinds_in_universe(kinds, self.max_universe);
        let params = self.fresh_subst(&binders);
        substitute(value, &params)
    }

    /// Opens a binder over `kinds` around `value` with the placeholders of a
    /// new universe.
    pub fn instantiate_binders_universally(&mut self, kinds: &Vec<VariableKind>, value: &Term) -> (r: Term)
        ensures
            final(self)@ == old(self)@.with_universe(),
            r@ == fold(
                value@,
                instantiate(placeholder_params(kinds@, universe_succ(old(self)@.max_universe))),
                0,
            ),
            crate::wellformed::table_wf(old(self)@) ==> crate::wellformed::table_wf(final(self)@),
    {
        let universe = self.new_universe();
        let mut params: Vec<Term> = Vec::new();
        let mut i: usize = 0;
        while i < kinds.len()
            invariant
                0 <= i <= kinds.len(),
                params.len() == i,
                forall|j: int|
                    0 <= j < i ==> (#[trigger] params@[j])@ == SpecTerm::atom(
                        Head::Placeholder { kind: kinds@[j].sort(), universe, index: j as usize },
                    ),
            decreases kinds.len() - i,
        {
            params.push(Term::atom(Head::Placeholder { kind: kinds[i].kind(), universe, index: i }));
            i += 1;
        }
        proof {
            assert(views(params@) =~= placeholder_params(kinds@, universe));
        }
        substitute(value, &params)
    }

    /// Opens a canonical value with one fresh inference variable for each of
    /// its binders.
    pub fn instantiate_canonical(&mut self, bound: &Canonical) -> (r: Term)
        ensures
            final(self)@ == old(self)@.with_variables(bound@.binders, bound@.binders.len()),
            r@ == fold(bound@.value, instantiate(fresh_params(bound@.binders, old(self)@.vars.len())), 0),
            crate::wellformed::table_wf(old(self)@) ==> crate::wellformed::table_wf(final(self)@),
    {
        let params = self.fresh_subst(&bound.binders);
        substitute(&bound.value, &params)
    }

    /// Moves a renumbered canonical value into universes of this table that
    /// no other value uses: the root stays, universe `u` becomes the `u`-th
    /// beyond the largest so far.
    pub fn instantiate_universes(&mut self, value: &UCanonical) -> (r: Canonical)
        requires
            value.universes >= 1,
        ensures
            final(self)@.vars == old(self)@.vars,
            final(self)@.max_universe == if value.universes > 1 {
                offset_universe(old(self)@.max_universe, (value.universes - 1) as usize)
            } else {
                old(self)@.max_universe
            },
            r@.value == fold(value@.canonical.value, offset(old(self)@.max_universe), 0),
            r@.binders == offset_binders(old(self)@.max_universe, value@.canonical.binders),
            crate::wellformed::table_wf(old(self)@) ==> crate::wellformed::table_wf(final(self)@),
    {
        let base = self.max_universe;
        let f = Offset { base };
        proof {
            assert(image_of(&f) =~= offset(base));
        }
        let term = fold_term(&value.canonical.value, &f, 0);
        let mut binders: Vec<CanonicalVarKind> = Vec::new();
        let mut i: usize = 0;
        while i < value.canonical.binders.len()
            invariant
                0 <= i <= value.canonical.binders.len(),
                binders.len() == i,
                forall|j: int|
                    0 <= j < i ==> #[trigger] binders@[j] == (CanonicalVarKind {
                        kind: value.canonical.binders@[j].kind,
                        universe: offset_universe(base, value.canonical.binders@[j].universe),
                    }),
            decreases value.canonical.binders.len() - i,
        {
            let b = value.canonical.binders[i];
            binders.push(CanonicalVarKind { kind: b.kind, universe: offset_universe_of(base, b.universe) });
            i += 1;
        }
        if value.universes > 1 {
            self.max_universe = offset_universe_of(base, value.universes - 1);
        }
        proof {
            assert(binders@ =~= offset_binders(base, value@.canonical.binders));
            assert(self@.vars =~= old(self)@.vars);
            if crate::wellformed::table_wf(old(self)@) {
                crate::wellformed::lemma_wf_ignores_universes(old(self)@, self@);
            }
        }
        Canonical { binders, value: term }
    }
}

/// The binders that put each of `kinds` in `universe`.
pub fn kinds_in_universe(kinds: &Vec<VariableKind>, universe: usize) -> (r: Vec<CanonicalVarKind>)
    ensures
        r@ == in_universe(kinds@, universe),
{
    let mut r: Vec<CanonicalVarKind> = Vec::new();
    let mut i: usize = 0;
    while i < kinds.len()
        invariant
            0 <= i <= kinds.len(),
            r.len() == i,
            forall|j: int|
                0 <= j < i ==> #[trigger] r@[j] == (CanonicalVarKind { kind: kinds@[j].sort(), universe }),
        decreases kinds.len() - i,
    {
        r.push(CanonicalVarKind { kind: kinds[i].kind(), universe });
        i += 1;
    }
    proof {
        assert(r@ =~= in_universe(kinds@, universe));
    }
    r
}

} // verus!
