//! A resolution engine for type-system queries: does a type satisfy a
//! trait, under given assumptions, and if so, for which values of the
//! variables of the query?
//!
//! Everything that the engine works on is a term: a symbol applied to an
//! ordered list of sub-terms ([`term`], [`symbol`]). Types, lifetimes and
//! constants are terms, and so are atomic facts, goals and clauses. The
//! operations on terms rewrite their leaves ([`fold`]).
//!
//! An inference table ([`infer`]) holds the inference variables of a query
//! with their universes and values. Two terms are unified in it
//! ([`unify`]); a term is brought into canonical form, its universes are
//! renumbered and a goal is inverted ([`canonicalize`]); a term that has
//! grown too large is cut down ([`truncate`]).
//!
//! The search ([`slg`], run by [`solve`]) resolves a goal against the
//! clauses of a program and of the goal's environment ([`context`],
//! [`ex_clause`]) and says whether the goal has one solution, none, or
//! cannot be decided ([`display`] puts it in words).
//!
//! What holds of all this, whatever the program, is proved: of the search
//! in [`tabling`]; of canonical forms in [`round_trip`], [`alpha`] and
//! [`universes`]; of tables in [`wellformed`]; of unification in
//! [`soundness`] and [`completeness`].
//!
//! Programs and goals come as syntax ([`ast`]) and are lowered to terms
//! ([`lowering`]); the items of a lowered program give the clauses that
//! its goals are solved with ([`clauses`]), and none that applies to a
//! goal is left out when the clauses for it are picked ([`candidates`]).

pub mod symbol;
pub mod term;
pub mod fold;
pub mod infer;
pub mod unify;
pub mod canonicalize;
pub mod truncate;
pub mod ex_clause;
pub mod context;
pub mod slg;
pub mod solve;
pub mod display;
pub mod tabling;
pub mod round_trip;
pub mod wellformed;
pub mod soundness;
pub mod completeness;
pub mod universes;
pub mod alpha;
pub mod ast;
pub mod lowering;
pub mod clauses;
pub mod candidates;
