//! Solutions in words.

use vstd::prelude::*;
use vstd::string::StringExecFns;
use crate::symbol::Head;
use crate::symbol::TypeName;
use crate::term::SpecTerm;
use crate::term::Term;
use crate::term::lemma_view_args;
use crate::term::views;
use crate::slg::SpecSolution;
use crate::solve::Solution;

verus! {

/// The character of a digit.
pub open spec fn digit(d: nat) -> char {
    if d == 0 {
        '0'
    } else if d == 1 {
        '1'
    } else if d == 2 {
        '2'
    } else if d == 3 {
        '3'
    } else if d == 4 {
        '4'
    } else if d == 5 {
        '5'
    } else if d == 6 {
        '6'
    } else if d == 7 {
        '7'
    } else if d == 8 {
        '8'
    } else {
        '9'
    }
}

/// A number in decimal digits.
pub open spec fn decimal(n: nat) -> Seq<char>
    decreases n,
{
    if n < 10 {
        seq![digit(n)]
    } else {
        decimal(n / 10).push(digit(n % 10))
    }
}

/// The text of a digit.
fn digit_text(d: usize) -> (r: &'static str)
    requires
        d < 10,
    ensures
        r@ == seq![digit(d as nat)],
{
    proof {
        reveal_strlit("0");
        reveal_strlit("1");
        reveal_strlit("2");
        reveal_strlit("3");
        reveal_strlit("4");
        reveal_strlit("5");
        reveal_strlit("6");
        reveal_strlit("7");
        reveal_strlit("8");
        reveal_strlit("9");
    }
    let r = if d == 0 {
        "0"
    } else if d == 1 {
        "1"
    } else if d == 2 {
        "2"
    } else if d == 3 {
        "3"
    } else if d == 4 {
        "4"
    } else if d == 5 {
        "5"
    } else if d == 6 {
        "6"
    } else if d == 7 {
        "7"
    } else if d == 8 {
        "8"
    } else {
        "9"
    };
    assert(r@ =~= seq![digit(d as nat)]);
    r
}

/// Appends a number in decimal digits.
pub fn push_decimal(out: &mut String, n: usize)
    ensures
        final(out)@ == old(out)@ + decimal(n as nat),
    decreases n,
{
    if n < 10 {
        out.append(digit_text(n));
    } else {
        push_decimal(out, n / 10);
        out.append(digit_text(n % 10));
        proof {
            assert(out@ =~= old(out)@ + decimal(n as nat));
        }
    }
}

/// The name of a type constructor, with its number where it has one.
pub open spec fn type_name_text(name: TypeName) -> Seq<char> {
    match name {
        TypeName::Adt(id) => "Adt#"@ + decimal(id as nat),
        TypeName::FnDef(id) => "FnDef#"@ + decimal(id as nat),
        TypeName::Closure(id) => "Closure#"@ + decimal(id as nat),
        TypeName::Foreign(id) => "Foreign#"@ + decimal(id as nat),
        TypeName::OpaqueType(id) => "!Opaque#"@ + decimal(id as nat),
        TypeName::AssociatedType(id) => "!Assoc#"@ + decimal(id as nat),
        TypeName::Tuple(n) => "Tuple#"@ + decimal(n as nat),
        TypeName::Scalar(_) => "Scalar"@,
        TypeName::Array => "Array"@,
        TypeName::Slice => "Slice"@,
        TypeName::Raw(_) => "Raw"@,
        TypeName::Ref(_) => "Ref"@,
        TypeName::Str => "Str"@,
        TypeName::Never => "Never"@,
    }
}

/// A symbol in words: a variable by its numbers, a type constructor by
/// its name, and a symbol that no substitution holds as `_`.
pub open spec fn head_text(head: Head) -> Seq<char> {
    match head {
        Head::InferenceVar { kind, var } => "?"@ + decimal(var as nat),
        Head::BoundVar { kind, depth, index } => "^"@ + decimal(depth as nat) + "."@ + decimal(index as nat),
        Head::Placeholder { kind, universe, index } => "!"@ + decimal(universe as nat) + "_"@ + decimal(
            index as nat,
        ),
        Head::Apply(name) => type_name_text(name),
        Head::Alias => "Alias"@,
        Head::Projection(id) => "Projection#"@ + decimal(id as nat),
        Head::OpaqueAlias(id) => "Opaque#"@ + decimal(id as nat),
        Head::ConstValue(v) => decimal(v as nat),
        Head::LifetimeEq => "LifetimeEq"@,
        Head::InEnvironment => "InEnvironment"@,
        Head::List => "List"@,
        _ => "_"@,
    }
}

/// A term in words: its symbol, and its sub-terms in angle brackets.
pub open spec fn text(t: SpecTerm) -> Seq<char>
    decreases t, 0nat,
{
    if t.args.len() == 0 {
        head_text(t.head)
    } else {
        head_text(t.head) + "<"@ + texts(t.args, t.args.len()) + ">"@
    }
}

/// The first `n` terms in words, with commas between them.
pub open spec fn texts(ts: Seq<SpecTerm>, n: nat) -> Seq<char>
    decreases ts, n,
{
    if n == 0 || n > ts.len() {
        Seq::empty()
    } else if n == 1 {
        text(ts[0])
    } else {
        texts(ts, (n - 1) as nat) + ", "@ + text(ts[n - 1])
    }
}

/// The first `n` terms as the values of the variables `?0`, `?1`, ...
pub open spec fn bindings(ts: Seq<SpecTerm>, n: nat) -> Seq<char>
    decreases n,
{
    if n == 0 || n > ts.len() {
        Seq::empty()
    } else if n == 1 {
        "?"@ + decimal(0) + " := "@ + text(ts[0])
    } else {
        bindings(ts, (n - 1) as nat) + ", "@ + "?"@ + decimal((n - 1) as nat) + " := "@ + text(ts[n - 1])
    }
}

/// The sub-terms of the `i`-th part of a substitution with constraints.
pub open spec fn part(value: SpecTerm, i: int) -> Seq<SpecTerm> {
    if value.args.len() == 2 {
        value.args[i].args
    } else {
        Seq::empty()
    }
}

/// A solution in words.
pub open spec fn describe_model(s: SpecSolution) -> Seq<char> {
    match s {
        SpecSolution::Unique(c) => "Unique; substitution ["@ + bindings(part(c.value, 0), part(c.value, 0).len())
            + "], lifetime constraints ["@ + texts(part(c.value, 1), part(c.value, 1).len()) + "]"@,
        SpecSolution::Ambiguous => "Ambiguous; no inference guidance"@,
        SpecSolution::NoSolution => "No possible solution"@,
    }
}

/// Appends the name of a type constructor.
fn push_type_name(out: &mut String, name: &TypeName)
    ensures
        final(out)@ == old(out)@ + type_name_text(*name),
{
    match name {
        TypeName::Adt(id) => {
            out.append("Adt#");
            push_decimal(out, *id as usize);
        },
        TypeName::FnDef(id) => {
            out.append("FnDef#");
            push_decimal(out, *id as usize);
        },
        TypeName::Closure(id) => {
            out.append("Closure#");
            push_decimal(out, *id as usize);
        },
        TypeName::Foreign(id) => {
            out.append("Foreign#");
            push_decimal(out, *id as usize);
        },
        TypeName::OpaqueType(id) => {
            out.append("!Opaque#");
            push_decimal(out, *id as usize);
        },
        TypeName::AssociatedType(id) => {
            out.append("!Assoc#");
            push_decimal(out, *id as usize);
        },
        TypeName::Tuple(n) => {
            out.append("Tuple#");
            push_decimal(out, *n);
        },
        TypeName::Scalar(_) => {
            out.append("Scalar");
        },
        TypeName::Array => {
            out.append("Array");
        },
        TypeName::Slice => {
            out.append("Slice");
        },
        TypeName::Raw(_) => {
            out.append("Raw");
        },
        TypeName::Ref(_) => {
            out.append("Ref");
        },
        TypeName::Str => {
            out.append("Str");
        },
        TypeName::Never => {
            out.append("Never");
        },
    }
    proof {
        assert(out@ =~= old(out)@ + type_name_text(*name));
    }
}

/// Appends a symbol in words.
fn push_head(out: &mut String, head: &Head)
    ensures
        final(out)@ == old(out)@ + head_text(*head),
{
    match head {
        Head::InferenceVar { kind, var } => {
            out.append("?");
            push_decimal(out, *var);
        },
        Head::BoundVar { kind, depth, index } => {
            out.append("^");
            push_decimal(out, *depth as usize);
            out.append(".");
            push_decimal(out, *index);
        },
        Head::Placeholder { kind, universe, index } => {
            out.append("!");
            push_decimal(out, *universe);
            out.append("_");
            push_decimal(out, *index);
        },
        Head::Apply(name) => {
            push_type_name(out, name);
        },
        Head::Alias => {
            out.append("Alias");
        },
        Head::Projection(id) => {
            out.append("Projection#");
            push_decimal(out, *id as usize);
        },
        Head::OpaqueAlias(id) => {
            out.append("Opaque#");
            push_decimal(out, *id as usize);
        },
        Head::ConstValue(v) => {
            push_decimal(out, *v as usize);
        },
        Head::LifetimeEq => {
            out.append("LifetimeEq");
        },
        Head::InEnvironment => {
            out.append("InEnvironment");
        },
        Head::List => {
            out.append("List");
        },
        _ => {
            out.append("_");
        },
    }
    proof {
        assert(out@ =~= old(out)@ + head_text(*head));
    }
}

/// Appends a term in words.
pub fn push_term(out: &mut String, t: &Term)
    ensures
        final(out)@ == old(out)@ + text(t@),
    decreases t,
{
    proof {
        lemma_view_args(*t);
    }
    push_head(out, &t.head);
    if t.args.len() > 0 {
        out.append("<");
        let ghost start = out@;
        let mut i: usize = 0;
        while i < t.args.len()
            invariant
                0 <= i <= t.args.len(),
                t@.args == views(t.args@),
                out@ == start + texts(t@.args, i as nat),
            decreases t.args.len() - i,
        {
            if i > 0 {
                out.append(", ");
            }
            push_term(out, &t.args[i]);
            proof {
                assert(out@ =~= start + texts(t@.args, (i + 1) as nat));
            }
            i += 1;
        }
        out.append(">");
        proof {
            assert(out@ =~= old(out)@ + text(t@));
        }
    }
}

impl Solution {
    /// The solution in words: of a unique solution the value of each
    /// variable and the constraints on lifetimes.
    pub fn describe(&self) -> (r: String)
        ensures
            r@ == describe_model(self@),
    {
        match self {
            Solution::Unique(c) => {
                let mut out = String::from_str("Unique; substitution [");
                proof {
                    lemma_view_args(c.value);
                }
                let well_shaped = c.value.args.len() == 2;
                if well_shaped {
                    let ps = &c.value.args[0];
                    proof {
                        lemma_view_args(*ps);
                    }
                    let ghost start = out@;
                    let mut i: usize = 0;
                    while i < ps.args.len()
                        invariant
                            0 <= i <= ps.args.len(),
                            ps@.args == views(ps.args@),
                            out@ == start + bindings(ps@.args, i as nat),
                        decreases ps.args.len() - i,
                    {
                        if i > 0 {
                            out.append(", ");
                        }
                        out.append("?");
                        push_decimal(&mut out, i);
                        out.append(" := ");
                        push_term(&mut out, &ps.args[i]);
                        proof {
                            assert(out@ =~= start + bindings(ps@.args, (i + 1) as nat));
                        }
                        i += 1;
                    }
                }
                out.append("], lifetime constraints [");
                if well_shaped {
                    let cs = &c.value.args[1];
                    proof {
                        lemma_view_args(*cs);
                    }
                    let ghost start = out@;
                    let mut i: usize = 0;
                    while i < cs.args.len()
                        invariant
                            0 <= i <= cs.args.len(),
                            cs@.args == views(cs.args@),
                            out@ == start + texts(cs@.args, i as nat),
                        decreases cs.args.len() - i,
                    {
                        if i > 0 {
                            out.append(", ");
                        }
                        push_term(&mut out, &cs.args[i]);
                        proof {
                            assert(out@ =~= start + texts(cs@.args, (i + 1) as nat));
                        }
                        i += 1;
                    }
                }
                out.append("]");
                proof {
                    assert(out@ =~= describe_model(self@));
                }
                out
            },
            Solution::Ambiguous => String::from_str("Ambiguous; no inference guidance"),
            Solution::NoSolution => String::from_str("No possible solution"),
        }
    }
}

} // verus!
