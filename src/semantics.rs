//! The mathematical model of sentences and of their meaning.
use vstd::prelude::*;

verus! {

/// A sentence as a mathematical object: symbols are identified by their names.
pub enum Prop {
    Var(Seq<char>),
    Neg(Box<Prop>),
    Conj(Seq<Prop>),
    Disj(Seq<Prop>),
    Cond(Box<Prop>, Box<Prop>),
    Equiv(Box<Prop>, Box<Prop>),
}

/// A partial truth assignment, by symbol name.
pub type Valuation = Map<Seq<char>, bool>;

/// Three-valued meaning of a sentence: `None` stands for "undefined".
///
/// Negation, implication and the biconditional are undefined as soon as an
/// operand is. A conjunction looks at its members from left to right: the
/// first `false` makes it `false`, the first undefined member makes it
/// undefined, and it is `true` when every member is `true`. A disjunction is
/// the mirror image.
pub open spec fn evaluate(p: Prop, m: Valuation) -> Option<bool>
    decreases p,
{
    match p {
        Prop::Var(n) => if m.contains_key(n) {
            Some(m[n])
        } else {
            None
        },
        Prop::Neg(a) => match evaluate(*a, m) {
            Some(v) => Some(!v),
            None => None,
        },
        Prop::Conj(cs) => evaluate_all(cs, m),
        Prop::Disj(cs) => evaluate_any(cs, m),
        Prop::Cond(a, b) => match (evaluate(*a, m), evaluate(*b, m)) {
            (Some(x), Some(y)) => Some(!x || y),
            _ => None,
        },
        Prop::Equiv(a, b) => match (evaluate(*a, m), evaluate(*b, m)) {
            (Some(x), Some(y)) => Some(x == y),
            _ => None,
        },
    }
}

/// Left-to-right conjunction of the members of `cs`.
pub open spec fn evaluate_all(cs: Seq<Prop>, m: Valuation) -> Option<bool>
    decreases cs,
{
    if cs.len() == 0 {
        Some(true)
    } else {
        match evaluate(cs[0], m) {
            Some(true) => evaluate_all(cs.subrange(1, cs.len() as int), m),
            other => other,
        }
    }
}

/// Left-to-right disjunction of the members of `cs`.
pub open spec fn evaluate_any(cs: Seq<Prop>, m: Valuation) -> Option<bool>
    decreases cs,
{
    if cs.len() == 0 {
        Some(false)
    } else {
        match evaluate(cs[0], m) {
            Some(false) => evaluate_any(cs.subrange(1, cs.len() as int), m),
            other => other,
        }
    }
}

/// The names of the symbols of a sentence, from left to right, one entry per
/// occurrence.
pub open spec fn leaves(p: Prop) -> Seq<Seq<char>>
    decreases p,
{
    match p {
        Prop::Var(n) => seq![n],
        Prop::Neg(a) => leaves(*a),
        Prop::Conj(cs) => leaves_all(cs),
        Prop::Disj(cs) => leaves_all(cs),
        Prop::Cond(a, b) => leaves(*a) + leaves(*b),
        Prop::Equiv(a, b) => leaves(*a) + leaves(*b),
    }
}

/// The leaves of each member of `cs`, one member after the other.
pub open spec fn leaves_all(cs: Seq<Prop>) -> Seq<Seq<char>>
    decreases cs,
{
    if cs.len() == 0 {
        Seq::empty()
    } else {
        leaves(cs[0]) + leaves_all(cs.subrange(1, cs.len() as int))
    }
}

} // verus!

verus! {

/// The text of a sentence: a symbol is its name, `~a` is a negation, and
/// `(a & b)`, `(a | b)`, `(a => b)`, `(a <=> b)` are the binary forms. An
/// empty conjunction reads `true`, an empty disjunction `false`.
pub open spec fn render(p: Prop) -> Seq<char>
    decreases p,
{
    match p {
        Prop::Var(n) => n,
        Prop::Neg(a) => "~"@ + render(*a),
        Prop::Conj(cs) => if cs.len() == 0 {
            "true"@
        } else {
            "("@ + render_list(cs, " & "@) + ")"@
        },
        Prop::Disj(cs) => if cs.len() == 0 {
            "false"@
        } else {
            "("@ + render_list(cs, " | "@) + ")"@
        },
        Prop::Cond(a, b) => "("@ + render(*a) + " => "@ + render(*b) + ")"@,
        Prop::Equiv(a, b) => "("@ + render(*a) + " <=> "@ + render(*b) + ")"@,
    }
}

/// The texts of the members of `cs`, with `sep` between each two.
pub open spec fn render_list(cs: Seq<Prop>, sep: Seq<char>) -> Seq<char>
    decreases cs,
{
    if cs.len() == 0 {
        Seq::empty()
    } else if cs.len() == 1 {
        render(cs[0])
    } else {
        render_list(cs.subrange(0, cs.len() - 1), sep) + sep + render(cs[cs.len() - 1])
    }
}

} // verus!
