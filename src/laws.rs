//! Laws that the meaning of sentences obeys.
use vstd::prelude::*;

use crate::semantics::{Prop, Valuation, evaluate, evaluate_all, evaluate_any, leaves, leaves_all};

verus! {

/// The negation of a symbol is the opposite of the symbol's value, and
/// undefined where the symbol has none.
pub proof fn law_negation(a: Seq<char>, m: Valuation)
    ensures
        evaluate(Prop::Neg(Box::new(Prop::Var(a))), m) == if m.contains_key(a) {
            Some(!m[a])
        } else {
            None
        },
{
    assert(evaluate(Prop::Var(a), m) == if m.contains_key(a) {
        Some(m[a])
    } else {
        None
    });
}

/// Where both operands are defined, the two-member conjunction and
/// disjunction, the implication and the biconditional follow the classical
/// truth tables.
pub proof fn law_truth_tables(p: Prop, q: Prop, m: Valuation)
    requires
        evaluate(p, m) is Some,
        evaluate(q, m) is Some,
    ensures
        evaluate(Prop::Conj(seq![p, q]), m) == Some(evaluate(p, m)->0 && evaluate(q, m)->0),
        evaluate(Prop::Disj(seq![p, q]), m) == Some(evaluate(p, m)->0 || evaluate(q, m)->0),
        evaluate(Prop::Cond(Box::new(p), Box::new(q)), m) == Some(!evaluate(p, m)->0 || evaluate(q, m)->0),
        evaluate(Prop::Equiv(Box::new(p), Box::new(q)), m) == Some(evaluate(p, m)->0 == evaluate(q, m)->0),
{
    let pair = seq![p, q];
    let tail = pair.subrange(1, 2);
    let none = tail.subrange(1, 1);
    assert(tail =~= seq![q]);
    assert(none =~= Seq::<Prop>::empty());
    assert(pair[0] == p);
    assert(tail[0] == q);
    assert(evaluate_all(none, m) == Some(true));
    assert(evaluate_any(none, m) == Some(false));
    assert(evaluate_all(tail, m) == evaluate(q, m));
    assert(evaluate_any(tail, m) == evaluate(q, m));
    assert(evaluate(Prop::Conj(pair), m) == evaluate_all(pair, m));
    assert(evaluate(Prop::Disj(pair), m) == evaluate_any(pair, m));
}

/// The empty conjunction is true and the empty disjunction false, under any
/// assignment.
pub proof fn law_empty_connectives(m: Valuation)
    ensures
        evaluate(Prop::Conj(Seq::empty()), m) == Some(true),
        evaluate(Prop::Disj(Seq::empty()), m) == Some(false),
{
    assert(evaluate_all(Seq::empty(), m) == Some(true));
    assert(evaluate_any(Seq::empty(), m) == Some(false));
}

/// A sentence built from symbols with negation, implication and the
/// biconditional alone.
pub open spec fn strict(p: Prop) -> bool
    decreases p,
{
    match p {
        Prop::Var(_) => true,
        Prop::Neg(a) => strict(*a),
        Prop::Conj(_) => false,
        Prop::Disj(_) => false,
        Prop::Cond(a, b) => strict(*a) && strict(*b),
        Prop::Equiv(a, b) => strict(*a) && strict(*b),
    }
}

/// In a sentence without conjunction or disjunction, any symbol without a
/// value makes the whole undefined.
pub proof fn law_unassigned_strict(p: Prop, m: Valuation, i: int)
    requires
        strict(p),
        0 <= i < leaves(p).len(),
        !m.contains_key(leaves(p)[i]),
    ensures
        evaluate(p, m) is None,
    decreases p,
{
    match p {
        Prop::Var(_) => {},
        Prop::Neg(a) => {
            law_unassigned_strict(*a, m, i);
        },
        Prop::Conj(_) => {},
        Prop::Disj(_) => {},
        Prop::Cond(a, b) | Prop::Equiv(a, b) => {
            let la = leaves(*a);
            let lb = leaves(*b);
            assert(leaves(p) == la + lb);
            if i < la.len() {
                assert(leaves(p)[i] == la[i]);
                law_unassigned_strict(*a, m, i);
            } else {
                assert(leaves(p)[i] == lb[i - la.len()]);
                law_unassigned_strict(*b, m, i - la.len());
            }
        },
    }
}

/// Every conjunction and disjunction in the sentence has a member.
pub open spec fn no_empty_lists(p: Prop) -> bool
    decreases p,
{
    match p {
        Prop::Var(_) => true,
        Prop::Neg(a) => no_empty_lists(*a),
        Prop::Conj(cs) => cs.len() > 0 && no_empty_lists_in(cs),
        Prop::Disj(cs) => cs.len() > 0 && no_empty_lists_in(cs),
        Prop::Cond(a, b) => no_empty_lists(*a) && no_empty_lists(*b),
        Prop::Equiv(a, b) => no_empty_lists(*a) && no_empty_lists(*b),
    }
}

/// Every member of `cs` satisfies `no_empty_lists`.
pub open spec fn no_empty_lists_in(cs: Seq<Prop>) -> bool
    decreases cs,
{
    if cs.len() == 0 {
        true
    } else {
        no_empty_lists(cs[0]) && no_empty_lists_in(cs.subrange(1, cs.len() as int))
    }
}

/// Evaluation goes from left to right, so where the leftmost symbol has no
/// value the whole is undefined, provided that no conjunction or
/// disjunction in it is empty.
pub proof fn law_first_unassigned(p: Prop, m: Valuation)
    requires
        no_empty_lists(p),
        !m.contains_key(leaves(p)[0]),
    ensures
        leaves(p).len() > 0,
        evaluate(p, m) is None,
    decreases p,
{
    match p {
        Prop::Var(n) => {
            assert(leaves(p) == seq![n]);
            assert(!m.contains_key(n));
        },
        Prop::Neg(a) => {
            law_first_unassigned(*a, m);
        },
        Prop::Conj(cs) | Prop::Disj(cs) => {
            let rest = cs.subrange(1, cs.len() as int);
            assert(leaves(p) == leaves_all(cs));
            assert(leaves_all(cs) == leaves(cs[0]) + leaves_all(rest));
            assert(no_empty_lists_in(cs));
            assert(no_empty_lists(cs[0]));
            lemma_first_leaf_nonempty(cs[0]);
            assert(leaves(p)[0] == leaves(cs[0])[0]);
            law_first_unassigned(cs[0], m);
            assert(evaluate_all(cs, m) is None);
            assert(evaluate_any(cs, m) is None);
        },
        Prop::Cond(a, b) | Prop::Equiv(a, b) => {
            lemma_first_leaf_nonempty(*a);
            assert(leaves(p) == leaves(*a) + leaves(*b));
            assert(leaves(p)[0] == leaves(*a)[0]);
            law_first_unassigned(*a, m);
        },
    }
}

proof fn lemma_first_leaf_nonempty(p: Prop)
    requires
        no_empty_lists(p),
    ensures
        leaves(p).len() > 0,
    decreases p,
{
    match p {
        Prop::Var(_) => {},
        Prop::Neg(a) => {
            lemma_first_leaf_nonempty(*a);
        },
        Prop::Conj(cs) | Prop::Disj(cs) => {
            let rest = cs.subrange(1, cs.len() as int);
            assert(leaves(p) == leaves_all(cs));
            assert(leaves_all(cs) == leaves(cs[0]) + leaves_all(rest));
            assert(no_empty_lists_in(cs));
            assert(no_empty_lists(cs[0]));
            lemma_first_leaf_nonempty(cs[0]);
        },
        Prop::Cond(a, b) | Prop::Equiv(a, b) => {
            lemma_first_leaf_nonempty(*a);
            assert(leaves(p) == leaves(*a) + leaves(*b));
        },
    }
}

} // verus!
