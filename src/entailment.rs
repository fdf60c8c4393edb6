//! Entailment between sentences, decided by trying every assignment of their
//! symbols.
use vstd::prelude::*;

use crate::formula::{Model, Sentence, Symbol};
use crate::semantics::{Prop, Valuation, evaluate, evaluate_all, evaluate_any, leaves, leaves_all};
use crate::utils::{lemma_distinct, lemma_names_concat, names, unique};

verus! {

/// `knowledge` entails `query`: every assignment of exactly their symbols
/// that makes `knowledge` true makes `query` true.
pub open spec fn entails(knowledge: Prop, query: Prop) -> bool {
    forall|m: Valuation|
        m.dom() == (leaves(knowledge) + leaves(query)).to_set() && #[trigger] evaluate(knowledge, m)
            == Some(true) ==> evaluate(query, m) == Some(true)
}

/// `m` is true to `knowledge ==> query`.
pub open spec fn respects(knowledge: Prop, query: Prop, m: Valuation) -> bool {
    evaluate(knowledge, m) == Some(true) ==> evaluate(query, m) == Some(true)
}

/// `wide` gives a value to the names of `m` and of `syms`, and none else,
/// and agrees with `m`.
pub open spec fn extends(wide: Valuation, m: Valuation, syms: Seq<Seq<char>>) -> bool {
    &&& wide.dom() == m.dom() + syms.to_set()
    &&& forall|x: Seq<char>| #[trigger] m.contains_key(x) ==> wide[x] == m[x]
}

/// What the search returns from `m` with the names `syms` still to assign,
/// the last one first.
pub open spec fn search(knowledge: Prop, query: Prop, syms: Seq<Seq<char>>, m: Valuation) -> Option<bool>
    decreases syms.len(),
{
    if syms.len() == 0 {
        match evaluate(knowledge, m) {
            Some(true) => evaluate(query, m),
            Some(false) => Some(true),
            None => None,
        }
    } else {
        let p = syms.last();
        match search(knowledge, query, syms.drop_last(), m.insert(p, true)) {
            Some(left) => match search(knowledge, query, syms.drop_last(), m.insert(p, false)) {
                Some(right) => Some(left && right),
                None => None,
            },
            None => None,
        }
    }
}

/// A sentence whose symbols all have a value has a value.
pub proof fn lemma_defined(p: Prop, m: Valuation)
    requires
        forall|i: int| 0 <= i < leaves(p).len() ==> m.contains_key(#[trigger] leaves(p)[i]),
    ensures
        evaluate(p, m) is Some,
    decreases p,
{
    match p {
        Prop::Var(n) => {
            assert(leaves(p)[0] == n);
        },
        Prop::Neg(a) => {
            assert(leaves(p) == leaves(*a));
            lemma_defined(*a, m);
        },
        Prop::Conj(cs) => {
            assert(leaves(p) == leaves_all(cs));
            lemma_defined_list(cs, m);
        },
        Prop::Disj(cs) => {
            assert(leaves(p) == leaves_all(cs));
            lemma_defined_list(cs, m);
        },
        Prop::Cond(a, b) | Prop::Equiv(a, b) => {
            let la = leaves(*a);
            let lb = leaves(*b);
            assert(leaves(p) == la + lb);
            assert forall|i: int| 0 <= i < la.len() implies m.contains_key(#[trigger] la[i]) by {
                assert((la + lb)[i] == la[i]);
            }
            assert forall|i: int| 0 <= i < lb.len() implies m.contains_key(#[trigger] lb[i]) by {
                assert((la + lb)[la.len() + i] == lb[i]);
            }
            lemma_defined(*a, m);
            lemma_defined(*b, m);
        },
    }
}

/// A list of sentences whose symbols all have a value has a conjunction and
/// a disjunction.
pub proof fn lemma_defined_list(cs: Seq<Prop>, m: Valuation)
    requires
        forall|i: int| 0 <= i < leaves_all(cs).len() ==> m.contains_key(#[trigger] leaves_all(cs)[i]),
    ensures
        evaluate_all(cs, m) is Some,
        evaluate_any(cs, m) is Some,
    decreases cs,
{
    if cs.len() > 0 {
        let rest = cs.subrange(1, cs.len() as int);
        let la = leaves(cs[0]);
        let lb = leaves_all(rest);
        assert(leaves_all(cs) == la + lb);
        assert forall|i: int| 0 <= i < la.len() implies m.contains_key(#[trigger] la[i]) by {
            assert((la + lb)[i] == la[i]);
        }
        assert forall|i: int| 0 <= i < lb.len() implies m.contains_key(#[trigger] lb[i]) by {
            assert((la + lb)[la.len() + i] == lb[i]);
        }
        lemma_defined(cs[0], m);
        lemma_defined_list(rest, m);
    }
}

/// The search from `m` answers whether every extension of `m` over `syms`
/// respects the implication.
proof fn lemma_search(knowledge: Prop, query: Prop, syms: Seq<Seq<char>>, m: Valuation)
    requires
        syms.no_duplicates(),
        forall|x: Seq<char>| #[trigger] syms.contains(x) ==> !m.contains_key(x),
        forall|i: int|
            0 <= i < (leaves(knowledge) + leaves(query)).len() ==> (m.contains_key(
                #[trigger] (leaves(knowledge) + leaves(query))[i],
            ) || syms.contains((leaves(knowledge) + leaves(query))[i])),
    ensures
        search(knowledge, query, syms, m) == Some(
            forall|wide: Valuation| #[trigger] extends(wide, m, syms) ==> respects(knowledge, query, wide),
        ),
    decreases syms.len(),
{
    let all = leaves(knowledge) + leaves(query);
    if syms.len() == 0 {
        assert forall|i: int| 0 <= i < leaves(knowledge).len() implies m.contains_key(
            #[trigger] leaves(knowledge)[i],
        ) by {
            assert(all[i] == leaves(knowledge)[i]);
        }
        assert forall|i: int| 0 <= i < leaves(query).len() implies m.contains_key(
            #[trigger] leaves(query)[i],
        ) by {
            assert(all[leaves(knowledge).len() + i] == leaves(query)[i]);
        }
        lemma_defined(knowledge, m);
        lemma_defined(query, m);
        assert forall|wide: Valuation| #[trigger] extends(wide, m, syms) implies wide == m by {
            assert(wide.dom() =~= m.dom());
            assert(wide =~= m);
        }
        assert(extends(m, m, syms)) by {
            assert(m.dom() + syms.to_set() =~= m.dom());
        }
    } else {
        let p = syms.last();
        let rest = syms.drop_last();
        let mt = m.insert(p, true);
        let mf = m.insert(p, false);
        assert(syms.contains(p)) by {
            assert(syms[syms.len() - 1] == p);
        }
        assert forall|x: Seq<char>| #[trigger] rest.contains(x) implies syms.contains(x) && x != p by {
            let i = choose|i: int| 0 <= i < rest.len() && rest[i] == x;
            assert(syms[i] == x);
        }
        assert forall|x: Seq<char>| #[trigger] syms.contains(x) implies rest.contains(x) || x == p by {
            let i = choose|i: int| 0 <= i < syms.len() && syms[i] == x;
            if i < syms.len() - 1 {
                assert(rest[i] == x);
            }
        }
        assert(syms.to_set() =~= rest.to_set().insert(p));
        lemma_search(knowledge, query, rest, mt);
        lemma_search(knowledge, query, rest, mf);
        let whole = forall|wide: Valuation| #[trigger] extends(wide, m, syms) ==> respects(knowledge, query, wide);
        let on_true = forall|wide: Valuation| #[trigger] extends(wide, mt, rest) ==> respects(knowledge, query, wide);
        let on_false = forall|wide: Valuation| #[trigger] extends(wide, mf, rest) ==> respects(knowledge, query, wide);
        assert forall|wide: Valuation| #[trigger] extends(wide, mt, rest) implies extends(wide, m, syms) by {
            assert(wide.dom() =~= m.dom() + syms.to_set());
            assert forall|x: Seq<char>| #[trigger] m.contains_key(x) implies wide[x] == m[x] by {
                assert(x != p);
                assert(mt.contains_key(x));
            }
        }
        assert forall|wide: Valuation| #[trigger] extends(wide, mf, rest) implies extends(wide, m, syms) by {
            assert(wide.dom() =~= m.dom() + syms.to_set());
            assert forall|x: Seq<char>| #[trigger] m.contains_key(x) implies wide[x] == m[x] by {
                assert(x != p);
                assert(mf.contains_key(x));
            }
        }
        assert forall|wide: Valuation| #[trigger] extends(wide, m, syms) implies (if wide[p] {
            extends(wide, mt, rest)
        } else {
            extends(wide, mf, rest)
        }) by {
            if wide[p] {
                assert(wide.dom() =~= mt.dom() + rest.to_set());
            } else {
                assert(wide.dom() =~= mf.dom() + rest.to_set());
            }
        }
        assert(whole == (on_true && on_false));
    }
}

/// The search over the first `n` symbols of `symbols`, from `model`.
fn model_check<K: Sentence, Q: Sentence>(
    knowledge: &K,
    query: &Q,
    symbols: &Vec<&Symbol>,
    n: usize,
    model: Model,
) -> (r: Option<bool>)
    requires
        n <= symbols@.len(),
    ensures
        r == search(knowledge.prop(), query.prop(), names(symbols@).subrange(0, n as int), model@),
    decreases n,
{
    if n == 0 {
        match knowledge.eval(&model) {
            Some(true) => query.eval(&model),
            Some(false) => Some(true),
            None => None,
        }
    } else {
        let p = symbols[n - 1];
        let ghost syms = names(symbols@).subrange(0, n as int);
        assert(syms.drop_last() == names(symbols@).subrange(0, n - 1));
        assert(syms.last() == p@);
        let mut model_true = model.duplicate();
        model_true.set(p, true);
        let mut model_false = model;
        model_false.set(p, false);
        match model_check(knowledge, query, symbols, n - 1, model_true) {
            Some(left) => match model_check(knowledge, query, symbols, n - 1, model_false) {
                Some(right) => Some(left && right),
                None => None,
            },
            None => None,
        }
    }
}

/// Whether `knowledge` entails `query`, found by trying every assignment of
/// the symbols that occur in either. The answer is always defined.
pub fn check<K: Sentence, Q: Sentence>(knowledge: &K, query: &Q) -> (r: Option<bool>)
    ensures
        r == Some(entails(knowledge.prop(), query.prop())),
{
    let mut symbols = knowledge.symbols();
    let mut more = query.symbols();
    proof {
        lemma_names_concat(symbols@, more@);
    }
    symbols.append(&mut more);
    let symbols = unique(symbols);
    let ghost all = leaves(knowledge.prop()) + leaves(query.prop());
    let ghost syms = names(symbols@);
    proof {
        lemma_distinct(all);
        assert(syms.subrange(0, syms.len() as int) == syms);
        assert forall|i: int| 0 <= i < all.len() implies syms.contains(#[trigger] all[i]) by {
            assert(all.contains(all[i]));
        }
        lemma_search(knowledge.prop(), query.prop(), syms, Map::empty());
        assert(Map::<Seq<char>, bool>::empty().dom() + syms.to_set() =~= all.to_set());
        let k = knowledge.prop();
        let q = query.prop();
        assert(entails(k, q) == forall|m: Valuation| #[trigger] extends(m, Map::empty(), syms)
            ==> respects(k, q, m)) by {
            if entails(k, q) {
                assert forall|m: Valuation| #[trigger] extends(m, Map::empty(), syms) implies respects(k, q, m) by {
                    assert(m.dom() == all.to_set());
                }
            }
            if forall|m: Valuation| #[trigger] extends(m, Map::empty(), syms) ==> respects(k, q, m) {
                assert forall|m: Valuation|
                    m.dom() == all.to_set() && #[trigger] evaluate(k, m) == Some(true)
                    implies evaluate(q, m) == Some(true) by {
                    assert(extends(m, Map::empty(), syms));
                }
            }
        }
    }
    model_check(knowledge, query, &symbols, symbols.len(), Model::new())
}

} // verus!
