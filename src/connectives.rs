//! The connectives: negation, conjunction, disjunction, implication and the
//! biconditional, each a sentence built from sentences.
use vstd::prelude::*;
use vstd::string::StringExecFns;
use std::rc::Rc;

use crate::formula::{
    Formula, Model, Sentence, Symbol, duplicate_list, eval_conjunction, eval_disjunction,
    lemma_props_of, prop_of, props_of, render_group, symbols_of_list,
};
use crate::semantics::{Prop, leaves, render};
use crate::utils::names;

verus! {

/// Negation of a sentence.
#[derive(Clone)]
pub struct Not {
    sentence: Rc<Formula>,
}

impl Not {
    /// Negation of `sentence`.
    pub fn new<A: Sentence>(sentence: &A) -> (r: Not)
        ensures
            r.prop() == Prop::Neg(Box::new(sentence.prop())),
    {
        Not { sentence: Rc::new(sentence.to_formula()) }
    }
}

/// Negation of `sentence`.
pub fn Not<A: Sentence>(sentence: &A) -> (r: Not)
    ensures
        r.prop() == Prop::Neg(Box::new(sentence.prop())),
{
    Not::new(sentence)
}

impl Sentence for Not {
    closed spec fn prop(&self) -> Prop {
        Prop::Neg(Box::new(prop_of(*self.sentence)))
    }

    fn to_formula(&self) -> (r: Formula) {
        Formula::Negation(self.sentence.clone())
    }

    fn eval(&self, model: &Model) -> (r: Option<bool>) {
        match self.sentence.evaluate_in(model) {
            Some(v) => Some(!v),
            None => None,
        }
    }

    fn symbols(&self) -> (r: Vec<&Symbol>) {
        self.sentence.leaf_symbols()
    }

    fn formula(&self) -> (r: String) {
        let mut r = String::new();
        r.append("~");
        let inner = self.sentence.text();
        r.append(inner.as_str());
        r
    }
}

/// Conjunction of any number of sentences; with none it is `true`.
#[derive(Clone)]
pub struct And {
    sentences: Vec<Rc<Formula>>,
}

impl And {
    /// The conjunction of no sentence.
    pub fn new() -> (r: And)
        ensures
            r.prop() == Prop::Conj(Seq::empty()),
    {
        proof {
            lemma_props_of(Seq::<Rc<Formula>>::empty());
            assert(props_of(Seq::<Rc<Formula>>::empty()) =~= Seq::<Prop>::empty());
        }
        And { sentences: Vec::new() }
    }

    /// This conjunction with `sentence` added as its last member.
    pub fn And<T: Sentence>(self, sentence: &T) -> (r: And)
        ensures
            r.prop() == Prop::Conj(self.prop()->Conj_0.push(sentence.prop())),
    {
        let mut sentences = self.sentences;
        let ghost before = sentences@;
        sentences.push(Rc::new(sentence.to_formula()));
        proof {
            lemma_props_of(before);
            lemma_props_of(sentences@);
            assert(props_of(sentences@) =~= props_of(before).push(sentence.prop()));
        }
        And { sentences }
    }
}

impl Sentence for And {
    closed spec fn prop(&self) -> Prop {
        Prop::Conj(props_of(self.sentences@))
    }

    fn to_formula(&self) -> (r: Formula) {
        Formula::Conjunction(duplicate_list(&self.sentences))
    }

    fn eval(&self, model: &Model) -> (r: Option<bool>) {
        eval_conjunction(&self.sentences, model)
    }

    fn symbols(&self) -> (r: Vec<&Symbol>) {
        symbols_of_list(&self.sentences)
    }

    fn formula(&self) -> (r: String) {
        proof {
            lemma_props_of(self.sentences@);
        }
        render_group(&self.sentences, " & ", "true")
    }
}

/// The conjunction whose one member is `sentence`.
pub fn And<T: Sentence>(sentence: &T) -> (r: And)
    ensures
        r.prop() == Prop::Conj(seq![sentence.prop()]),
{
    let r = And::new().And(sentence);
    assert(Seq::<Prop>::empty().push(sentence.prop()) == seq![sentence.prop()]);
    r
}

/// Disjunction of any number of sentences; with none it is `false`.
#[derive(Clone)]
pub struct Or {
    sentences: Vec<Rc<Formula>>,
}

impl Or {
    /// The disjunction of no sentence.
    pub fn new() -> (r: Or)
        ensures
            r.prop() == Prop::Disj(Seq::empty()),
    {
        proof {
            lemma_props_of(Seq::<Rc<Formula>>::empty());
            assert(props_of(Seq::<Rc<Formula>>::empty()) =~= Seq::<Prop>::empty());
        }
        Or { sentences: Vec::new() }
    }

    /// This disjunction with `sentence` added as its last member.
    pub fn Or<T: Sentence>(self, sentence: &T) -> (r: Or)
        ensures
            r.prop() == Prop::Disj(self.prop()->Disj_0.push(sentence.prop())),
    {
        let mut sentences = self.sentences;
        let ghost before = sentences@;
        sentences.push(Rc::new(sentence.to_formula()));
        proof {
            lemma_props_of(before);
            lemma_props_of(sentences@);
            assert(props_of(sentences@) =~= props_of(before).push(sentence.prop()));
        }
        Or { sentences }
    }
}

impl Sentence for Or {
    closed spec fn prop(&self) -> Prop {
        Prop::Disj(props_of(self.sentences@))
    }

    fn to_formula(&self) -> (r: Formula) {
        Formula::Disjunction(duplicate_list(&self.sentences))
    }

    fn eval(&self, model: &Model) -> (r: Option<bool>) {
        eval_disjunction(&self.sentences, model)
    }

    fn symbols(&self) -> (r: Vec<&Symbol>) {
        symbols_of_list(&self.sentences)
    }

    fn formula(&self) -> (r: String) {
        proof {
            lemma_props_of(self.sentences@);
        }
        render_group(&self.sentences, " | ", "false")
    }
}

/// The disjunction whose one member is `sentence`.
pub fn Or<T: Sentence>(sentence: &T) -> (r: Or)
    ensures
        r.prop() == Prop::Disj(seq![sentence.prop()]),
{
    let r = Or::new().Or(sentence);
    assert(Seq::<Prop>::empty().push(sentence.prop()) == seq![sentence.prop()]);
    r
}

/// `antecedent` implies `consequent`.
#[derive(Clone)]
pub struct Implies {
    antecedent: Rc<Formula>,
    consequent: Rc<Formula>,
}

impl Implies {
    /// The implication from `antecedent` to `consequent`.
    pub fn new<A: Sentence, C: Sentence>(antecedent: &A, consequent: &C) -> (r: Implies)
        ensures
            r.prop() == Prop::Cond(Box::new(antecedent.prop()), Box::new(consequent.prop())),
    {
        Implies {
            antecedent: Rc::new(antecedent.to_formula()),
            consequent: Rc::new(consequent.to_formula()),
        }
    }
}

/// The implication from `antecedent` to `consequent`.
pub fn Implies<A: Sentence, C: Sentence>(antecedent: &A, consequent: &C) -> (r: Implies)
    ensures
        r.prop() == Prop::Cond(Box::new(antecedent.prop()), Box::new(consequent.prop())),
{
    Implies::new(antecedent, consequent)
}

impl Sentence for Implies {
    closed spec fn prop(&self) -> Prop {
        Prop::Cond(Box::new(prop_of(*self.antecedent)), Box::new(prop_of(*self.consequent)))
    }

    fn to_formula(&self) -> (r: Formula) {
        Formula::Implication(
            self.antecedent.clone(),
            self.consequent.clone(),
        )
    }

    fn eval(&self, model: &Model) -> (r: Option<bool>) {
        match (self.antecedent.evaluate_in(model), self.consequent.evaluate_in(model)) {
            (Some(x), Some(y)) => Some(!x || y),
            _ => None,
        }
    }

    fn symbols(&self) -> (r: Vec<&Symbol>) {
        pair_symbols(&self.antecedent, &self.consequent)
    }

    fn formula(&self) -> (r: String) {
        render_pair(&self.antecedent, " => ", &self.consequent)
    }
}

/// `left` holds exactly when `right` does.
#[derive(Clone)]
pub struct Biconditional {
    left: Rc<Formula>,
    right: Rc<Formula>,
}

impl Biconditional {
    /// The biconditional of `left` and `right`.
    pub fn new<L: Sentence, R: Sentence>(left: &L, right: &R) -> (r: Biconditional)
        ensures
            r.prop() == Prop::Equiv(Box::new(left.prop()), Box::new(right.prop())),
    {
        Biconditional { left: Rc::new(left.to_formula()), right: Rc::new(right.to_formula()) }
    }
}

/// The biconditional of `left` and `right`.
pub fn Biconditional<L: Sentence, R: Sentence>(left: &L, right: &R) -> (r: Biconditional)
    ensures
        r.prop() == Prop::Equiv(Box::new(left.prop()), Box::new(right.prop())),
{
    Biconditional::new(left, right)
}

impl Sentence for Biconditional {
    closed spec fn prop(&self) -> Prop {
        Prop::Equiv(Box::new(prop_of(*self.left)), Box::new(prop_of(*self.right)))
    }

    fn to_formula(&self) -> (r: Formula) {
        Formula::Equivalence(self.left.clone(), self.right.clone())
    }

    fn eval(&self, model: &Model) -> (r: Option<bool>) {
        match (self.left.evaluate_in(model), self.right.evaluate_in(model)) {
            (Some(x), Some(y)) => Some(x == y),
            _ => None,
        }
    }

    fn symbols(&self) -> (r: Vec<&Symbol>) {
        pair_symbols(&self.left, &self.right)
    }

    fn formula(&self) -> (r: String) {
        render_pair(&self.left, " <=> ", &self.right)
    }
}

/// The symbols of `a` followed by those of `b`.
fn pair_symbols<'a>(a: &'a Formula, b: &'a Formula) -> (r: Vec<&'a Symbol>)
    ensures
        names(r@) == leaves(prop_of(*a)) + leaves(prop_of(*b)),
{
    let mut left = a.leaf_symbols();
    let mut right = b.leaf_symbols();
    assert(names(left@ + right@) =~= names(left@) + names(right@));
    left.append(&mut right);
    left
}

/// `(a op b)`, with the texts of `a` and `b`.
fn render_pair(a: &Formula, op: &str, b: &Formula) -> (r: String)
    ensures
        r@ == "("@ + render(prop_of(*a)) + op@ + render(prop_of(*b)) + ")"@,
{
    let mut r = String::new();
    r.append("(");
    let left = a.text();
    r.append(left.as_str());
    r.append(op);
    let right = b.text();
    r.append(right.as_str());
    r.append(")");
    r
}

} // verus!
