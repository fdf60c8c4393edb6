//! Symbols, truth assignments and the executable form of sentences.
use vstd::prelude::*;
use vstd::string::StringExecFns;
use std::rc::Rc;

use crate::semantics::{Prop, Valuation, evaluate, evaluate_all, evaluate_any, leaves, leaves_all, render, render_list};
use crate::utils::{distinct, lemma_names_concat, names, unique};

verus! {

/// An atomic proposition, identified by its name.
#[derive(Clone, Debug, PartialEq, Eq, PartialOrd, Ord, Hash)]
pub struct Symbol {
    label: String,
}

impl View for Symbol {
    type V = Seq<char>;

    closed spec fn view(&self) -> Seq<char> {
        self.label@
    }
}

impl Symbol {
    /// The symbol named `label`.
    pub fn new(label: &str) -> (r: Symbol)
        ensures
            r@ == label@,
    {
        Symbol { label: label.to_owned() }
    }

    /// The name of the symbol.
    pub fn name(&self) -> (r: &str)
        ensures
            r@ == self@,
    {
        self.label.as_str()
    }

    /// A second symbol with the same name.
    pub fn duplicate(&self) -> (r: Symbol)
        ensures
            r@ == self@,
    {
        Symbol { label: self.label.clone() }
    }

    /// Whether two symbols have the same name.
    pub fn same(&self, other: &Symbol) -> (r: bool)
        ensures
            r == (self@ == other@),
    {
        self.label == other.label
    }
}

/// The symbol named `label`.
pub fn Symbol(label: &str) -> (r: Symbol)
    ensures
        r@ == label@,
{
    Symbol::new(label)
}

/// The assignment that a list of pairs makes, a later pair overriding an
/// earlier one for the same name.
pub open spec fn assignments(s: Seq<(Symbol, bool)>) -> Valuation
    decreases s.len(),
{
    if s.len() == 0 {
        Map::empty()
    } else {
        assignments(s.drop_last()).insert(s.last().0@, s.last().1)
    }
}

proof fn lemma_assignments_update(s: Seq<(Symbol, bool)>, i: int, entry: (Symbol, bool))
    requires
        0 <= i < s.len(),
        s[i].0@ == entry.0@,
        forall|j: int| i < j < s.len() ==> s[j].0@ != entry.0@,
    ensures
        assignments(s.update(i, entry)) == assignments(s).insert(entry.0@, entry.1),
    decreases s.len(),
{
    let t = s.update(i, entry);
    if i == s.len() - 1 {
        assert(t.drop_last() == s.drop_last());
    } else {
        assert(t.drop_last() == s.drop_last().update(i, entry));
        lemma_assignments_update(s.drop_last(), i, entry);
    }
    assert(assignments(t) =~= assignments(s).insert(entry.0@, entry.1));
}

proof fn lemma_assignments_same(a: Seq<(Symbol, bool)>, b: Seq<(Symbol, bool)>)
    requires
        a.len() == b.len(),
        forall|j: int| 0 <= j < a.len() ==> #[trigger] a[j].0@ == b[j].0@ && a[j].1 == b[j].1,
    ensures
        assignments(a) == assignments(b),
    decreases a.len(),
{
    if a.len() > 0 {
        lemma_assignments_same(a.drop_last(), b.drop_last());
    }
}

/// A partial truth assignment: a value for some of the symbols, at most one
/// entry per name, in the order in which names were first given a value.
#[derive(Clone)]
pub struct Model {
    entries: Vec<(Symbol, bool)>,
}

impl View for Model {
    type V = Valuation;

    closed spec fn view(&self) -> Valuation {
        assignments(self.entries@)
    }
}

impl Model {
    /// The assignment that gives no symbol a value.
    pub fn new() -> (r: Model)
        ensures
            r@ == Valuation::empty(),
    {
        Model { entries: Vec::new() }
    }

    /// Where `symbol` stands in the list, looking from the end.
    fn position(&self, symbol: &Symbol) -> (r: Option<usize>)
        ensures
            match r {
                Some(i) => {
                    &&& i < self.entries@.len()
                    &&& self.entries@[i as int].0@ == symbol@
                    &&& forall|j: int| i < j < self.entries@.len() ==> self.entries@[j].0@ != symbol@
                },
                None => forall|j: int| 0 <= j < self.entries@.len() ==> self.entries@[j].0@ != symbol@,
            },
            r is Some <==> self@.contains_key(symbol@),
            r matches Some(i) ==> self@[symbol@] == self.entries@[i as int].1,
    {
        proof {
            assert(self.entries@.subrange(0, self.entries@.len() as int) == self.entries@);
        }
        let mut i: usize = self.entries.len();
        while i > 0
            invariant
                i <= self.entries@.len(),
                forall|j: int| i <= j < self.entries@.len() ==> self.entries@[j].0@ != symbol@,
                assignments(self.entries@.subrange(0, i as int)).contains_key(symbol@)
                    == self@.contains_key(symbol@),
                assignments(self.entries@.subrange(0, i as int)).contains_key(symbol@)
                    ==> assignments(self.entries@.subrange(0, i as int))[symbol@] == self@[symbol@],
            decreases i,
        {
            let ghost prefix = self.entries@.subrange(0, i as int);
            assert(prefix.drop_last() == self.entries@.subrange(0, i - 1));
            if self.entries[i - 1].0.same(symbol) {
                return Some(i - 1);
            }
            i = i - 1;
        }
        assert(self.entries@.subrange(0, 0) == Seq::<(Symbol, bool)>::empty());
        None
    }

    /// Gives `symbol` the value `value`, in place of any it had.
    pub fn set(&mut self, symbol: &Symbol, value: bool)
        ensures
            final(self)@ == old(self)@.insert(symbol@, value),
    {
        match self.position(symbol) {
            Some(i) => {
                let entry = (symbol.duplicate(), value);
                proof {
                    lemma_assignments_update(self.entries@, i as int, entry);
                }
                self.entries.set(i, entry);
            },
            None => {
                let entry = (symbol.duplicate(), value);
                self.entries.push(entry);
                assert(self.entries@.drop_last() == old(self).entries@);
            },
        }
    }

    /// A second model with the same assignment.
    pub fn duplicate(&self) -> (r: Model)
        ensures
            r@ == self@,
    {
        let mut entries: Vec<(Symbol, bool)> = Vec::new();
        let mut i: usize = 0;
        while i < self.entries.len()
            invariant
                0 <= i <= self.entries@.len(),
                entries@.len() == i,
                forall|j: int| 0 <= j < i ==> #[trigger] entries@[j].0@ == self.entries@[j].0@
                    && entries@[j].1 == self.entries@[j].1,
            decreases self.entries.len() - i,
        {
            let entry = (self.entries[i].0.duplicate(), self.entries[i].1);
            entries.push(entry);
            i = i + 1;
        }
        proof {
            lemma_assignments_same(entries@, self.entries@);
        }
        Model { entries }
    }

    /// The value of `sentence` under this model.
    pub fn eval<S: Sentence>(&self, sentence: &S) -> (r: Option<bool>)
        ensures
            r == evaluate(sentence.prop(), self@),
    {
        sentence.eval(self)
    }

    /// States that `sentence` is true under this model; the caller has to
    /// show it.
    pub fn assert_true<S: Sentence>(&self, sentence: &S)
        requires
            evaluate(sentence.prop(), self@) == Some(true),
    {
        let value = self.eval(sentence);
        assert(value == Some(true));
    }

    /// States that `sentence` is false under this model; the caller has to
    /// show it.
    pub fn assert_false<S: Sentence>(&self, sentence: &S)
        requires
            evaluate(sentence.prop(), self@) == Some(false),
    {
        let value = self.eval(sentence);
        assert(value == Some(false));
    }

    /// The value of `symbol`, if it has one.
    pub fn get(&self, symbol: &Symbol) -> (r: Option<&bool>)
        ensures
            match r {
                Some(b) => self@.contains_key(symbol@) && *b == self@[symbol@],
                None => !self@.contains_key(symbol@),
            },
    {
        match self.position(symbol) {
            Some(i) => Some(&self.entries[i].1),
            None => None,
        }
    }
}

/// A sentence as a tree: the closed set of forms that a sentence can take.
pub enum Formula {
    Atom(Symbol),
    Negation(Rc<Formula>),
    Conjunction(Vec<Rc<Formula>>),
    Disjunction(Vec<Rc<Formula>>),
    Implication(Rc<Formula>, Rc<Formula>),
    Equivalence(Rc<Formula>, Rc<Formula>),
}

/// The mathematical sentence that a tree stands for.
pub open spec fn prop_of(f: Formula) -> Prop
    decreases f,
{
    match f {
        Formula::Atom(s) => Prop::Var(s@),
        Formula::Negation(a) => Prop::Neg(Box::new(prop_of(*a))),
        Formula::Conjunction(cs) => Prop::Conj(props_of(cs@)),
        Formula::Disjunction(cs) => Prop::Disj(props_of(cs@)),
        Formula::Implication(a, b) => Prop::Cond(Box::new(prop_of(*a)), Box::new(prop_of(*b))),
        Formula::Equivalence(a, b) => Prop::Equiv(Box::new(prop_of(*a)), Box::new(prop_of(*b))),
    }
}

/// The mathematical sentences of a list of trees.
pub open spec fn props_of(s: Seq<Rc<Formula>>) -> Seq<Prop>
    decreases s,
{
    if s.len() == 0 {
        Seq::empty()
    } else {
        seq![prop_of(*s[0])] + props_of(s.subrange(1, s.len() as int))
    }
}

pub proof fn lemma_props_of(s: Seq<Rc<Formula>>)
    ensures
        props_of(s).len() == s.len(),
        forall|i: int| 0 <= i < s.len() ==> #[trigger] props_of(s)[i] == prop_of(*s[i]),
    decreases s.len(),
{
    if s.len() > 0 {
        lemma_props_of(s.subrange(1, s.len() as int));
    }
}

/// Conjunction of the members of `cs`, from left to right.
pub(crate) fn eval_conjunction(cs: &Vec<Rc<Formula>>, model: &Model) -> (r: Option<bool>)
    ensures
        r == evaluate_all(props_of(cs@), model@),
    decreases cs,
{
    let ghost ps = props_of(cs@);
    proof {
        lemma_props_of(cs@);
        assert(ps.subrange(0, ps.len() as int) == ps);
    }
    let mut i: usize = 0;
    while i < cs.len()
        invariant
            0 <= i <= cs@.len(),
            ps == props_of(cs@),
            ps.len() == cs@.len(),
            forall|j: int| 0 <= j < cs@.len() ==> #[trigger] ps[j] == prop_of(*cs@[j]),
            evaluate_all(ps, model@) == evaluate_all(ps.subrange(i as int, ps.len() as int), model@),
        decreases cs.len() - i,
    {
        let ghost rest = ps.subrange(i as int, ps.len() as int);
        assert(rest[0] == ps[i as int]);
        assert(rest.subrange(1, rest.len() as int) == ps.subrange(i + 1, ps.len() as int));
        match cs[i].evaluate_in(model) {
            Some(true) => {},
            other => {
                return other;
            },
        }
        i = i + 1;
    }
    Some(true)
}

/// Disjunction of the members of `cs`, from left to right.
pub(crate) fn eval_disjunction(cs: &Vec<Rc<Formula>>, model: &Model) -> (r: Option<bool>)
    ensures
        r == evaluate_any(props_of(cs@), model@),
    decreases cs,
{
    let ghost ps = props_of(cs@);
    proof {
        lemma_props_of(cs@);
        assert(ps.subrange(0, ps.len() as int) == ps);
    }
    let mut i: usize = 0;
    while i < cs.len()
        invariant
            0 <= i <= cs@.len(),
            ps == props_of(cs@),
            ps.len() == cs@.len(),
            forall|j: int| 0 <= j < cs@.len() ==> #[trigger] ps[j] == prop_of(*cs@[j]),
            evaluate_any(ps, model@) == evaluate_any(ps.subrange(i as int, ps.len() as int), model@),
        decreases cs.len() - i,
    {
        let ghost rest = ps.subrange(i as int, ps.len() as int);
        assert(rest[0] == ps[i as int]);
        assert(rest.subrange(1, rest.len() as int) == ps.subrange(i + 1, ps.len() as int));
        match cs[i].evaluate_in(model) {
            Some(false) => {},
            other => {
                return other;
            },
        }
        i = i + 1;
    }
    Some(false)
}

/// The symbols of the members of `cs`, one member after the other.
pub(crate) fn symbols_of_list<'a>(cs: &'a Vec<Rc<Formula>>) -> (r: Vec<&'a Symbol>)
    ensures
        names(r@) == leaves_all(props_of(cs@)),
    decreases cs,
{
    let ghost ps = props_of(cs@);
    proof {
        lemma_props_of(cs@);
        assert(ps.subrange(0, ps.len() as int) == ps);
    }
    let mut acc: Vec<&'a Symbol> = Vec::new();
    let mut i: usize = 0;
    while i < cs.len()
        invariant
            0 <= i <= cs@.len(),
            ps == props_of(cs@),
            ps.len() == cs@.len(),
            forall|j: int| 0 <= j < cs@.len() ==> #[trigger] ps[j] == prop_of(*cs@[j]),
            names(acc@) + leaves_all(ps.subrange(i as int, ps.len() as int)) == leaves_all(ps),
        decreases cs.len() - i,
    {
        let ghost rest = ps.subrange(i as int, ps.len() as int);
        assert(rest[0] == ps[i as int]);
        assert(rest.subrange(1, rest.len() as int) == ps.subrange(i + 1, ps.len() as int));
        let mut more = cs[i].leaf_symbols();
        proof {
            lemma_names_concat(acc@, more@);
            assert(names(acc@) + leaves(ps[i as int]) + leaves_all(ps.subrange(i + 1, ps.len() as int))
                == names(acc@) + leaves_all(rest));
        }
        acc.append(&mut more);
        i = i + 1;
    }
    assert(names(acc@) + Seq::<Seq<char>>::empty() == names(acc@));
    acc
}

/// The members of `cs` in parentheses with `sep` between each two, or
/// `empty` when there is none.
pub(crate) fn render_group(cs: &Vec<Rc<Formula>>, sep: &str, empty: &str) -> (r: String)
    ensures
        r@ == if cs@.len() == 0 {
            empty@
        } else {
            "("@ + render_list(props_of(cs@), sep@) + ")"@
        },
    decreases cs,
{
    let ghost ps = props_of(cs@);
    proof {
        lemma_props_of(cs@);
    }
    if cs.len() == 0 {
        return empty.to_owned();
    }
    let mut acc = String::new();
    acc.append("(");
    let first = cs[0].text();
    acc.append(first.as_str());
    assert(ps.subrange(0, 1).len() == 1);
    let mut i: usize = 1;
    while i < cs.len()
        invariant
            1 <= i <= cs@.len(),
            ps == props_of(cs@),
            ps.len() == cs@.len(),
            forall|j: int| 0 <= j < cs@.len() ==> #[trigger] ps[j] == prop_of(*cs@[j]),
            acc@ == "("@ + render_list(ps.subrange(0, i as int), sep@),
        decreases cs.len() - i,
    {
        let ghost next = ps.subrange(0, i + 1);
        assert(next.subrange(0, i as int) == ps.subrange(0, i as int));
        assert(next[i as int] == ps[i as int]);
        let member = cs[i].text();
        acc.append(sep);
        acc.append(member.as_str());
        i = i + 1;
    }
    assert(ps.subrange(0, ps.len() as int) == ps);
    acc.append(")");
    acc
}

impl Formula {
    /// The value of the sentence under `model`.
    pub fn evaluate_in(&self, model: &Model) -> (r: Option<bool>)
        ensures
            r == evaluate(prop_of(*self), model@),
        decreases self,
    {
        match self {
            Formula::Atom(s) => match model.get(s) {
                Some(b) => Some(*b),
                None => None,
            },
            Formula::Negation(a) => match a.evaluate_in(model) {
                Some(v) => Some(!v),
                None => None,
            },
            Formula::Conjunction(cs) => eval_conjunction(cs, model),
            Formula::Disjunction(cs) => eval_disjunction(cs, model),
            Formula::Implication(a, b) => match (a.evaluate_in(model), b.evaluate_in(model)) {
                (Some(x), Some(y)) => Some(!x || y),
                _ => None,
            },
            Formula::Equivalence(a, b) => match (a.evaluate_in(model), b.evaluate_in(model)) {
                (Some(x), Some(y)) => Some(x == y),
                _ => None,
            },
        }
    }

    /// The symbols of the sentence from left to right, one per occurrence.
    pub fn leaf_symbols(&self) -> (r: Vec<&Symbol>)
        ensures
            names(r@) == leaves(prop_of(*self)),
        decreases self,
    {
        match self {
            Formula::Atom(s) => {
                let r = vec![s];
                assert(names(r@) =~= seq![s@]);
                r
            },
            Formula::Negation(a) => a.leaf_symbols(),
            Formula::Conjunction(cs) => symbols_of_list(cs),
            Formula::Disjunction(cs) => symbols_of_list(cs),
            Formula::Implication(a, b) | Formula::Equivalence(a, b) => {
                let mut left = a.leaf_symbols();
                let mut right = b.leaf_symbols();
                proof {
                    lemma_names_concat(left@, right@);
                }
                left.append(&mut right);
                left
            },
        }
    }

    /// The text of the sentence.
    pub fn text(&self) -> (r: String)
        ensures
            r@ == render(prop_of(*self)),
        decreases self,
    {
        match self {
            Formula::Atom(s) => s.name().to_owned(),
            Formula::Negation(a) => {
                let mut r = String::new();
                r.append("~");
                let inner = a.text();
                r.append(inner.as_str());
                r
            },
            Formula::Conjunction(cs) => {
                proof {
                    lemma_props_of(cs@);
                }
                render_group(cs, " & ", "true")
            },
            Formula::Disjunction(cs) => {
                proof {
                    lemma_props_of(cs@);
                }
                render_group(cs, " | ", "false")
            },
            Formula::Implication(a, b) => {
                let mut r = String::new();
                r.append("(");
                let left = a.text();
                r.append(left.as_str());
                r.append(" => ");
                let right = b.text();
                r.append(right.as_str());
                r.append(")");
                r
            },
            Formula::Equivalence(a, b) => {
                let mut r = String::new();
                r.append("(");
                let left = a.text();
                r.append(left.as_str());
                r.append(" <=> ");
                let right = b.text();
                r.append(right.as_str());
                r.append(")");
                r
            },
        }
    }

    /// A tree of the same shape, which shares the members of this one.
    pub fn duplicate(&self) -> (r: Formula)
        ensures
            prop_of(r) == prop_of(*self),
    {
        match self {
            Formula::Atom(s) => Formula::Atom(s.duplicate()),
            Formula::Negation(a) => Formula::Negation(a.clone()),
            Formula::Conjunction(cs) => Formula::Conjunction(duplicate_list(cs)),
            Formula::Disjunction(cs) => Formula::Disjunction(duplicate_list(cs)),
            Formula::Implication(a, b) => Formula::Implication(a.clone(), b.clone()),
            Formula::Equivalence(a, b) => Formula::Equivalence(a.clone(), b.clone()),
        }
    }
}

impl Clone for Formula {
    fn clone(&self) -> (r: Formula)
        ensures
            prop_of(r) == prop_of(*self),
    {
        self.duplicate()
    }
}

/// The members of `cs`, shared.
pub(crate) fn duplicate_list(cs: &Vec<Rc<Formula>>) -> (r: Vec<Rc<Formula>>)
    ensures
        r@ == cs@,
{
    let mut r: Vec<Rc<Formula>> = Vec::new();
    let mut i: usize = 0;
    while i < cs.len()
        invariant
            0 <= i <= cs@.len(),
            r@ == cs@.subrange(0, i as int),
        decreases cs.len() - i,
    {
        r.push(cs[i].clone());
        assert(r@ == cs@.subrange(0, i + 1));
        i = i + 1;
    }
    assert(cs@.subrange(0, cs@.len() as int) == cs@);
    r
}

/// What every sentence offers: its value under a model, its symbols and its
/// text.
pub trait Sentence {
    /// The mathematical sentence that `self` stands for.
    spec fn prop(&self) -> Prop;

    /// The tree of the sentence.
    fn to_formula(&self) -> (r: Formula)
        ensures
            prop_of(r) == self.prop(),
    ;

    /// The three-valued value of the sentence under `model`.
    fn eval(&self, model: &Model) -> (r: Option<bool>)
        ensures
            r == evaluate(self.prop(), model@),
    ;

    /// The symbols of the sentence from left to right, one per occurrence.
    fn symbols(&self) -> (r: Vec<&Symbol>)
        ensures
            names(r@) == leaves(self.prop()),
    ;

    /// The text of the sentence.
    fn formula(&self) -> (r: String)
        ensures
            r@ == render(self.prop()),
    ;

    /// The symbols of the sentence, each name once, in order of first
    /// occurrence.
    fn symbols_unique(&self) -> (r: Vec<&Symbol>)
        ensures
            names(r@) == distinct(leaves(self.prop())),
    {
        unique(self.symbols())
    }
}

impl Sentence for Formula {
    open spec fn prop(&self) -> Prop {
        prop_of(*self)
    }

    fn to_formula(&self) -> (r: Formula) {
        self.duplicate()
    }

    fn eval(&self, model: &Model) -> (r: Option<bool>) {
        self.evaluate_in(model)
    }

    fn symbols(&self) -> (r: Vec<&Symbol>) {
        self.leaf_symbols()
    }

    fn formula(&self) -> (r: String) {
        self.text()
    }
}

impl Sentence for Symbol {
    open spec fn prop(&self) -> Prop {
        Prop::Var(self@)
    }

    fn to_formula(&self) -> (r: Formula) {
        Formula::Atom(self.duplicate())
    }

    fn eval(&self, model: &Model) -> (r: Option<bool>) {
        match model.get(self) {
            Some(b) => Some(*b),
            None => None,
        }
    }

    fn symbols(&self) -> (r: Vec<&Symbol>) {
        let r = vec![self];
        assert(names(r@) =~= seq![self@]);
        r
    }

    fn formula(&self) -> (r: String) {
        self.name().to_owned()
    }
}

} // verus!
