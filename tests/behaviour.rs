use proplogic::{check, unique, And, Biconditional, Implies, Model, Not, Or, Sentence, Symbol};

#[test]
fn negation_of_unassigned_is_undefined() {
    let a = Symbol::new("a");
    let model = Model::new();
    assert_eq!(model.eval(&Not::new(&a)), None);
    assert_eq!(Not::new(&a).eval(&model), None);
}

#[test]
fn empty_connectives() {
    let a = Symbol::new("a");
    let mut model = Model::new();
    assert_eq!(model.eval(&And::new()), Some(true));
    assert_eq!(model.eval(&Or::new()), Some(false));
    model.set(&a, false);
    assert_eq!(model.eval(&And::new()), Some(true));
    assert_eq!(model.eval(&Or::new()), Some(false));
}

#[test]
fn evaluating_twice_gives_the_same_value() {
    let a = Symbol::new("a");
    let b = Symbol::new("b");
    let sentence = Implies::new(&a, &Or::new().Or(&b).Or(&Not::new(&a)));
    let mut model = Model::new();
    model.set(&a, true);
    model.set(&b, false);
    let first = model.eval(&sentence);
    let second = model.eval(&sentence);
    assert_eq!(first, second);
    assert_eq!(first, Some(false));
}

#[test]
fn symbols_keep_multiplicity_and_order() {
    let a = Symbol::new("a");
    let b = Symbol::new("b");
    let c = Symbol::new("c");
    let sentence = And::new()
        .And(&Implies::new(&a, &b))
        .And(&Not::new(&a))
        .And(&Biconditional::new(&c, &b));
    let names: Vec<&str> = sentence.symbols().iter().map(|s| s.name()).collect();
    assert_eq!(names, vec!["a", "b", "a", "c", "b"]);
    let distinct: Vec<&str> = sentence.symbols_unique().iter().map(|s| s.name()).collect();
    assert_eq!(distinct, vec!["a", "b", "c"]);
}

#[test]
fn unique_keeps_first_occurrences() {
    let a = Symbol::new("a");
    let b = Symbol::new("b");
    let a2 = Symbol::new("a");
    let kept = unique(vec![&b, &a, &b, &a2]);
    let names: Vec<&str> = kept.iter().map(|s| s.name()).collect();
    assert_eq!(names, vec!["b", "a"]);
    assert!(unique(Vec::new()).is_empty());
}

#[test]
fn unassigned_symbol_gives_undefined() {
    let a = Symbol::new("a");
    let b = Symbol::new("b");
    let mut model = Model::new();
    model.set(&a, true);
    assert_eq!(model.eval(&b), None);
    assert_eq!(model.eval(&Implies::new(&a, &b)), None);
    assert_eq!(model.eval(&Implies::new(&b, &a)), None);
    assert_eq!(model.eval(&Biconditional::new(&a, &b)), None);
    assert_eq!(model.eval(&Not::new(&b)), None);
    assert_eq!(model.eval(&And::new().And(&b).And(&a)), None);
    assert_eq!(model.eval(&Or::new().Or(&b).Or(&a)), None);
}

#[test]
fn conjunction_stops_at_first_false_or_undefined() {
    let a = Symbol::new("a");
    let b = Symbol::new("b");
    let mut model = Model::new();
    model.set(&a, false);
    assert_eq!(model.eval(&And::new().And(&a).And(&b)), Some(false));
    assert_eq!(model.eval(&And::new().And(&b).And(&a)), None);
    model.set(&a, true);
    assert_eq!(model.eval(&Or::new().Or(&a).Or(&b)), Some(true));
    assert_eq!(model.eval(&Or::new().Or(&b).Or(&a)), None);
    assert_eq!(model.eval(&And::new().And(&a).And(&b)), None);
}

#[test]
fn model_set_overwrites() {
    let a = Symbol::new("a");
    let same = Symbol::new("a");
    let b = Symbol::new("b");
    let mut model = Model::new();
    assert_eq!(model.get(&a), None);
    model.set(&a, true);
    model.set(&b, false);
    assert_eq!(model.get(&same), Some(&true));
    model.set(&same, false);
    assert_eq!(model.get(&a), Some(&false));
    assert_eq!(model.get(&b), Some(&false));
    let copy = model.duplicate();
    assert_eq!(copy.get(&a), Some(&false));
}

#[test]
fn check_finds_non_entailment() {
    let rain = Symbol::new("rain");
    let cloud = Symbol::new("cloud");
    assert_eq!(check(&Implies::new(&rain, &cloud), &cloud), Some(false));
    assert_eq!(check(&cloud, &Or::new().Or(&cloud).Or(&rain)), Some(true));
    assert_eq!(check(&And::new(), &cloud), Some(false));
    assert_eq!(check(&And::new().And(&rain).And(&Not::new(&rain)), &cloud), Some(true));
    assert_eq!(check(&And::new(), &Or::new().Or(&rain).Or(&Not::new(&rain))), Some(true));
}

#[test]
fn formula_text() {
    let a = Symbol::new("a");
    let b = Symbol::new("b");
    assert_eq!(a.formula(), "a");
    assert_eq!(Not::new(&a).formula(), "~a");
    assert_eq!(And::new().formula(), "true");
    assert_eq!(Or::new().formula(), "false");
    assert_eq!(And::new().And(&a).And(&b).formula(), "(a & b)");
    assert_eq!(Or::new().Or(&a).Or(&Not::new(&b)).formula(), "(a | ~b)");
    assert_eq!(Implies::new(&a, &b).formula(), "(a => b)");
    assert_eq!(Biconditional::new(&a, &b).formula(), "(a <=> b)");
    assert_eq!(Implies::new(&a, &b).to_formula().formula(), "(a => b)");
}

#[test]
fn symbol_name() {
    let s = Symbol::new("It is raining.");
    assert_eq!(s.name(), "It is raining.");
    assert_eq!(Symbol("x").name(), "x");
}
