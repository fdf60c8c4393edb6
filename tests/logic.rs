use proplogic::{check, And, Biconditional, Implies, Model, Not, Or, Sentence, Symbol};

fn model_of(pairs: &[(&Symbol, bool)]) -> Model {
    let mut model = Model::new();
    for (symbol, value) in pairs {
        model.set(symbol, *value);
    }
    model
}

#[test]
fn rainy_day() {
    let rain = Symbol("it's raining");
    let cloud = Symbol("it's cloudy");

    let world = And(&Implies(&rain, &cloud)).And(&rain);

    println!("It is cloudy? {:?}", check(&world, &cloud));
    assert_eq!(Some(true), check(&world, &cloud));
}

#[test]
fn harry_visit() {
    let rain = Symbol("It is raining.");
    let hagrid = Symbol("Harry visited Hagrid.");
    let dumbledore = Symbol("Harry visited Dumbledore.");

    let knowledge = And(&Implies(&Not(&rain), &hagrid))
        .And(&Or(&hagrid).Or(&dumbledore))
        .And(&Not(&And(&hagrid).And(&dumbledore)))
        .And(&dumbledore);

    println!("{}", knowledge.formula());

    println!("It is raining? {:?}", check(&knowledge, &rain));
    assert_eq!(Some(true), check(&knowledge, &rain));
}

#[test]
fn not_true_table() {
    let p = Symbol("P");

    model_of(&[(&p, true)]).assert_false(&Not(&p));
    model_of(&[(&p, false)]).assert_true(&Not(&p));
    assert_eq!(model_of(&[(&p, true)]).eval(&Not(&p)), Some(false));
    assert_eq!(model_of(&[(&p, false)]).eval(&Not(&p)), Some(true));
}

#[test]
fn or_true_table() {
    let a = Symbol("A");
    let b = Symbol("B");
    let or = Or(&a).Or(&b);

    model_of(&[(&a, false), (&b, false)]).assert_false(&or);
    model_of(&[(&a, false), (&b, true)]).assert_true(&or);
    model_of(&[(&a, true), (&b, false)]).assert_true(&or);
    model_of(&[(&a, true), (&b, true)]).assert_true(&or);
    for (x, y) in [(false, false), (false, true), (true, false), (true, true)] {
        assert_eq!(model_of(&[(&a, x), (&b, y)]).eval(&or), Some(x || y));
    }
}

#[test]
fn and_true_table() {
    let a = Symbol("A");
    let b = Symbol("B");
    let and = And(&a).And(&b);

    model_of(&[(&a, false), (&b, false)]).assert_false(&and);
    model_of(&[(&a, false), (&b, true)]).assert_false(&and);
    model_of(&[(&a, true), (&b, false)]).assert_false(&and);
    model_of(&[(&a, true), (&b, true)]).assert_true(&and);
    for (x, y) in [(false, false), (false, true), (true, false), (true, true)] {
        assert_eq!(model_of(&[(&a, x), (&b, y)]).eval(&and), Some(x && y));
    }
}

#[test]
fn implies_true_table() {
    let a = Symbol("A");
    let b = Symbol("B");
    let implies = Implies(&a, &b);

    model_of(&[(&a, false), (&b, false)]).assert_true(&implies);
    model_of(&[(&a, false), (&b, true)]).assert_true(&implies);
    model_of(&[(&a, true), (&b, false)]).assert_false(&implies);
    model_of(&[(&a, true), (&b, true)]).assert_true(&implies);
    for (x, y) in [(false, false), (false, true), (true, false), (true, true)] {
        assert_eq!(model_of(&[(&a, x), (&b, y)]).eval(&implies), Some(!x || y));
    }
}

#[test]
fn biconditional_true_table() {
    let a = Symbol("A");
    let b = Symbol("B");
    let iff = Biconditional(&a, &b);

    model_of(&[(&a, false), (&b, false)]).assert_true(&iff);
    model_of(&[(&a, false), (&b, true)]).assert_false(&iff);
    model_of(&[(&a, true), (&b, false)]).assert_false(&iff);
    model_of(&[(&a, true), (&b, true)]).assert_true(&iff);
    for (x, y) in [(false, false), (false, true), (true, false), (true, true)] {
        assert_eq!(model_of(&[(&a, x), (&b, y)]).eval(&iff), Some(x == y));
    }
}
