//! The expression-level behaviour of constant propagation: folding of
//! arithmetic, comparisons, conditionals and array selections over literals.

use zokrates_core::environment::Environment;
use zokrates_core::field::FieldElement;
use zokrates_core::typed_absy::BooleanExpression;
use zokrates_core::typed_absy::FieldElementArrayExpression;
use zokrates_core::typed_absy::FieldElementExpression;
use zokrates_core::typed_absy::TypedFunction;

fn num(n: u64) -> FieldElementExpression {
    FieldElementExpression::Number(FieldElement::from_u64(n))
}

fn no_functions() -> Vec<TypedFunction> {
    Vec::new()
}

#[test]
fn add() {
    let e = FieldElementExpression::Add(Box::new(num(2)), Box::new(num(3)));

    assert_eq!(
        e.propagate(&Environment::new(), &no_functions()).unwrap(),
        num(5)
    );
}

#[test]
fn sub() {
    let e = FieldElementExpression::Sub(Box::new(num(3)), Box::new(num(2)));

    assert_eq!(
        e.propagate(&Environment::new(), &no_functions()).unwrap(),
        num(1)
    );
}

#[test]
fn mult() {
    let e = FieldElementExpression::Mult(Box::new(num(3)), Box::new(num(2)));

    assert_eq!(
        e.propagate(&Environment::new(), &no_functions()).unwrap(),
        num(6)
    );
}

#[test]
fn div() {
    let e = FieldElementExpression::Div(Box::new(num(6)), Box::new(num(2)));

    assert_eq!(
        e.propagate(&Environment::new(), &no_functions()).unwrap(),
        num(3)
    );
}

#[test]
fn pow() {
    let e = FieldElementExpression::Pow(Box::new(num(2)), Box::new(num(3)));

    assert_eq!(
        e.propagate(&Environment::new(), &no_functions()).unwrap(),
        num(8)
    );
}

#[test]
fn if_else_true() {
    let e = FieldElementExpression::IfElse(
        Box::new(BooleanExpression::Value(true)),
        Box::new(num(2)),
        Box::new(num(3)),
    );

    assert_eq!(
        e.propagate(&Environment::new(), &no_functions()).unwrap(),
        num(2)
    );
}

#[test]
fn if_else_false() {
    let e = FieldElementExpression::IfElse(
        Box::new(BooleanExpression::Value(false)),
        Box::new(num(2)),
        Box::new(num(3)),
    );

    assert_eq!(
        e.propagate(&Environment::new(), &no_functions()).unwrap(),
        num(3)
    );
}

#[test]
fn select() {
    let e = FieldElementExpression::Select(
        Box::new(FieldElementArrayExpression::Value(
            3,
            vec![num(1), num(2), num(3)],
        )),
        Box::new(FieldElementExpression::Add(
            Box::new(num(1)),
            Box::new(num(1)),
        )),
    );

    assert_eq!(
        e.propagate(&Environment::new(), &no_functions()).unwrap(),
        num(3)
    );
}

#[test]
fn eq() {
    let e_true = BooleanExpression::Eq(Box::new(num(2)), Box::new(num(2)));
    let e_false = BooleanExpression::Eq(Box::new(num(4)), Box::new(num(2)));

    assert_eq!(
        e_true.propagate(&Environment::new(), &no_functions()).unwrap(),
        BooleanExpression::Value(true)
    );
    assert_eq!(
        e_false.propagate(&Environment::new(), &no_functions()).unwrap(),
        BooleanExpression::Value(false)
    );
}

#[test]
fn lt() {
    let e_true = BooleanExpression::Lt(Box::new(num(2)), Box::new(num(4)));
    let e_false = BooleanExpression::Lt(Box::new(num(4)), Box::new(num(2)));

    assert_eq!(
        e_true.propagate(&Environment::new(), &no_functions()).unwrap(),
        BooleanExpression::Value(true)
    );
    assert_eq!(
        e_false.propagate(&Environment::new(), &no_functions()).unwrap(),
        BooleanExpression::Value(false)
    );
}

#[test]
fn le() {
    let e_true = BooleanExpression::Le(Box::new(num(2)), Box::new(num(2)));
    let e_false = BooleanExpression::Le(Box::new(num(4)), Box::new(num(2)));

    assert_eq!(
        e_true.propagate(&Environment::new(), &no_functions()).unwrap(),
        BooleanExpression::Value(true)
    );
    assert_eq!(
        e_false.propagate(&Environment::new(), &no_functions()).unwrap(),
        BooleanExpression::Value(false)
    );
}

#[test]
fn gt() {
    let e_true = BooleanExpression::Gt(Box::new(num(5)), Box::new(num(4)));
    let e_false = BooleanExpression::Gt(Box::new(num(4)), Box::new(num(5)));

    assert_eq!(
        e_true.propagate(&Environment::new(), &no_functions()).unwrap(),
        BooleanExpression::Value(true)
    );
    assert_eq!(
        e_false.propagate(&Environment::new(), &no_functions()).unwrap(),
        BooleanExpression::Value(false)
    );
}

#[test]
fn ge() {
    let e_true = BooleanExpression::Ge(Box::new(num(5)), Box::new(num(5)));
    let e_false = BooleanExpression::Ge(Box::new(num(4)), Box::new(num(5)));

    assert_eq!(
        e_true.propagate(&Environment::new(), &no_functions()).unwrap(),
        BooleanExpression::Value(true)
    );
    assert_eq!(
        e_false.propagate(&Environment::new(), &no_functions()).unwrap(),
        BooleanExpression::Value(false)
    );
}
