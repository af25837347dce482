//! The statement-level behaviour of constant propagation: how definitions
//! fill, update and invalidate the environment.

use zokrates_core::environment::Environment;
use zokrates_core::error::Error;
use zokrates_core::field::FieldElement;
use zokrates_core::typed_absy::FieldElementArrayExpression;
use zokrates_core::typed_absy::FieldElementExpression;
use zokrates_core::typed_absy::TypedAssignee;
use zokrates_core::typed_absy::TypedExpression;
use zokrates_core::typed_absy::TypedFunction;
use zokrates_core::typed_absy::TypedStatement;
use zokrates_core::typed_absy::Variable;

fn num(n: u64) -> FieldElementExpression {
    FieldElementExpression::Number(FieldElement::from_u64(n))
}

fn no_functions() -> Vec<TypedFunction> {
    Vec::new()
}

#[test]
fn update_constant_array() {
    // field[2] a = [21, 22]
    // // the environment should store [21, 22]
    // a[1] = 42
    // // the environment should store [21, 42]

    let declaration = TypedStatement::Declaration(Variable::field_array("a".to_string(), 2));
    let definition = TypedStatement::Definition(
        TypedAssignee::Identifier(Variable::field_array("a".to_string(), 2)),
        TypedExpression::FieldElementArray(FieldElementArrayExpression::Value(
            2,
            vec![num(21), num(22)],
        )),
    );
    let overwrite = TypedStatement::Definition(
        TypedAssignee::ArrayElement(
            Box::new(TypedAssignee::Identifier(Variable::field_array(
                "a".to_string(),
                2,
            ))),
            Box::new(num(1)),
        ),
        TypedExpression::FieldElement(num(42)),
    );

    let mut env = Environment::new();
    let functions = no_functions();

    declaration.propagate(&mut env, &functions).unwrap();
    definition.propagate(&mut env, &functions).unwrap();

    let expected_value = TypedExpression::FieldElementArray(FieldElementArrayExpression::Value(
        2,
        vec![num(21), num(22)],
    ));
    assert_eq!(
        env.lookup(&TypedAssignee::Identifier(Variable::field_array(
            "a".to_string(),
            2
        ))),
        Some(expected_value)
    );

    overwrite.propagate(&mut env, &functions).unwrap();

    let expected_value = TypedExpression::FieldElementArray(FieldElementArrayExpression::Value(
        2,
        vec![num(21), num(42)],
    ));
    assert_eq!(
        env.lookup(&TypedAssignee::Identifier(Variable::field_array(
            "a".to_string(),
            2
        ))),
        Some(expected_value)
    );
}

#[test]
fn update_variable_array() {
    // An element write into an array that is not fully literal leaves no
    // binding behind: partially constant arrays are never stored.

    // a passed as input
    // // the environment should store nothing
    // a[1] = 42
    // // the environment should store nothing

    let declaration = TypedStatement::Declaration(Variable::field_array("a".to_string(), 2));
    let overwrite = TypedStatement::Definition(
        TypedAssignee::ArrayElement(
            Box::new(TypedAssignee::Identifier(Variable::field_array(
                "a".to_string(),
                2,
            ))),
            Box::new(num(1)),
        ),
        TypedExpression::FieldElement(num(42)),
    );

    let mut env = Environment::new();
    let functions = no_functions();

    declaration.propagate(&mut env, &functions).unwrap();
    overwrite.propagate(&mut env, &functions).unwrap();

    assert_eq!(
        env.lookup(&TypedAssignee::Identifier(Variable::field_array(
            "a".to_string(),
            2
        ))),
        None
    );
}

#[test]
fn select_out_of_bounds() {
    let e = FieldElementExpression::Select(
        Box::new(FieldElementArrayExpression::Value(1, vec![num(1)])),
        Box::new(num(5)),
    );

    assert_eq!(
        e.propagate(&Environment::new(), &no_functions()),
        Err(Error::OutOfBounds { index: 5, size: 1 })
    );
}

#[test]
fn for_loop_rejected() {
    let stmt = TypedStatement::For(
        Variable::field_element("i".to_string()),
        FieldElement::from_u64(0),
        FieldElement::from_u64(4),
        vec![],
    );

    let mut env = Environment::new();
    assert_eq!(
        stmt.propagate(&mut env, &no_functions()),
        Err(Error::LoopNotUnrolled)
    );
}

#[test]
fn mismatched_shape_rejected() {
    // x is bound as a field element, then read as a boolean: the stored
    // shape no longer fits the key's type.
    let bind = TypedStatement::Definition(
        TypedAssignee::Identifier(Variable::boolean("x".to_string())),
        TypedExpression::Boolean(zokrates_core::typed_absy::BooleanExpression::Value(true)),
    );
    let mut env = Environment::new();
    bind.propagate(&mut env, &no_functions()).unwrap();

    // A field-element x is a distinct key: it resolves to nothing.
    let as_field = FieldElementExpression::Identifier("x".to_string());
    assert_eq!(
        as_field.propagate(&env, &no_functions()).unwrap(),
        FieldElementExpression::Identifier("x".to_string())
    );

    // Reading the boolean x as a boolean resolves to the literal.
    let as_bool = zokrates_core::typed_absy::BooleanExpression::Identifier("x".to_string());
    assert_eq!(
        as_bool.propagate(&env, &no_functions()).unwrap(),
        zokrates_core::typed_absy::BooleanExpression::Value(true)
    );
}

#[test]
fn error_messages() {
    assert_eq!(
        Error::LoopNotUnrolled.message(),
        "for loop is unexpected, it should have been unrolled"
    );
    assert_eq!(
        Error::TypeInvariant.message(),
        "constants should only store constants"
    );
    assert_eq!(
        Error::OutOfBounds { index: 2, size: 1 }.message(),
        "out of bounds index found during static analysis"
    );
}

#[test]
fn select_through_bound_array() {
    // a = [7, 8] is absorbed; a[1] then resolves through the whole-array
    // binding.
    let definition = TypedStatement::Definition(
        TypedAssignee::Identifier(Variable::field_array("a".to_string(), 2)),
        TypedExpression::FieldElementArray(FieldElementArrayExpression::Value(
            2,
            vec![num(7), num(8)],
        )),
    );
    let mut env = Environment::new();
    definition.propagate(&mut env, &no_functions()).unwrap();

    let e = FieldElementExpression::Select(
        Box::new(FieldElementArrayExpression::Identifier(2, "a".to_string())),
        Box::new(num(1)),
    );
    assert_eq!(e.propagate(&env, &no_functions()).unwrap(), num(8));
}

#[test]
fn if_else_unknown_condition_propagates_both_arms() {
    let e = FieldElementExpression::IfElse(
        Box::new(zokrates_core::typed_absy::BooleanExpression::Identifier(
            "c".to_string(),
        )),
        Box::new(FieldElementExpression::Add(Box::new(num(1)), Box::new(num(1)))),
        Box::new(FieldElementExpression::Add(Box::new(num(2)), Box::new(num(2)))),
    );
    assert_eq!(
        e.propagate(&Environment::new(), &no_functions()).unwrap(),
        FieldElementExpression::IfElse(
            Box::new(zokrates_core::typed_absy::BooleanExpression::Identifier(
                "c".to_string()
            )),
            Box::new(num(2)),
            Box::new(num(4)),
        )
    );
}
