//! Whole-program propagation: literal definitions are absorbed, reads are
//! rewritten, calls stay opaque, and running the pass twice changes nothing.

use zokrates_core::component::make_sha256_instance;
use zokrates_core::field::FieldElement;
use zokrates_core::proof_system::ZkInterface;
use zokrates_core::typed_absy::FieldElementArrayExpression;
use zokrates_core::typed_absy::FieldElementExpression;
use zokrates_core::typed_absy::Type;
use zokrates_core::typed_absy::TypedAssignee;
use zokrates_core::typed_absy::TypedExpression;
use zokrates_core::typed_absy::TypedFunction;
use zokrates_core::typed_absy::TypedProg;
use zokrates_core::typed_absy::TypedStatement;
use zokrates_core::typed_absy::Variable;

fn num(n: u64) -> FieldElementExpression {
    FieldElementExpression::Number(FieldElement::from_u64(n))
}

fn main_function(statements: Vec<TypedStatement>) -> TypedFunction {
    TypedFunction {
        id: "main".to_string(),
        arguments: vec![Variable::field_element("input".to_string())],
        returns: vec![Type::FieldElement],
        statements,
    }
}

fn literal_then_return() -> TypedProg {
    // def main(input): x = 3; return x + 2
    TypedProg {
        functions: vec![main_function(vec![
            TypedStatement::Definition(
                TypedAssignee::Identifier(Variable::field_element("x".to_string())),
                TypedExpression::FieldElement(num(3)),
            ),
            TypedStatement::Return(vec![TypedExpression::FieldElement(
                FieldElementExpression::Add(
                    Box::new(FieldElementExpression::Identifier("x".to_string())),
                    Box::new(num(2)),
                ),
            )]),
        ])],
    }
}

#[test]
fn literal_definitions_are_absorbed() {
    let out = literal_then_return().propagate().unwrap();
    assert_eq!(
        out.functions[0].statements,
        vec![TypedStatement::Return(vec![TypedExpression::FieldElement(
            num(5)
        )])]
    );
}

#[test]
fn propagation_is_idempotent_on_programs() {
    let once = literal_then_return().propagate().unwrap();
    let twice = literal_then_return()
        .propagate()
        .unwrap()
        .propagate()
        .unwrap();
    assert_eq!(once, twice);
}

#[test]
fn calls_stay_opaque() {
    // return f(2 + 3): the call keeps its name and arity, the argument folds.
    let prog = TypedProg {
        functions: vec![main_function(vec![TypedStatement::Return(vec![
            TypedExpression::FieldElement(FieldElementExpression::FunctionCall(
                "f".to_string(),
                vec![TypedExpression::FieldElement(FieldElementExpression::Add(
                    Box::new(num(2)),
                    Box::new(num(3)),
                ))],
            )),
        ])])],
    };
    let out = prog.propagate().unwrap();
    assert_eq!(
        out.functions[0].statements,
        vec![TypedStatement::Return(vec![TypedExpression::FieldElement(
            FieldElementExpression::FunctionCall(
                "f".to_string(),
                vec![TypedExpression::FieldElement(num(5))]
            )
        )])]
    );
}

#[test]
fn array_shape_is_preserved() {
    // y = [input + 1, 2]: not fully literal, so the definition is emitted
    // with its size and element count intact.
    let prog = TypedProg {
        functions: vec![main_function(vec![TypedStatement::Definition(
            TypedAssignee::Identifier(Variable::field_array("y".to_string(), 2)),
            TypedExpression::FieldElementArray(FieldElementArrayExpression::Value(
                2,
                vec![
                    FieldElementExpression::Add(
                        Box::new(FieldElementExpression::Identifier("input".to_string())),
                        Box::new(num(1)),
                    ),
                    num(2),
                ],
            )),
        )])],
    };
    let out = prog.propagate().unwrap();
    match &out.functions[0].statements[0] {
        TypedStatement::Definition(_, TypedExpression::FieldElementArray(
            FieldElementArrayExpression::Value(size, elems),
        )) => {
            assert_eq!(*size, 2);
            assert_eq!(elems.len(), 2);
        }
        other => panic!("unexpected statement: {:?}", other),
    }
}

#[test]
fn unknown_inputs_are_left_in_place() {
    // return input + (2 + 3): the literal pair folds, the unknown input
    // stays, so the program still computes input + 5.
    let prog = TypedProg {
        functions: vec![main_function(vec![TypedStatement::Return(vec![
            TypedExpression::FieldElement(FieldElementExpression::Add(
                Box::new(FieldElementExpression::Identifier("input".to_string())),
                Box::new(FieldElementExpression::Add(
                    Box::new(num(2)),
                    Box::new(num(3)),
                )),
            )),
        ])])],
    };
    let out = prog.propagate().unwrap();
    assert_eq!(
        out.functions[0].statements,
        vec![TypedStatement::Return(vec![TypedExpression::FieldElement(
            FieldElementExpression::Add(
                Box::new(FieldElementExpression::Identifier("input".to_string())),
                Box::new(num(5)),
            )
        )])]
    );
}

#[test]
fn empty_program() {
    let prog = TypedProg { functions: vec![] };
    assert_eq!(prog.propagate().unwrap(), TypedProg { functions: vec![] });
}

#[test]
fn sha256_instance_description() {
    let d = make_sha256_instance();
    assert_eq!(d.gadget_name, "sha256");
    assert_eq!(d.incoming_variable_ids, vec![1, 2]);
    assert_eq!(d.outgoing_variable_ids, Some(vec![3]));
    assert_eq!(d.free_variable_id_before, 4);
    assert_eq!(d.field_order, None);
}

#[test]
fn backend_handle() {
    assert_eq!(ZkInterface::new(), ZkInterface {});
}
