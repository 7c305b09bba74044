use letcircuit::ast::{Expression, Ident};
use letcircuit::builder::Builder;
use letcircuit::circuit::{compare, compute_witness};
use letcircuit::interpreter::Interpreter;

fn num(n: i64) -> Box<Expression> {
    Box::new(Expression::Number(n))
}

fn var(name: &str) -> Box<Expression> {
    Box::new(Expression::Ident(Ident(name.to_string())))
}

fn let_in(name: &str, value: Box<Expression>, in_expr: Box<Expression>) -> Box<Expression> {
    Box::new(Expression::Let { name: Ident(name.to_string()), value, in_expr })
}

// let a = 1 in let b = 2 in if a then a + a * b else 0
fn program() -> Box<Expression> {
    let_in(
        "a",
        num(1),
        let_in(
            "b",
            num(2),
            Box::new(Expression::If {
                condition: var("a"),
                then_expr: Box::new(Expression::Add(
                    var("a"),
                    Box::new(Expression::Multiply(var("a"), var("b"))),
                )),
                else_expr: num(0),
            }),
        ),
    )
}

#[test]
fn interpreter_evaluates_program() {
    let mut interpreter = Interpreter::new();
    assert_eq!(interpreter.interpret(&program()), 3);
}

#[test]
fn interpreter_takes_else_on_zero() {
    let e = Expression::If { condition: num(0), then_expr: num(7), else_expr: num(8) };
    assert_eq!(Interpreter::new().interpret(&e), 8);
    let e = Expression::If { condition: num(-4), then_expr: num(7), else_expr: num(8) };
    assert_eq!(Interpreter::new().interpret(&e), 7);
}

#[test]
fn interpreter_keeps_bindings_between_calls() {
    let mut interpreter = Interpreter::new();
    assert_eq!(interpreter.interpret(&let_in("x", num(6), var("x"))), 6);
    assert_eq!(interpreter.interpret(&Expression::Multiply(var("x"), num(7))), 42);
}

#[test]
fn interpreter_shadowing() {
    let e = let_in("a", num(1), let_in("a", num(2), var("a")));
    assert_eq!(Interpreter::new().interpret(&e), 2);
}

#[test]
fn circuit_agrees_with_interpreter() {
    let e = program();
    let mut builder = Builder::new();
    let target = builder.build(&e).unwrap();
    let values = compute_witness(builder.gates()).unwrap();
    assert_eq!(values[target] as i64, Interpreter::new().interpret(&e));
}

#[test]
fn compare_orders_residues() {
    assert_eq!(compare(1, 2), (true, false));
    assert_eq!(compare(2, 1), (false, true));
    assert_eq!(compare(5, 5), (false, false));
    assert_eq!(compare(0, u64::MAX), (true, false));
}
