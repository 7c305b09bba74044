use letcircuit::ast::{Expression, Ident};
use letcircuit::builder::{BuildError, Builder};
use letcircuit::circuit::{compute_witness, Gate, FIELD_ORDER};

fn num(n: i64) -> Box<Expression> {
    Box::new(Expression::Number(n))
}

fn var(name: &str) -> Box<Expression> {
    Box::new(Expression::Ident(Ident(name.to_string())))
}

fn let_in(name: &str, value: Box<Expression>, in_expr: Box<Expression>) -> Box<Expression> {
    Box::new(Expression::Let { name: Ident(name.to_string()), value, in_expr })
}

fn if_then(
    condition: Box<Expression>,
    then_expr: Box<Expression>,
    else_expr: Box<Expression>,
) -> Box<Expression> {
    Box::new(Expression::If { condition, then_expr, else_expr })
}

/// Compiles `e` into a fresh builder and returns the output wire's value.
fn run(e: &Expression) -> u64 {
    let mut builder = Builder::new();
    let target = builder.build(e).unwrap();
    let values = compute_witness(builder.gates()).unwrap();
    values[target]
}

// let a = 1 in let b = 2 in if a < b && a then 1 else 0
fn worked_example() -> Box<Expression> {
    let_in(
        "a",
        num(1),
        let_in(
            "b",
            num(2),
            if_then(
                Box::new(Expression::And(
                    Box::new(Expression::LessThan(var("a"), var("b"))),
                    var("a"),
                )),
                num(1),
                num(0),
            ),
        ),
    )
}

#[test]
fn test() {
    let expr = worked_example();
    let mut builder = Builder::new();
    let target = builder.build(&expr).unwrap();
    let values = compute_witness(builder.gates()).unwrap();
    assert_eq!(values[target], 1);
}

#[test]
fn comparison_and_conjunction_select_then_branch() {
    assert_eq!(run(&worked_example()), 1);
}

#[test]
fn comparison_false_selects_else_branch() {
    // let a = 3 in let b = 2 in if a < b && a then 1 else 0
    let e = let_in(
        "a",
        num(3),
        let_in(
            "b",
            num(2),
            if_then(
                Box::new(Expression::And(
                    Box::new(Expression::LessThan(var("a"), var("b"))),
                    var("a"),
                )),
                num(1),
                num(0),
            ),
        ),
    );
    assert_eq!(run(&e), 0);
}

#[test]
fn arithmetic_under_condition() {
    // let a = 1 in let b = 2 in if a then a + a * b else 0
    let e = let_in(
        "a",
        num(1),
        let_in(
            "b",
            num(2),
            if_then(
                var("a"),
                Box::new(Expression::Add(var("a"), Box::new(Expression::Multiply(var("a"), var("b"))))),
                num(0),
            ),
        ),
    );
    assert_eq!(run(&e), 3);
}

#[test]
fn inner_let_shadows_outer() {
    // let a = 1 in let a = 2 in a
    let e = let_in("a", num(1), let_in("a", num(2), var("a")));
    let mut builder = Builder::new();
    let target = builder.build(&e).unwrap();
    assert_eq!(builder.gates()[target], Gate::Constant(2));
    assert_eq!(compute_witness(builder.gates()).unwrap()[target], 2);
}

#[test]
fn binding_persists_after_inner_let() {
    // let a = 1 in (let b = a in a): `a` still names the wire of 1
    let e = let_in("a", num(1), let_in("b", var("a"), var("a")));
    let mut builder = Builder::new();
    let target = builder.build(&e).unwrap();
    assert_eq!(target, 0);
    assert_eq!(builder.gates().len(), 1);
    assert_eq!(compute_witness(builder.gates()).unwrap()[target], 1);
}

#[test]
fn shadowing_is_not_restored() {
    // (let a = 1 in a) + (let a = 5 in 0) + a: the last `a` sees 5
    let e = Expression::Add(
        Box::new(Expression::Add(let_in("a", num(1), var("a")), let_in("a", num(5), num(0)))),
        var("a"),
    );
    assert_eq!(run(&e), 1 + 0 + 5);
}

#[test]
fn if_compiles_both_branches() {
    // if 1 then 2 + 3 else 4 * 5
    let e = if_then(
        num(1),
        Box::new(Expression::Add(num(2), num(3))),
        Box::new(Expression::Multiply(num(4), num(5))),
    );
    let mut builder = Builder::new();
    let target = builder.build(&e).unwrap();
    let gates = builder.gates();
    assert_eq!(gates.len(), 1 + 3 + 3 + 1);
    assert!(gates.contains(&Gate::Add(1, 2)));
    assert!(gates.contains(&Gate::Mul(4, 5)));
    assert_eq!(gates[target], Gate::Select(0, 3, 6));
    assert_eq!(compute_witness(gates).unwrap()[target], 5);
}

#[test]
fn compiling_twice_gives_the_same_gates() {
    let e = worked_example();
    let mut first = Builder::new();
    let mut second = Builder::new();
    let t1 = first.build(&e).unwrap();
    let t2 = second.build(&e).unwrap();
    assert_eq!(t1, t2);
    assert_eq!(first.gates(), second.gates());
}

#[test]
fn less_than_emits_two_hints() {
    let e = Expression::LessThan(num(7), num(3));
    let mut builder = Builder::new();
    let target = builder.build(&e).unwrap();
    assert_eq!(target, 2);
    assert_eq!(builder.gates()[2], Gate::LessHint(0, 1));
    assert_eq!(builder.gates()[3], Gate::GreaterHint(0, 1));
    let values = compute_witness(builder.gates()).unwrap();
    assert_eq!(values[2], 0);
    assert_eq!(values[3], 1);
}

#[test]
fn lt_on_equal_wires_gives_two_zeros() {
    let mut builder = Builder::new();
    let x = builder.build(&Expression::Number(4)).unwrap();
    let y = builder.build(&Expression::Number(4)).unwrap();
    let lt = builder.lt(x, y);
    let values = compute_witness(builder.gates()).unwrap();
    assert_eq!(values[lt], 0);
    assert_eq!(values[lt + 1], 0);
}

#[test]
fn unbound_identifier_is_reported() {
    let e = Expression::Add(num(1), var("zz"));
    let mut builder = Builder::new();
    match builder.build(&e) {
        Err(BuildError::UnboundIdentifier(name)) => assert_eq!(name, "zz"),
        other => panic!("unexpected result {:?}", other),
    }
}

#[test]
fn negative_literal_is_rejected() {
    let e = Expression::Multiply(num(2), num(-3));
    let mut builder = Builder::new();
    match builder.build(&e) {
        Err(BuildError::LiteralOutOfRange(n)) => assert_eq!(n, -3),
        other => panic!("unexpected result {:?}", other),
    }
}

#[test]
fn largest_literal_is_accepted() {
    assert_eq!(run(&Expression::Number(i64::MAX)), i64::MAX as u64);
}

#[test]
fn products_wrap_modulo_the_field_order() {
    // 2^62 * 4 = 2^64, which is 2^32 - 1 modulo 2^64 - 2^32 + 1
    let e = Expression::Multiply(num(1 << 62), num(4));
    assert_eq!(run(&e), (1u64 << 32) - 1);
}

#[test]
fn sums_wrap_modulo_the_field_order() {
    let e = Expression::Add(num(i64::MAX), Box::new(Expression::Add(num(i64::MAX), num(i64::MAX))));
    let expected = ((3 * (i64::MAX as u128)) % (FIELD_ORDER as u128)) as u64;
    assert_eq!(run(&e), expected);
}

#[test]
fn select_with_a_non_bit_condition_follows_the_formula() {
    // if 2 then 5 else 1: 2*5 - 2*1 + 1 = 9
    let e = if_then(num(2), num(5), num(1));
    assert_eq!(run(&e), 9);
}

#[test]
fn and_is_a_product() {
    let e = Expression::And(num(1), num(0));
    assert_eq!(run(&e), 0);
    let e = Expression::And(num(1), num(1));
    assert_eq!(run(&e), 1);
}

#[test]
fn malformed_gates_have_no_witness() {
    assert!(compute_witness(&vec![Gate::Add(0, 0)]).is_none());
    assert!(compute_witness(&vec![Gate::Constant(FIELD_ORDER)]).is_none());
    assert_eq!(compute_witness(&vec![]).unwrap(), Vec::<u64>::new());
}
