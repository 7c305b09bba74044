use vstd::prelude::*;

verus! {

/// A name as written in the source text; used only as a lookup key.
#[derive(Debug)]
pub struct Ident(pub String);

/// The expression tree: each node owns its children.
#[derive(Debug)]
pub enum Expression {
    Number(i64),
    Ident(Ident),
    Add(Box<Expression>, Box<Expression>),
    Multiply(Box<Expression>, Box<Expression>),
    LessThan(Box<Expression>, Box<Expression>),
    And(Box<Expression>, Box<Expression>),
    Let { name: Ident, value: Box<Expression>, in_expr: Box<Expression> },
    If { condition: Box<Expression>, then_expr: Box<Expression>, else_expr: Box<Expression> },
}

} // verus!
