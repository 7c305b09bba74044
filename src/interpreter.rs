use vstd::prelude::*;

use crate::ast::Expression;

verus! {

pub open spec fn fits_i64(v: int) -> bool {
    i64::MIN <= v <= i64::MAX
}

/// Direct evaluation over the integers, with the same flat table of bindings
/// as the compiler: a `let` overwrites its name for the rest of the run. An
/// `If` takes its `then` branch on a nonzero condition and evaluates only the
/// branch it takes. `None` where a name is unbound, where an intermediate
/// result leaves `i64`, and on `LessThan` and `And`, which the evaluator does
/// not give a meaning.
pub open spec fn eval(e: Expression, env: Map<Seq<char>, int>) -> Option<(Map<Seq<char>, int>, int)>
    decreases e,
{
    match e {
        Expression::Number(n) => Some((env, n as int)),
        Expression::Ident(id) => {
            if env.contains_key(id.0@) {
                Some((env, env[id.0@]))
            } else {
                None
            }
        },
        Expression::Add(a, b) => match eval(*a, env) {
            None => None,
            Some((e1, x)) => match eval(*b, e1) {
                None => None,
                Some((e2, y)) => if fits_i64(x + y) {
                    Some((e2, x + y))
                } else {
                    None
                },
            },
        },
        Expression::Multiply(a, b) => match eval(*a, env) {
            None => None,
            Some((e1, x)) => match eval(*b, e1) {
                None => None,
                Some((e2, y)) => if fits_i64(x * y) {
                    Some((e2, x * y))
                } else {
                    None
                },
            },
        },
        Expression::LessThan(_, _) => None,
        Expression::And(_, _) => None,
        Expression::Let { name, value, in_expr } => match eval(*value, env) {
            None => None,
            Some((e1, v)) => eval(*in_expr, e1.insert(name.0@, v)),
        },
        Expression::If { condition, then_expr, else_expr } => match eval(*condition, env) {
            None => None,
            Some((e1, c)) => if c != 0 {
                eval(*then_expr, e1)
            } else {
                eval(*else_expr, e1)
            },
        },
    }
}

/// The table that a list of bindings describes: a later binding of a name
/// overrides an earlier one.
pub open spec fn variables_of(s: Seq<(String, i64)>) -> Map<Seq<char>, int>
    decreases s.len(),
{
    if s.len() == 0 {
        Map::empty()
    } else {
        variables_of(s.drop_last()).insert(s.last().0@, s.last().1 as int)
    }
}

/// A tree-walking evaluator, the reference against which circuits are checked.
pub struct Interpreter {
    variables: Vec<(String, i64)>,
}

impl Interpreter {
    pub closed spec fn env(&self) -> Map<Seq<char>, int> {
        variables_of(self.variables@)
    }

    pub fn new() -> (r: Self)
        ensures
            r.env() == Map::<Seq<char>, int>::empty(),
    {
        Interpreter { variables: Vec::new() }
    }

    fn lookup(&self, name: &String) -> (r: Option<i64>)
        ensures
            r.is_some() == self.env().contains_key(name@),
            r.is_some() ==> r.unwrap() as int == self.env()[name@],
    {
        let mut i: usize = self.variables.len();
        assert(self.variables@.subrange(0, i as int) =~= self.variables@);
        while i > 0
            invariant
                i <= self.variables@.len(),
                variables_of(self.variables@).contains_key(name@) == variables_of(
                    self.variables@.subrange(0, i as int),
                ).contains_key(name@),
                variables_of(self.variables@).contains_key(name@) ==> variables_of(
                    self.variables@,
                )[name@] == variables_of(self.variables@.subrange(0, i as int))[name@],
            decreases i,
        {
            assert(self.variables@.subrange(0, i as int).drop_last() =~= self.variables@.subrange(
                0,
                i - 1,
            ));
            if self.variables[i - 1].0 == *name {
                return Some(self.variables[i - 1].1);
            }
            i -= 1;
        }
        assert(self.variables@.subrange(0, 0) =~= Seq::<(String, i64)>::empty());
        None
    }

    /// Evaluates `expr`, leaving every binding it made in the table.
    pub fn interpret(&mut self, expr: &Expression) -> (r: i64)
        requires
            eval(*expr, old(self).env()) is Some,
        ensures
            r as int == eval(*expr, old(self).env())->Some_0.1,
            final(self).env() == eval(*expr, old(self).env())->Some_0.0,
        decreases expr,
    {
        match expr {
            Expression::Number(n) => *n,
            Expression::Ident(id) => self.lookup(&id.0).unwrap(),
            Expression::Add(a, b) => {
                let x = self.interpret(a);
                let y = self.interpret(b);
                x + y
            },
            Expression::Multiply(a, b) => {
                let x = self.interpret(a);
                let y = self.interpret(b);
                x * y
            },
            Expression::Let { name, value, in_expr } => {
                let v = self.interpret(value);
                let ghost before = self.variables@;
                self.variables.push((name.0.clone(), v));
                assert(self.variables@.drop_last() =~= before);
                self.interpret(in_expr)
            },
            Expression::If { condition, then_expr, else_expr } => {
                if self.interpret(condition) != 0 {
                    self.interpret(then_expr)
                } else {
                    self.interpret(else_expr)
                }
            },
            Expression::LessThan(_, _) | Expression::And(_, _) => {
                proof {
                    assert(eval(*expr, old(self).env()) is None);
                }
                0
            },
        }
    }
}

} // verus!
