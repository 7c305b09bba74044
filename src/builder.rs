use vstd::prelude::*;

use crate::ast::{Expression, Ident};
use crate::circuit::{Gate, Wire};

verus! {

/// Why a compilation stopped, as the contracts speak of it.
pub enum Fault {
    Unbound(Seq<char>),
    OutOfRange(i64),
}

/// Why a compilation stopped. No partial circuit is usable after one of these.
#[derive(Debug)]
pub enum BuildError {
    /// A name that no `let` compiled so far has bound.
    UnboundIdentifier(String),
    /// A negative literal: it has no canonical residue of the same integer value.
    LiteralOutOfRange(i64),
}

impl View for BuildError {
    type V = Fault;

    open spec fn view(&self) -> Fault {
        match self {
            BuildError::UnboundIdentifier(s) => Fault::Unbound(s@),
            BuildError::LiteralOutOfRange(n) => Fault::OutOfRange(*n),
        }
    }
}

/// What a compilation has produced so far: the gates, and the flat table from
/// names to wires. A `let` overwrites the binding of its name for the rest of
/// the compilation; nothing ever restores an earlier one.
pub struct CompileState {
    pub gates: Seq<Gate>,
    pub env: Map<Seq<char>, nat>,
}

pub open spec fn empty_state() -> CompileState {
    CompileState { gates: Seq::empty(), env: Map::empty() }
}

/// Appends one gate; its wire is the index it takes.
pub open spec fn emit(st: CompileState, g: Gate) -> (CompileState, nat) {
    (CompileState { gates: st.gates.push(g), env: st.env }, st.gates.len())
}

/// The circuit that compiling `e` adds to `st`, and the wire that carries the
/// value of `e`. Operands are compiled left to right, and both branches of an
/// `If` are always compiled.
pub open spec fn compile(e: Expression, st: CompileState) -> Result<(CompileState, nat), Fault>
    decreases e,
{
    match e {
        Expression::Number(n) => {
            if n < 0 {
                Err(Fault::OutOfRange(n))
            } else {
                Ok(emit(st, Gate::Constant(n as u64)))
            }
        },
        Expression::Ident(id) => {
            if st.env.contains_key(id.0@) {
                Ok((st, st.env[id.0@]))
            } else {
                Err(Fault::Unbound(id.0@))
            }
        },
        Expression::Add(a, b) => match compile(*a, st) {
            Err(f) => Err(f),
            Ok((s1, x)) => match compile(*b, s1) {
                Err(f) => Err(f),
                Ok((s2, y)) => Ok(emit(s2, Gate::Add(x as usize, y as usize))),
            },
        },
        Expression::Multiply(a, b) => match compile(*a, st) {
            Err(f) => Err(f),
            Ok((s1, x)) => match compile(*b, s1) {
                Err(f) => Err(f),
                Ok((s2, y)) => Ok(emit(s2, Gate::Mul(x as usize, y as usize))),
            },
        },
        Expression::LessThan(a, b) => match compile(*a, st) {
            Err(f) => Err(f),
            Ok((s1, x)) => match compile(*b, s1) {
                Err(f) => Err(f),
                Ok((s2, y)) => {
                    let (s3, lt) = emit(s2, Gate::LessHint(x as usize, y as usize));
                    Ok((emit(s3, Gate::GreaterHint(x as usize, y as usize)).0, lt))
                },
            },
        },
        Expression::And(a, b) => match compile(*a, st) {
            Err(f) => Err(f),
            Ok((s1, x)) => match compile(*b, s1) {
                Err(f) => Err(f),
                Ok((s2, y)) => Ok(emit(s2, Gate::And(x as usize, y as usize))),
            },
        },
        Expression::Let { name, value, in_expr } => match compile(*value, st) {
            Err(f) => Err(f),
            Ok((s1, v)) => compile(
                *in_expr,
                CompileState { gates: s1.gates, env: s1.env.insert(name.0@, v) },
            ),
        },
        Expression::If { condition, then_expr, else_expr } => match compile(*condition, st) {
            Err(f) => Err(f),
            Ok((s1, c)) => match compile(*then_expr, s1) {
                Err(f) => Err(f),
                Ok((s2, t)) => match compile(*else_expr, s2) {
                    Err(f) => Err(f),
                    Ok((s3, x)) => Ok(emit(s3, Gate::Select(c as usize, t as usize, x as usize))),
                },
            },
        },
    }
}

/// The table that a list of bindings describes: a later binding of a name
/// overrides an earlier one.
pub open spec fn table(s: Seq<(String, Wire)>) -> Map<Seq<char>, nat>
    decreases s.len(),
{
    if s.len() == 0 {
        Map::empty()
    } else {
        table(s.drop_last()).insert(s.last().0@, s.last().1 as nat)
    }
}

/// Compiles expressions into one circuit, threading the table of bindings.
pub struct Builder {
    gates: Vec<Gate>,
    targets: Vec<(String, Wire)>,
}

impl Builder {
    pub closed spec fn state(&self) -> CompileState {
        CompileState { gates: self.gates@, env: table(self.targets@) }
    }

    pub fn new() -> (r: Self)
        ensures
            r.state() == empty_state(),
    {
        let r = Builder { gates: Vec::new(), targets: Vec::new() };
        assert(r.state().gates =~= empty_state().gates);
        assert(r.state().env =~= empty_state().env);
        r
    }

    /// The gates emitted so far; wire `i` is the output of gate `i`.
    pub fn gates(&self) -> (r: &Vec<Gate>)
        ensures
            r@ == self.state().gates,
    {
        &self.gates
    }

    fn emit(&mut self, g: Gate) -> (r: Wire)
        ensures
            final(self).state() == emit(old(self).state(), g).0,
            r as nat == emit(old(self).state(), g).1,
    {
        let r = self.gates.len();
        self.gates.push(g);
        r
    }

    fn lookup(&self, name: &String) -> (r: Option<Wire>)
        ensures
            r.is_some() == self.state().env.contains_key(name@),
            r.is_some() ==> r.unwrap() as nat == self.state().env[name@],
    {
        let mut i: usize = self.targets.len();
        assert(self.targets@.subrange(0, i as int) =~= self.targets@);
        while i > 0
            invariant
                i <= self.targets@.len(),
                table(self.targets@).contains_key(name@) == table(
                    self.targets@.subrange(0, i as int),
                ).contains_key(name@),
                table(self.targets@).contains_key(name@) ==> table(self.targets@)[name@] == table(
                    self.targets@.subrange(0, i as int),
                )[name@],
            decreases i,
        {
            assert(self.targets@.subrange(0, i as int).drop_last() =~= self.targets@.subrange(
                0,
                i - 1,
            ));
            if self.targets[i - 1].0 == *name {
                return Some(self.targets[i - 1].1);
            }
            i -= 1;
        }
        assert(self.targets@.subrange(0, 0) =~= Seq::<(String, Wire)>::empty());
        None
    }

    fn bind(&mut self, name: &Ident, w: Wire)
        ensures
            final(self).state() == (CompileState {
                gates: old(self).state().gates,
                env: old(self).state().env.insert(name.0@, w as nat),
            }),
    {
        self.targets.push((name.0.clone(), w));
        assert(self.targets@.drop_last() =~= old(self).targets@);
    }

    /// Two fresh boolean wires, `lt` and `gt`, filled in at witness time by
    /// comparing the residues on `x` and `y`; returns `lt`. Nothing constrains
    /// them arithmetically (see `Gate`).
    pub fn lt(&mut self, x: Wire, y: Wire) -> (r: Wire)
        ensures
            final(self).state() == emit(
                emit(old(self).state(), Gate::LessHint(x, y)).0,
                Gate::GreaterHint(x, y),
            ).0,
            r as nat == old(self).state().gates.len(),
    {
        let lt = self.emit(Gate::LessHint(x, y));
        self.emit(Gate::GreaterHint(x, y));
        lt
    }

    /// Compiles `expr` into the circuit and returns the wire that carries its value.
    pub fn build(&mut self, expr: &Expression) -> (r: Result<Wire, BuildError>)
        ensures
            match compile(*expr, old(self).state()) {
                Ok((st, w)) => r is Ok && r->Ok_0 as nat == w && final(self).state() == st,
                Err(f) => r is Err && r->Err_0@ == f,
            },
        decreases expr,
    {
        match expr {
            Expression::Number(n) => {
                if *n < 0 {
                    return Err(BuildError::LiteralOutOfRange(*n));
                }
                Ok(self.emit(Gate::Constant(*n as u64)))
            },
            Expression::Ident(id) => match self.lookup(&id.0) {
                Some(w) => Ok(w),
                None => Err(BuildError::UnboundIdentifier(id.0.clone())),
            },
            Expression::Add(a, b) => {
                let x = match self.build(a) {
                    Ok(x) => x,
                    Err(e) => return Err(e),
                };
                let y = match self.build(b) {
                    Ok(y) => y,
                    Err(e) => return Err(e),
                };
                Ok(self.emit(Gate::Add(x, y)))
            },
            Expression::Multiply(a, b) => {
                let x = match self.build(a) {
                    Ok(x) => x,
                    Err(e) => return Err(e),
                };
                let y = match self.build(b) {
                    Ok(y) => y,
                    Err(e) => return Err(e),
                };
                Ok(self.emit(Gate::Mul(x, y)))
            },
            Expression::LessThan(a, b) => {
                let x = match self.build(a) {
                    Ok(x) => x,
                    Err(e) => return Err(e),
                };
                let y = match self.build(b) {
                    Ok(y) => y,
                    Err(e) => return Err(e),
                };
                Ok(self.lt(x, y))
            },
            Expression::And(a, b) => {
                let x = match self.build(a) {
                    Ok(x) => x,
                    Err(e) => return Err(e),
                };
                let y = match self.build(b) {
                    Ok(y) => y,
                    Err(e) => return Err(e),
                };
                Ok(self.emit(Gate::And(x, y)))
            },
            Expression::Let { name, value, in_expr } => {
                let v = match self.build(value) {
                    Ok(v) => v,
                    Err(e) => return Err(e),
                };
                self.bind(name, v);
                self.build(in_expr)
            },
            Expression::If { condition, then_expr, else_expr } => {
                let c = match self.build(condition) {
                    Ok(c) => c,
                    Err(e) => return Err(e),
                };
                let t = match self.build(then_expr) {
                    Ok(t) => t,
                    Err(e) => return Err(e),
                };
                let x = match self.build(else_expr) {
                    Ok(x) => x,
                    Err(e) => return Err(e),
                };
                Ok(self.emit(Gate::Select(c, t, x)))
            },
        }
    }
}

} // verus!
