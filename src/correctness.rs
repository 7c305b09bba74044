use vstd::prelude::*;

use vstd::arithmetic::div_mod::{
    lemma_add_mod_noop,
    lemma_mod_bound,
    lemma_mod_twice,
    lemma_mul_mod_noop_general,
    lemma_small_mod,
};

use crate::ast::Expression;
use crate::builder::{compile, emit, empty_state, CompileState, Fault};
use crate::circuit::{gate_value, lemma_witness_prefix, modulus, witness, Gate};
use crate::interpreter::eval;

verus! {

/// Gates that compiling an expression adds. It depends on the shape of the
/// tree alone: both branches of an `If` always count.
pub open spec fn gate_count(e: Expression) -> nat
    decreases e,
{
    match e {
        Expression::Number(_) => 1,
        Expression::Ident(_) => 0,
        Expression::Add(a, b) => gate_count(*a) + gate_count(*b) + 1,
        Expression::Multiply(a, b) => gate_count(*a) + gate_count(*b) + 1,
        Expression::And(a, b) => gate_count(*a) + gate_count(*b) + 1,
        Expression::LessThan(a, b) => gate_count(*a) + gate_count(*b) + 2,
        Expression::Let { name, value, in_expr } => gate_count(*value) + gate_count(*in_expr),
        Expression::If { condition, then_expr, else_expr } => gate_count(*condition) + gate_count(
            *then_expr,
        ) + gate_count(*else_expr) + 1,
    }
}

/// The expression holds no `Let`.
pub open spec fn let_free(e: Expression) -> bool
    decreases e,
{
    match e {
        Expression::Number(_) => true,
        Expression::Ident(_) => true,
        Expression::Add(a, b) => let_free(*a) && let_free(*b),
        Expression::Multiply(a, b) => let_free(*a) && let_free(*b),
        Expression::And(a, b) => let_free(*a) && let_free(*b),
        Expression::LessThan(a, b) => let_free(*a) && let_free(*b),
        Expression::Let { .. } => false,
        Expression::If { condition, then_expr, else_expr } => let_free(*condition) && let_free(
            *then_expr,
        ) && let_free(*else_expr),
    }
}

/// No branch of an `If` holds a `Let`. With a flat table, a binding made in a
/// branch would reach code after it even where the evaluator skipped that branch.
pub open spec fn branches_let_free(e: Expression) -> bool
    decreases e,
{
    match e {
        Expression::Number(_) => true,
        Expression::Ident(_) => true,
        Expression::Add(a, b) => branches_let_free(*a) && branches_let_free(*b),
        Expression::Multiply(a, b) => branches_let_free(*a) && branches_let_free(*b),
        Expression::And(a, b) => branches_let_free(*a) && branches_let_free(*b),
        Expression::LessThan(a, b) => branches_let_free(*a) && branches_let_free(*b),
        Expression::Let { name, value, in_expr } => branches_let_free(*value) && branches_let_free(
            *in_expr,
        ),
        Expression::If { condition, then_expr, else_expr } => branches_let_free(*condition)
            && let_free(*then_expr) && let_free(*else_expr),
    }
}

/// Every `If` condition that the evaluator reaches is 0 or 1: the select gate
/// treats its condition as a bit without constraining it.
pub open spec fn bit_conditions(e: Expression, env: Map<Seq<char>, int>) -> bool
    decreases e,
{
    match e {
        Expression::Add(a, b) => bit_conditions(*a, env) && match eval(*a, env) {
            Some((e1, _)) => bit_conditions(*b, e1),
            None => true,
        },
        Expression::Multiply(a, b) => bit_conditions(*a, env) && match eval(*a, env) {
            Some((e1, _)) => bit_conditions(*b, e1),
            None => true,
        },
        Expression::Let { name, value, in_expr } => bit_conditions(*value, env) && match eval(
            *value,
            env,
        ) {
            Some((e1, v)) => bit_conditions(*in_expr, e1.insert(name.0@, v)),
            None => true,
        },
        Expression::If { condition, then_expr, else_expr } => bit_conditions(*condition, env)
            && match eval(*condition, env) {
            Some((e1, c)) => (c == 0 || c == 1) && if c != 0 {
                bit_conditions(*then_expr, e1)
            } else {
                bit_conditions(*else_expr, e1)
            },
            None => true,
        },
        _ => true,
    }
}

/// Every bound name points at an existing wire.
pub open spec fn wires_in_range(st: CompileState) -> bool {
    forall|n: Seq<char>| #[trigger] st.env.contains_key(n) ==> st.env[n] < st.gates.len()
}

/// `st2` holds the gates of `st` as its first gates.
pub open spec fn extends(st: CompileState, st2: CompileState) -> bool {
    st.gates.len() <= st2.gates.len() && st2.gates.subrange(0, st.gates.len() as int) == st.gates
}

/// The compiler's table and the evaluator's table bind the same names, and
/// each wire carries the residue of the evaluator's value.
pub open spec fn agrees(st: CompileState, env: Map<Seq<char>, int>) -> bool {
    &&& st.env.dom() == env.dom()
    &&& wires_in_range(st)
    &&& forall|n: Seq<char>| #[trigger]
        st.env.contains_key(n) ==> witness(st.gates)[st.env[n] as int] == env[n] % modulus()
}

proof fn lemma_emit(st: CompileState, g: Gate)
    ensures
        extends(st, emit(st, g).0),
        emit(st, g).0.env == st.env,
        emit(st, g).0.gates.len() == st.gates.len() + 1,
        witness(emit(st, g).0.gates) == witness(st.gates).push(gate_value(g, witness(st.gates))),
        wires_in_range(st) ==> wires_in_range(emit(st, g).0),
        witness(st.gates).len() == st.gates.len(),
{
    lemma_witness_prefix(st.gates, 0);
    assert(st.gates.push(g).subrange(0, st.gates.len() as int) =~= st.gates);
    assert(st.gates.push(g).drop_last() =~= st.gates);
}

proof fn lemma_extends_trans(a: CompileState, b: CompileState, c: CompileState)
    requires
        extends(a, b),
        extends(b, c),
    ensures
        extends(a, c),
{
    assert(c.gates.subrange(0, a.gates.len() as int) =~= c.gates.subrange(
        0,
        b.gates.len() as int,
    ).subrange(0, a.gates.len() as int));
}

proof fn lemma_witness_kept(st: CompileState, st2: CompileState, k: int)
    requires
        extends(st, st2),
        0 <= k < st.gates.len(),
    ensures
        witness(st2.gates)[k] == witness(st.gates)[k],
        witness(st.gates).len() == st.gates.len(),
{
    lemma_witness_prefix(st2.gates, st.gates.len() as int);
    lemma_witness_prefix(st.gates, st.gates.len() as int);
}

proof fn lemma_agrees_kept(st: CompileState, st2: CompileState, env: Map<Seq<char>, int>)
    requires
        agrees(st, env),
        extends(st, st2),
        st2.env == st.env,
    ensures
        agrees(st2, env),
{
    assert forall|n: Seq<char>| #[trigger] st2.env.contains_key(n) implies witness(st2.gates)[st2.env[n] as int]
        == env[n] % modulus() by {
        lemma_witness_kept(st, st2, st.env[n] as int);
    }
}

/// Compiling only appends gates; how many depends on the shape of the tree
/// alone, so an `If` holds the gates of both branches whatever its condition;
/// the wires it returns and binds exist; and an expression without `Let`
/// leaves the table as it was.
pub proof fn lemma_compile_extends(e: Expression, st: CompileState)
    ensures
        compile(e, st) is Ok ==> ({
            let (st2, w) = compile(e, st)->Ok_0;
            &&& extends(st, st2)
            &&& st2.gates.len() == st.gates.len() + gate_count(e)
            &&& (wires_in_range(st) ==> wires_in_range(st2) && w < st2.gates.len())
            &&& (let_free(e) ==> st2.env == st.env)
        }),
    decreases e,
{
    match e {
        Expression::Number(n) => {
            lemma_emit(st, Gate::Constant(n as u64));
        },
        Expression::Ident(_) => {
            assert(st.gates.subrange(0, st.gates.len() as int) =~= st.gates);
        },
        Expression::Add(a, b) => {
            lemma_compile_extends(*a, st);
            if let Ok((s1, x)) = compile(*a, st) {
                lemma_compile_extends(*b, s1);
                if let Ok((s2, y)) = compile(*b, s1) {
                    lemma_emit(s2, Gate::Add(x as usize, y as usize));
                    lemma_extends_trans(st, s1, s2);
                    lemma_extends_trans(st, s2, emit(s2, Gate::Add(x as usize, y as usize)).0);
                }
            }
        },
        Expression::Multiply(a, b) => {
            lemma_compile_extends(*a, st);
            if let Ok((s1, x)) = compile(*a, st) {
                lemma_compile_extends(*b, s1);
                if let Ok((s2, y)) = compile(*b, s1) {
                    lemma_emit(s2, Gate::Mul(x as usize, y as usize));
                    lemma_extends_trans(st, s1, s2);
                    lemma_extends_trans(st, s2, emit(s2, Gate::Mul(x as usize, y as usize)).0);
                }
            }
        },
        Expression::And(a, b) => {
            lemma_compile_extends(*a, st);
            if let Ok((s1, x)) = compile(*a, st) {
                lemma_compile_extends(*b, s1);
                if let Ok((s2, y)) = compile(*b, s1) {
                    lemma_emit(s2, Gate::And(x as usize, y as usize));
                    lemma_extends_trans(st, s1, s2);
                    lemma_extends_trans(st, s2, emit(s2, Gate::And(x as usize, y as usize)).0);
                }
            }
        },
        Expression::LessThan(a, b) => {
            lemma_compile_extends(*a, st);
            if let Ok((s1, x)) = compile(*a, st) {
                lemma_compile_extends(*b, s1);
                if let Ok((s2, y)) = compile(*b, s1) {
                    let s3 = emit(s2, Gate::LessHint(x as usize, y as usize)).0;
                    lemma_emit(s2, Gate::LessHint(x as usize, y as usize));
                    lemma_emit(s3, Gate::GreaterHint(x as usize, y as usize));
                    lemma_extends_trans(st, s1, s2);
                    lemma_extends_trans(st, s2, s3);
                    lemma_extends_trans(
                        st,
                        s3,
                        emit(s3, Gate::GreaterHint(x as usize, y as usize)).0,
                    );
                }
            }
        },
        Expression::Let { name, value, in_expr } => {
            lemma_compile_extends(*value, st);
            if let Ok((s1, v)) = compile(*value, st) {
                let s1b = CompileState { gates: s1.gates, env: s1.env.insert(name.0@, v) };
                lemma_compile_extends(*in_expr, s1b);
                if let Ok((s2, w)) = compile(*in_expr, s1b) {
                    lemma_extends_trans(st, s1b, s2);
                }
            }
        },
        Expression::If { condition, then_expr, else_expr } => {
            lemma_compile_extends(*condition, st);
            if let Ok((s1, c)) = compile(*condition, st) {
                lemma_compile_extends(*then_expr, s1);
                if let Ok((s2, t)) = compile(*then_expr, s1) {
                    lemma_compile_extends(*else_expr, s2);
                    if let Ok((s3, x)) = compile(*else_expr, s2) {
                        let g = Gate::Select(c as usize, t as usize, x as usize);
                        lemma_emit(s3, g);
                        lemma_extends_trans(st, s1, s2);
                        lemma_extends_trans(st, s2, s3);
                        lemma_extends_trans(st, s3, emit(s3, g).0);
                    }
                }
            }
        },
    }
}

proof fn lemma_eval_let_free(e: Expression, env: Map<Seq<char>, int>)
    requires
        let_free(e),
        eval(e, env) is Some,
    ensures
        eval(e, env)->Some_0.0 == env,
    decreases e,
{
    match e {
        Expression::Add(a, b) => {
            lemma_eval_let_free(*a, env);
            lemma_eval_let_free(*b, env);
        },
        Expression::Multiply(a, b) => {
            lemma_eval_let_free(*a, env);
            lemma_eval_let_free(*b, env);
        },
        Expression::If { condition, then_expr, else_expr } => {
            lemma_eval_let_free(*condition, env);
            if eval(*condition, env)->Some_0.1 != 0 {
                lemma_eval_let_free(*then_expr, env);
            } else {
                lemma_eval_let_free(*else_expr, env);
            }
        },
        _ => {},
    }
}

proof fn lemma_let_free_branches(e: Expression)
    requires
        let_free(e),
    ensures
        branches_let_free(e),
    decreases e,
{
    match e {
        Expression::Add(a, b) => {
            lemma_let_free_branches(*a);
            lemma_let_free_branches(*b);
        },
        Expression::Multiply(a, b) => {
            lemma_let_free_branches(*a);
            lemma_let_free_branches(*b);
        },
        Expression::And(a, b) => {
            lemma_let_free_branches(*a);
            lemma_let_free_branches(*b);
        },
        Expression::LessThan(a, b) => {
            lemma_let_free_branches(*a);
            lemma_let_free_branches(*b);
        },
        Expression::If { condition, then_expr, else_expr } => {
            lemma_let_free_branches(*condition);
        },
        _ => {},
    }
}

proof fn lemma_agrees_bind(
    st: CompileState,
    env: Map<Seq<char>, int>,
    name: Seq<char>,
    w: nat,
    v: int,
)
    requires
        agrees(st, env),
        w < st.gates.len(),
        witness(st.gates)[w as int] == v % modulus(),
    ensures
        agrees(CompileState { gates: st.gates, env: st.env.insert(name, w) }, env.insert(name, v)),
{
    let st2 = CompileState { gates: st.gates, env: st.env.insert(name, w) };
    assert(st2.env.dom() =~= env.insert(name, v).dom());
}

/// For expressions of numbers, names, sums, products, `Let` and `If`, the
/// wire that compiling returns carries, in the witness, the residue of what
/// the evaluator returns, and the two tables keep agreeing. This holds where
/// every condition the evaluator reaches is 0 or 1 and no branch of an `If`
/// binds a name. It says nothing where compiling fails, as it does on a
/// negative literal, or on a name that only a branch the evaluator skips uses.
/// The circuit is assumed to fit in memory.
pub proof fn lemma_circuit_matches_evaluator(e: Expression, st: CompileState, env: Map<Seq<char>, int>)
    requires
        agrees(st, env),
        eval(e, env) is Some,
        branches_let_free(e),
        bit_conditions(e, env),
    ensures
        compile(e, st) is Ok && compile(e, st)->Ok_0.0.gates.len() <= usize::MAX ==> ({
            let (st2, w) = compile(e, st)->Ok_0;
            &&& agrees(st2, eval(e, env)->Some_0.0)
            &&& w < st2.gates.len()
            &&& witness(st2.gates)[w as int] == eval(e, env)->Some_0.1 % modulus()
        }),
    decreases e,
{
    lemma_compile_extends(e, st);
    if compile(e, st) is Ok && compile(e, st)->Ok_0.0.gates.len() <= usize::MAX {
        match e {
            Expression::Number(n) => {
                lemma_emit(st, Gate::Constant(n as u64));
                lemma_agrees_kept(st, emit(st, Gate::Constant(n as u64)).0, env);
                lemma_small_mod(n as nat, modulus() as nat);
            },
            Expression::Ident(_) => {},
            Expression::Add(a, b) => {
                let (s1, x) = compile(*a, st)->Ok_0;
                let (s2, y) = compile(*b, s1)->Ok_0;
                let (e1, va) = eval(*a, env)->Some_0;
                let (e2, vb) = eval(*b, e1)->Some_0;
                let g = Gate::Add(x as usize, y as usize);
                lemma_compile_extends(*a, st);
                lemma_compile_extends(*b, s1);
                lemma_circuit_matches_evaluator(*a, st, env);
                lemma_circuit_matches_evaluator(*b, s1, e1);
                lemma_emit(s2, g);
                lemma_agrees_kept(s2, emit(s2, g).0, e2);
                lemma_witness_kept(s1, s2, x as int);
                lemma_add_mod_noop(va, vb, modulus());
            },
            Expression::Multiply(a, b) => {
                let (s1, x) = compile(*a, st)->Ok_0;
                let (s2, y) = compile(*b, s1)->Ok_0;
                let (e1, va) = eval(*a, env)->Some_0;
                let (e2, vb) = eval(*b, e1)->Some_0;
                let g = Gate::Mul(x as usize, y as usize);
                lemma_compile_extends(*a, st);
                lemma_compile_extends(*b, s1);
                lemma_circuit_matches_evaluator(*a, st, env);
                lemma_circuit_matches_evaluator(*b, s1, e1);
                lemma_emit(s2, g);
                lemma_agrees_kept(s2, emit(s2, g).0, e2);
                lemma_witness_kept(s1, s2, x as int);
                lemma_mul_mod_noop_general(va, vb, modulus());
            },
            Expression::Let { name, value, in_expr } => {
                let (s1, v) = compile(*value, st)->Ok_0;
                let (e1, vv) = eval(*value, env)->Some_0;
                let s1b = CompileState { gates: s1.gates, env: s1.env.insert(name.0@, v) };
                lemma_compile_extends(*value, st);
                lemma_compile_extends(*in_expr, s1b);
                lemma_circuit_matches_evaluator(*value, st, env);
                lemma_agrees_bind(s1, e1, name.0@, v, vv);
                lemma_circuit_matches_evaluator(*in_expr, s1b, e1.insert(name.0@, vv));
            },
            Expression::If { condition, then_expr, else_expr } => {
                let (s1, c) = compile(*condition, st)->Ok_0;
                let (s2, t) = compile(*then_expr, s1)->Ok_0;
                let (s3, x) = compile(*else_expr, s2)->Ok_0;
                let (e1, vc) = eval(*condition, env)->Some_0;
                let g = Gate::Select(c as usize, t as usize, x as usize);
                lemma_compile_extends(*condition, st);
                lemma_compile_extends(*then_expr, s1);
                lemma_compile_extends(*else_expr, s2);
                lemma_circuit_matches_evaluator(*condition, st, env);
                lemma_emit(s3, g);
                lemma_witness_kept(s1, s2, c as int);
                lemma_witness_kept(s2, s3, c as int);
                lemma_small_mod(vc as nat, modulus() as nat);
                let ws = witness(s3.gates);
                if vc != 0 {
                    let (e2, vt) = eval(*then_expr, e1)->Some_0;
                    lemma_let_free_branches(*then_expr);
                    lemma_circuit_matches_evaluator(*then_expr, s1, e1);
                    lemma_agrees_kept(s2, s3, e2);
                    lemma_agrees_kept(s3, emit(s3, g).0, e2);
                    lemma_witness_kept(s2, s3, t as int);
                    lemma_mod_bound(vt, modulus());
                    assert(ws[c as int] == 1);
                    assert(ws[c as int] * ws[t as int] - ws[c as int] * ws[x as int] + ws[x as int]
                        == ws[t as int]);
                    lemma_small_mod(ws[t as int] as nat, modulus() as nat);
                } else {
                    let (e2, vx) = eval(*else_expr, e1)->Some_0;
                    lemma_agrees_kept(s1, s2, e1);
                    lemma_let_free_branches(*else_expr);
                    lemma_circuit_matches_evaluator(*else_expr, s2, e1);
                    lemma_agrees_kept(s3, emit(s3, g).0, e2);
                    lemma_mod_bound(vx, modulus());
                    assert(ws[c as int] == 0);
                    assert(ws[c as int] * ws[t as int] - ws[c as int] * ws[x as int] + ws[x as int]
                        == ws[x as int]);
                    lemma_small_mod(ws[x as int] as nat, modulus() as nat);
                }
            },
            _ => {},
        }
    }
}

/// Compiling the same tree twice, each time into a fresh builder, gives the
/// same gates and the same output wire.
pub proof fn lemma_compile_repeatable(
    e: Expression,
    first: CompileState,
    w1: nat,
    second: CompileState,
    w2: nat,
)
    requires
        compile(e, empty_state()) == Ok::<(CompileState, nat), Fault>((first, w1)),
        compile(e, empty_state()) == Ok::<(CompileState, nat), Fault>((second, w2)),
    ensures
        first.gates == second.gates,
        w1 == w2,
{
}

} // verus!
