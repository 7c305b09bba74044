use vstd::prelude::*;

use vstd::arithmetic::div_mod::{
    lemma_add_mod_noop,
    lemma_mod_add_multiples_vanish,
    lemma_mod_bound,
    lemma_sub_mod_noop,
};
use vstd::arithmetic::mul::lemma_mul_upper_bound;

verus! {

/// Order of the Goldilocks prime field, 2^64 - 2^32 + 1. Every wire carries a
/// canonical residue below it.
pub const FIELD_ORDER: u64 = 18446744069414584321;

pub open spec fn modulus() -> int {
    FIELD_ORDER as int
}

/// Index of a wire: wire `i` carries the output of gate `i`.
pub type Wire = usize;

/// One gate of an arithmetic circuit over the field. Each input names an
/// earlier wire.
///
/// `LessHint` and `GreaterHint` are boolean wires that a deferred witness
/// computation fills in by comparing the canonical residues of two wires.
/// No arithmetic constraint ties them to their inputs: they are trusted hints,
/// sound only when the prover runs the hint honestly. `And` and `Select` take
/// their boolean inputs as they are, without a range constraint.
#[derive(Debug, Clone, Copy, PartialEq, Eq, Structural)]
pub enum Gate {
    Constant(u64),
    Add(Wire, Wire),
    Mul(Wire, Wire),
    And(Wire, Wire),
    Select(Wire, Wire, Wire),
    LessHint(Wire, Wire),
    GreaterHint(Wire, Wire),
}

pub open spec fn gate_well_formed(g: Gate, n: int) -> bool {
    match g {
        Gate::Constant(v) => v < FIELD_ORDER,
        Gate::Add(a, b) => a < n && b < n,
        Gate::Mul(a, b) => a < n && b < n,
        Gate::And(a, b) => a < n && b < n,
        Gate::Select(c, t, e) => c < n && t < n && e < n,
        Gate::LessHint(x, y) => x < n && y < n,
        Gate::GreaterHint(x, y) => x < n && y < n,
    }
}

pub open spec fn circuit_well_formed(gates: Seq<Gate>) -> bool {
    forall|i: int| 0 <= i < gates.len() ==> gate_well_formed(#[trigger] gates[i], i)
}

/// Outcome of a comparison hint: 1 when the relation holds, else 0.
pub open spec fn bit(b: bool) -> int {
    if b {
        1
    } else {
        0
    }
}

/// The value that a gate assigns to its wire, given the values of the wires before it.
pub open spec fn gate_value(g: Gate, w: Seq<int>) -> int {
    match g {
        Gate::Constant(v) => v as int,
        Gate::Add(a, b) => (w[a as int] + w[b as int]) % modulus(),
        Gate::Mul(a, b) => (w[a as int] * w[b as int]) % modulus(),
        Gate::And(a, b) => (w[a as int] * w[b as int]) % modulus(),
        Gate::Select(c, t, e) => (w[c as int] * w[t as int] - w[c as int] * w[e as int] + w[e as int])
            % modulus(),
        Gate::LessHint(x, y) => bit(w[x as int] < w[y as int]),
        Gate::GreaterHint(x, y) => bit(w[x as int] > w[y as int]),
    }
}

/// The witness of a circuit: the value of every wire, in order.
pub open spec fn witness(gates: Seq<Gate>) -> Seq<int>
    decreases gates.len(),
{
    if gates.len() == 0 {
        Seq::empty()
    } else {
        let w = witness(gates.drop_last());
        w.push(gate_value(gates.last(), w))
    }
}

/// Adding gates never changes the value of a wire that already exists.
pub proof fn lemma_witness_prefix(gates: Seq<Gate>, k: int)
    requires
        0 <= k <= gates.len(),
    ensures
        witness(gates).len() == gates.len(),
        witness(gates.subrange(0, k)) == witness(gates).subrange(0, k),
    decreases gates.len(),
{
    if gates.len() == 0 {
        assert(gates.subrange(0, k) == gates);
    } else {
        lemma_witness_prefix(gates.drop_last(), if k == gates.len() { k - 1 } else { k });
        if k == gates.len() {
            assert(gates.subrange(0, k) == gates);
            assert(witness(gates).subrange(0, k) == witness(gates));
        } else {
            assert(gates.drop_last().subrange(0, k) == gates.subrange(0, k));
            assert(witness(gates).subrange(0, k) == witness(gates.drop_last()).subrange(0, k));
        }
    }
}

/// A value of a comparison hint on two canonical residues: whether `x < y` and
/// whether `x > y`.
pub fn compare(x: u64, y: u64) -> (r: (bool, bool))
    ensures
        r.0 == (x < y),
        r.1 == (x > y),
{
    (x < y, x > y)
}

/// The two comparison hints on the same pair of wires: `lt` is 1 exactly when
/// the left residue is smaller, `gt` exactly when it is larger; each is 0 or 1,
/// at most one of them is 1, and both are 0 exactly when the residues are equal.
pub proof fn lemma_compare_hints(w: Seq<int>, x: Wire, y: Wire)
    requires
        x < w.len(),
        y < w.len(),
    ensures
        ({
            let lt = gate_value(Gate::LessHint(x, y), w);
            let gt = gate_value(Gate::GreaterHint(x, y), w);
            &&& (lt == 0 || lt == 1)
            &&& (gt == 0 || gt == 1)
            &&& (lt == 1 <==> w[x as int] < w[y as int])
            &&& (gt == 1 <==> w[x as int] > w[y as int])
            &&& lt + gt <= 1
            &&& (lt == 0 && gt == 0 <==> w[x as int] == w[y as int])
        }),
{
}

fn field_add(a: u64, b: u64) -> (r: u64)
    ensures
        r as int == (a as int + b as int) % modulus(),
{
    ((a as u128 + b as u128) % (FIELD_ORDER as u128)) as u64
}

fn field_mul(a: u64, b: u64) -> (r: u64)
    requires
        a < FIELD_ORDER,
        b < FIELD_ORDER,
    ensures
        r as int == (a as int * b as int) % modulus(),
{
    proof {
        lemma_mul_upper_bound(a as int, modulus() - 1, b as int, modulus() - 1);
        assert(modulus() - 1 == 18446744069414584320int);
        assert(18446744069414584320int * 18446744069414584320int
            < 0x1_0000_0000_0000_0000_0000_0000_0000_0000int) by (nonlinear_arith);
    }
    ((a as u128 * b as u128) % (FIELD_ORDER as u128)) as u64
}

/// `c * t - c * e + e`, the select gate's formula.
fn field_select(c: u64, t: u64, e: u64) -> (r: u64)
    requires
        c < FIELD_ORDER,
        t < FIELD_ORDER,
        e < FIELD_ORDER,
    ensures
        r as int == (c as int * t as int - c as int * e as int + e as int) % modulus(),
{
    let ct = field_mul(c, t);
    let ce = field_mul(c, e);
    let sum = field_add(ct, e);
    proof {
        let m = modulus();
        lemma_mod_bound(c as int * e as int, m);
        lemma_add_mod_noop(c as int * t as int, e as int, m);
        assert(e as int % m == e as int) by {
            vstd::arithmetic::div_mod::lemma_small_mod(e as nat, m as nat);
        }
        assert(ct as int % m == ct as int) by {
            vstd::arithmetic::div_mod::lemma_small_mod(ct as nat, m as nat);
        }
        // sum == (c*t + e) % m, ce == (c*e) % m
        lemma_sub_mod_noop(c as int * t as int + e as int, c as int * e as int, m);
        lemma_mod_add_multiples_vanish(sum as int - ce as int, m);
    }
    ((sum as u128 + FIELD_ORDER as u128 - ce as u128) % (FIELD_ORDER as u128)) as u64
}

/// Computes every wire's value, running the comparison hints on the way.
/// `None` exactly when the gates are not well formed.
pub fn compute_witness(gates: &Vec<Gate>) -> (r: Option<Vec<u64>>)
    ensures
        r is Some <==> circuit_well_formed(gates@),
        r is Some ==> r->Some_0@.len() == gates@.len() && forall|k: int|
            0 <= k < gates@.len() ==> #[trigger] r->Some_0@[k] as int == witness(gates@)[k],
{
    let mut vals: Vec<u64> = Vec::new();
    let mut i: usize = 0;
    while i < gates.len()
        invariant
            i <= gates@.len(),
            vals@.len() == i,
            witness(gates@.subrange(0, i as int)).len() == i,
            forall|k: int|
                0 <= k < i ==> #[trigger] vals@[k] as int == witness(gates@.subrange(0, i as int))[k],
            forall|k: int| 0 <= k < i ==> #[trigger] vals@[k] < FIELD_ORDER,
            forall|k: int| 0 <= k < i ==> gate_well_formed(#[trigger] gates@[k], k),
        decreases gates@.len() - i,
    {
        let ghost w = witness(gates@.subrange(0, i as int));
        let ghost pre = gates@.subrange(0, i as int + 1);
        proof {
            assert(pre.drop_last() =~= gates@.subrange(0, i as int));
        }
        let g = gates[i];
        let ok = match g {
            Gate::Constant(v) => v < FIELD_ORDER,
            Gate::Add(a, b) => a < i && b < i,
            Gate::Mul(a, b) => a < i && b < i,
            Gate::And(a, b) => a < i && b < i,
            Gate::Select(c, t, e) => c < i && t < i && e < i,
            Gate::LessHint(x, y) => x < i && y < i,
            Gate::GreaterHint(x, y) => x < i && y < i,
        };
        if !ok {
            return None;
        }
        let v = match g {
            Gate::Constant(v) => v,
            Gate::Add(a, b) => field_add(vals[a], vals[b]),
            Gate::Mul(a, b) => field_mul(vals[a], vals[b]),
            Gate::And(a, b) => field_mul(vals[a], vals[b]),
            Gate::Select(c, t, e) => field_select(vals[c], vals[t], vals[e]),
            Gate::LessHint(x, y) => if compare(vals[x], vals[y]).0 {
                1
            } else {
                0
            },
            Gate::GreaterHint(x, y) => if compare(vals[x], vals[y]).1 {
                1
            } else {
                0
            },
        };
        proof {
            assert(v as int == gate_value(g, w));
            lemma_mod_bound(0, modulus());
        }
        vals.push(v);
        i += 1;
    }
    proof {
        assert(gates@.subrange(0, i as int) =~= gates@);
    }
    Some(vals)
}

} // verus!
