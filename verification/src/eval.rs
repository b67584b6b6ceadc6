//! The witness generator: evaluate a circuit description forward, binding
//! each wire to a concrete field value, and check every constraint along
//! the way.  An assignment it returns provably satisfies the constraint
//! system; it reports failure when an input is missing or out of range,
//! when an inversion gate meets a non-invertible value, or when a copy
//! constraint is violated.
//!
//! Permutation-hash bindings are a capability of the proving backend and
//! are not evaluated here: digest wires are ordinary inputs, and the
//! backend checks the bindings at proving time.
use vstd::prelude::*;
use crate::gf::{FIELD_ORDER, in_field, fadd, fsub, fmul, fneg, pinv, add_m, sub_m, mul_m, neg_m, inv_m};
use crate::circuit::{CircuitCtx, Gate, ctx_wf, sat, gate_ok, gate_wf, inputs_in_order,
    lemma_gate_ok_append};

verus! {

/// An assignment of machine words, as the mathematical assignment it
/// denotes.
pub open spec fn ints(s: Seq<u64>) -> Seq<int> {
    s.map_values(|x: u64| x as int)
}

/// How many input wires are declared before gate `n`.
pub open spec fn inputs_before(c: CircuitCtx, n: int) -> int
    decreases n,
{
    if n <= 0 {
        0
    } else {
        inputs_before(c, n - 1) + (if c.gates@[n - 1] is Input {
            1int
        } else {
            0int
        })
    }
}

/// A gate range free of input gates does not move the input cursor.
pub proof fn lemma_inputs_before_flat(c: CircuitCtx, a: int, b: int)
    requires
        0 <= a <= b <= c.gates@.len(),
        forall|j: int| a <= j < b ==> !((#[trigger] c.gates@[j]) is Input),
    ensures
        inputs_before(c, b) == inputs_before(c, a),
    decreases b - a,
{
    if a < b {
        lemma_inputs_before_flat(c, a, b - 1);
    }
}

/// A gate range made of input gates moves the input cursor by its length.
pub proof fn lemma_inputs_before_all(c: CircuitCtx, a: int, b: int)
    requires
        0 <= a <= b <= c.gates@.len(),
        forall|j: int| a <= j < b ==> (#[trigger] c.gates@[j]) is Input,
    ensures
        inputs_before(c, b) == inputs_before(c, a) + (b - a),
    decreases b - a,
{
    if a < b {
        lemma_inputs_before_all(c, a, b - 1);
    }
}

/// A block of input wires declared at `base` occupies the consecutive
/// input-cursor positions starting at the cursor of `base`: the value the
/// witness generator binds to `ws[j]` is the input at that position.
pub proof fn lemma_block_cursor(c: CircuitCtx, ws: Seq<usize>, base: int)
    requires
        0 <= base,
        base + ws.len() <= c.gates@.len(),
        inputs_in_order(c, ws, base),
    ensures
        forall|j: int|
            0 <= j < ws.len() ==> inputs_before(c, (#[trigger] ws[j]) as int) == inputs_before(
                c,
                base,
            ) + j,
        inputs_before(c, base + ws.len()) == inputs_before(c, base) + ws.len(),
{
    assert forall|t: int| base <= t < base + ws.len() implies (#[trigger] c.gates@[t]) is Input by {
        assert(ws[t - base] as int == t);
    }
    assert forall|j: int| 0 <= j < ws.len() implies inputs_before(c, (#[trigger] ws[j]) as int)
        == inputs_before(c, base) + j by {
        lemma_inputs_before_all(c, base, base + j);
    }
    lemma_inputs_before_all(c, base, base + ws.len() as int);
}

/// The value the forward evaluation binds to each wire: inputs are read in
/// declaration order, inversion gates get the Fermat residue of their
/// operand.
pub open spec fn eval_vals(c: CircuitCtx, inputs: Seq<int>, n: int) -> Seq<int>
    decreases n,
{
    if n <= 0 {
        Seq::empty()
    } else {
        let a = eval_vals(c, inputs, n - 1);
        let v = match c.gates@[n - 1] {
            Gate::Input => inputs[inputs_before(c, n - 1)],
            Gate::Const(k) => k as int,
            Gate::Add(x, y) => fadd(a[x as int], a[y as int]),
            Gate::Sub(x, y) => fsub(a[x as int], a[y as int]),
            Gate::Mul(x, y) => fmul(a[x as int], a[y as int]),
            Gate::Neg(x) => fneg(a[x as int]),
            Gate::Inv(x) => pinv(a[x as int]),
        };
        a.push(v)
    }
}

/// The forward evaluation binds each input wire to the input value at its
/// cursor position: together with the assembly's cursor clauses, this
/// fixes which value every declared wire receives.
pub proof fn lemma_eval_input_at(c: CircuitCtx, inputs: Seq<int>, n: int, w: int)
    requires
        0 <= w < n <= c.gates@.len(),
        c.gates@[w] is Input,
    ensures
        eval_vals(c, inputs, n)[w] == inputs[inputs_before(c, w)],
    decreases n,
{
    lemma_eval_vals_len(c, inputs, n - 1);
    if w < n - 1 {
        lemma_eval_input_at(c, inputs, n - 1, w);
    }
}

/// The forward evaluation assigns exactly one value per wire.
pub proof fn lemma_eval_vals_len(c: CircuitCtx, inputs: Seq<int>, n: int)
    requires
        0 <= n,
    ensures
        eval_vals(c, inputs, n).len() == n,
    decreases n,
{
    if n > 0 {
        lemma_eval_vals_len(c, inputs, n - 1);
    }
}

/// Whether the forward evaluation of the first `n` gates goes through:
/// every input wire finds a canonical value, and every inversion gate
/// meets an invertible operand.
pub open spec fn eval_ok(c: CircuitCtx, inputs: Seq<int>, n: int) -> bool
    decreases n,
{
    if n <= 0 {
        true
    } else {
        let a = eval_vals(c, inputs, n - 1);
        eval_ok(c, inputs, n - 1) && match c.gates@[n - 1] {
            Gate::Input => inputs_before(c, n - 1) < inputs.len() && in_field(
                inputs[inputs_before(c, n - 1)],
            ),
            Gate::Inv(x) => fmul(a[x as int], pinv(a[x as int])) == 1,
            _ => true,
        }
    }
}

/// The copy constraints hold under an assignment.
pub open spec fn eqs_ok(c: CircuitCtx, a: Seq<int>) -> bool {
    forall|j: int|
        0 <= j < c.eqs@.len() ==> a[(#[trigger] c.eqs@[j]).0 as int] == a[c.eqs@[j].1 as int]
}

/// Witness generation succeeds exactly on these inputs.
pub open spec fn witness_ok(c: CircuitCtx, inputs: Seq<int>) -> bool {
    eval_ok(c, inputs, c.gates@.len() as int) && eqs_ok(
        c,
        eval_vals(c, inputs, c.gates@.len() as int),
    )
}

/// Evaluability of a prefix follows from evaluability of the whole.
proof fn lemma_eval_ok_mono(c: CircuitCtx, inputs: Seq<int>, n: int, m: int)
    requires
        n <= m,
        eval_ok(c, inputs, m),
    ensures
        eval_ok(c, inputs, n),
    decreases m,
{
    if n < m && 0 < m {
        lemma_eval_ok_mono(c, inputs, n, m - 1);
    }
}

/// Evaluate the circuit on the given input values, consumed in the order
/// the input wires were declared.  An assignment is returned exactly when
/// the forward evaluation goes through and the copy constraints hold of
/// it, and it satisfies every constraint of the context.
pub fn generate_witness(c: &CircuitCtx, inputs: &Vec<u64>) -> (r: Option<Vec<u64>>)
    requires
        ctx_wf(*c),
    ensures
        r is Some <==> witness_ok(*c, ints(inputs@)),
        match r {
            Some(asn) => {
                &&& asn@.len() == c.gates@.len()
                &&& ints(asn@) == eval_vals(*c, ints(inputs@), c.gates@.len() as int)
                &&& sat(*c, ints(asn@))
            },
            None => true,
        },
{
    let n = c.gates.len();
    let ghost iv = ints(inputs@);
    let mut vals: Vec<u64> = Vec::new();
    let mut k: usize = 0;
    let mut i: usize = 0;
    while i < n
        invariant
            n == c.gates@.len(),
            ctx_wf(*c),
            iv == ints(inputs@),
            i <= n,
            vals@.len() == i,
            k <= inputs@.len(),
            k as int == inputs_before(*c, i as int),
            ints(vals@) == eval_vals(*c, iv, i as int),
            eval_ok(*c, iv, i as int),
            forall|j: int| 0 <= j < i ==> in_field(#[trigger] ints(vals@)[j]),
            forall|j: int| 0 <= j < i ==> gate_ok(#[trigger] c.gates@[j], ints(vals@), j),
        decreases n - i,
    {
        let ghost old_vals = vals@;
        let g = c.gates[i];
        proof {
            assert(gate_wf(c.gates@[i as int], i as int));
            assert forall|j: int| 0 <= j < i implies in_field(#[trigger] vals@[j] as int) by {
                assert(ints(vals@)[j] == vals@[j] as int);
            }
        }
        let v: u64 = match g {
            Gate::Input => {
                if k >= inputs.len() {
                    proof {
                        lemma_not_ok(*c, iv, i as int, n as int);
                    }
                    return None;
                }
                let v = inputs[k];
                if v >= FIELD_ORDER {
                    proof {
                        assert(iv[k as int] == inputs@[k as int] as int);
                        lemma_not_ok(*c, iv, i as int, n as int);
                    }
                    return None;
                }
                proof {
                    assert(iv[k as int] == inputs@[k as int] as int);
                }
                k = k + 1;
                v
            },
            Gate::Const(cv) => cv,
            Gate::Add(x, y) => add_m(vals[x], vals[y]),
            Gate::Sub(x, y) => sub_m(vals[x], vals[y]),
            Gate::Mul(x, y) => mul_m(vals[x], vals[y]),
            Gate::Neg(x) => neg_m(vals[x]),
            Gate::Inv(x) => {
                let vx = vals[x];
                let d = inv_m(vx);
                if mul_m(vx, d) != 1 {
                    proof {
                        assert(ints(vals@)[x as int] == vx as int);
                        lemma_not_ok(*c, iv, i as int, n as int);
                    }
                    return None;
                }
                proof {
                    assert(ints(vals@)[x as int] == vx as int);
                }
                d
            },
        };
        vals.push(v);
        proof {
            assert(ints(vals@) =~= ints(old_vals).push(v as int));
            assert forall|j: int| 0 <= j < i + 1 implies gate_ok(
                #[trigger] c.gates@[j],
                ints(vals@),
                j,
            ) by {
                if j < i {
                    lemma_gate_ok_append(c.gates@[j], ints(old_vals), v as int, j);
                } else {
                    assert(gate_wf(g, i as int));
                    assert(ints(vals@)[i as int] == v as int);
                }
            }
        }
        i = i + 1;
    }
    // check the copy constraints
    let mut e: usize = 0;
    while e < c.eqs.len()
        invariant
            ctx_wf(*c),
            iv == ints(inputs@),
            vals@.len() == c.gates@.len(),
            ints(vals@) == eval_vals(*c, iv, c.gates@.len() as int),
            eval_ok(*c, iv, c.gates@.len() as int),
            e <= c.eqs@.len(),
            forall|j: int| 0 <= j < c.gates@.len() ==> gate_ok(#[trigger] c.gates@[j], ints(vals@), j),
            forall|j: int|
                0 <= j < e ==> ints(vals@)[(#[trigger] c.eqs@[j]).0 as int] == ints(
                    vals@,
                )[c.eqs@[j].1 as int],
        decreases c.eqs@.len() - e,
    {
        let (a, b) = c.eqs[e];
        if vals[a] != vals[b] {
            proof {
                assert(ints(vals@)[a as int] == vals@[a as int] as int);
                assert(ints(vals@)[b as int] == vals@[b as int] as int);
                assert(!eqs_ok(*c, eval_vals(*c, iv, c.gates@.len() as int)));
            }
            return None;
        }
        e = e + 1;
    }
    proof {
        assert(eqs_ok(*c, ints(vals@)));
    }
    Some(vals)
}

/// Failure of a step's side condition refutes evaluability of the whole.
proof fn lemma_not_ok(c: CircuitCtx, inputs: Seq<int>, i: int, n: int)
    requires
        0 <= i < n,
        eval_ok(c, inputs, i),
        !(match c.gates@[i] {
            Gate::Input => inputs_before(c, i) < inputs.len() && in_field(
                inputs[inputs_before(c, i)],
            ),
            Gate::Inv(x) => fmul(
                eval_vals(c, inputs, i)[x as int],
                pinv(eval_vals(c, inputs, i)[x as int]),
            ) == 1,
            _ => true,
        }),
    ensures
        !eval_ok(c, inputs, n),
{
    assert(!eval_ok(c, inputs, i + 1));
    if eval_ok(c, inputs, n) {
        lemma_eval_ok_mono(c, inputs, i + 1, n);
    }
}

/// Whether a claimed list of public-input values is exactly what the
/// assignment puts on the public wires, in declaration order.  A proof
/// carries its public inputs; a verifier rejects any list that differs
/// from the witness's in length or in any single position.
pub fn matches_public_inputs(c: &CircuitCtx, asn: &Vec<u64>, claimed: &Vec<u64>) -> (r: bool)
    requires
        ctx_wf(*c),
        asn@.len() == c.gates@.len(),
    ensures
        r <==> (claimed@.len() == c.pub_inputs@.len() && forall|j: int|
            0 <= j < claimed@.len() ==> #[trigger] claimed@[j] == asn@[c.pub_inputs@[j] as int]),
{
    if claimed.len() != c.pub_inputs.len() {
        return false;
    }
    let mut i: usize = 0;
    while i < claimed.len()
        invariant
            ctx_wf(*c),
            asn@.len() == c.gates@.len(),
            claimed@.len() == c.pub_inputs@.len(),
            i <= claimed@.len(),
            forall|j: int| 0 <= j < i ==> #[trigger] claimed@[j] == asn@[c.pub_inputs@[j] as int],
        decreases claimed@.len() - i,
    {
        let w = c.pub_inputs[i];
        if claimed[i] != asn[w] {
            return false;
        }
        i = i + 1;
    }
    true
}

/// Read the public-input values out of an assignment, in declaration
/// order.
pub fn public_values(c: &CircuitCtx, asn: &Vec<u64>) -> (r: Vec<u64>)
    requires
        ctx_wf(*c),
        asn@.len() == c.gates@.len(),
    ensures
        r@.len() == c.pub_inputs@.len(),
        forall|j: int| 0 <= j < r@.len() ==> #[trigger] r@[j] == asn@[c.pub_inputs@[j] as int],
{
    let mut r: Vec<u64> = Vec::new();
    let mut i: usize = 0;
    while i < c.pub_inputs.len()
        invariant
            ctx_wf(*c),
            asn@.len() == c.gates@.len(),
            i <= c.pub_inputs@.len(),
            r@.len() == i,
            forall|j: int| 0 <= j < i ==> #[trigger] r@[j] == asn@[c.pub_inputs@[j] as int],
        decreases c.pub_inputs@.len() - i,
    {
        let w = c.pub_inputs[i];
        r.push(asn[w]);
        i = i + 1;
    }
    r
}

} // verus!
