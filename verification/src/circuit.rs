//! The circuit-construction context: an explicit description of the
//! constraint system that the gadgets build.  Every wire is defined by the
//! gate at its index; copy constraints, permutation-hash bindings and the
//! public-input list are kept alongside.
//!
//! The semantics is the satisfaction relation `sat`: which assignments of
//! field values to wires satisfy every gate equation and copy constraint.
//! Gadget contracts quantify over satisfying assignments of the finished
//! context, so facts proved about a prefix must survive extension; `extends`
//! and `lemma_sat_extends` carry them across.
use vstd::prelude::*;
use crate::gf::{FIELD_ORDER, fadd, fsub, fmul, fneg, in_field, invertible};

verus! {

/// One wire-defining gate.  A wire may only refer to wires defined before
/// it, so evaluation is a single forward pass.
#[derive(Clone, Copy, Debug)]
pub enum Gate {
    /// An externally assigned input wire.
    Input,
    /// A wire fixed to a canonical field constant.
    Const(u64),
    /// The field sum of two earlier wires.
    Add(usize, usize),
    /// The field difference of two earlier wires.
    Sub(usize, usize),
    /// The field product of two earlier wires.
    Mul(usize, usize),
    /// The field negation of an earlier wire.
    Neg(usize),
    /// A witness-solved inverse: the constraint is `x * w == 1`, so an
    /// assignment giving `x` the value zero satisfies nothing.
    Inv(usize),
}

/// A permutation-hash binding: the digest wires must carry the hash of the
/// message wires, for whatever hash function the proving backend supplies.
#[derive(Clone, Debug)]
pub struct HashBind {
    pub inputs: Vec<usize>,
    pub outputs: Vec<usize>,
}

/// The circuit-construction context, exclusively owned by the build.
#[derive(Debug)]
pub struct CircuitCtx {
    pub gates: Vec<Gate>,
    pub eqs: Vec<(usize, usize)>,
    pub hashes: Vec<HashBind>,
    pub pub_inputs: Vec<usize>,
}

/// The number of digest wires a permutation-hash binding carries.
pub const DIGEST_WIDTH: usize = 4;

pub open spec fn gate_wf(g: Gate, i: int) -> bool {
    match g {
        Gate::Input => true,
        Gate::Const(k) => k < FIELD_ORDER,
        Gate::Add(x, y) => x < i && y < i,
        Gate::Sub(x, y) => x < i && y < i,
        Gate::Mul(x, y) => x < i && y < i,
        Gate::Neg(x) => x < i,
        Gate::Inv(x) => x < i,
    }
}

pub open spec fn hash_wf(h: HashBind, n: int) -> bool {
    &&& forall|j: int| 0 <= j < h.inputs@.len() ==> h.inputs@[j] < n
    &&& h.outputs@.len() == DIGEST_WIDTH
    &&& forall|j: int| 0 <= j < h.outputs@.len() ==> h.outputs@[j] < n
}

/// Well-formedness of a context: every reference points at an already
/// defined wire.
pub open spec fn ctx_wf(c: CircuitCtx) -> bool {
    &&& forall|i: int| 0 <= i < c.gates@.len() ==> gate_wf(#[trigger] c.gates@[i], i)
    &&& forall|i: int|
        0 <= i < c.eqs@.len() ==> (#[trigger] c.eqs@[i]).0 < c.gates@.len() && c.eqs@[i].1
            < c.gates@.len()
    &&& forall|i: int|
        0 <= i < c.hashes@.len() ==> hash_wf(#[trigger] c.hashes@[i], c.gates@.len() as int)
    &&& forall|i: int| 0 <= i < c.pub_inputs@.len() ==> #[trigger] c.pub_inputs@[i] < c.gates@.len()
}

/// The equation gate `i` imposes on an assignment.
pub open spec fn gate_ok(g: Gate, a: Seq<int>, i: int) -> bool {
    match g {
        Gate::Input => in_field(a[i]),
        Gate::Const(k) => a[i] == k as int,
        Gate::Add(x, y) => a[i] == fadd(a[x as int], a[y as int]),
        Gate::Sub(x, y) => a[i] == fsub(a[x as int], a[y as int]),
        Gate::Mul(x, y) => a[i] == fmul(a[x as int], a[y as int]),
        Gate::Neg(x) => a[i] == fneg(a[x as int]),
        Gate::Inv(x) => in_field(a[i]) && fmul(a[x as int], a[i]) == 1,
    }
}

/// An assignment satisfies a context when every gate equation and every
/// copy constraint holds.  Assignments may be longer than the context:
/// wires added by a later extension are unconstrained here.
pub open spec fn sat(c: CircuitCtx, a: Seq<int>) -> bool {
    &&& a.len() >= c.gates@.len()
    &&& forall|i: int| 0 <= i < c.gates@.len() ==> gate_ok(#[trigger] c.gates@[i], a, i)
    &&& forall|i: int|
        0 <= i < c.eqs@.len() ==> a[(#[trigger] c.eqs@[i]).0 as int] == a[c.eqs@[i].1 as int]
}

/// The values an assignment gives to a list of wires.
pub open spec fn wire_vals(a: Seq<int>, ws: Seq<usize>) -> Seq<int> {
    ws.map_values(|w: usize| a[w as int])
}

/// No inversion gate stands among the gates `c2` appends to `c1`.
pub open spec fn inv_free(c1: CircuitCtx, c2: CircuitCtx) -> bool {
    forall|j: int| c1.gates@.len() <= j < c2.gates@.len() ==> !((#[trigger] c2.gates@[j]) is Inv)
}

/// Appending the gadget's gates never loses satisfiability: every full
/// satisfying assignment of the old context extends to a full satisfying
/// assignment of the new one, leaving the old wires' values untouched.
pub open spec fn sat_extendable(c1: CircuitCtx, c2: CircuitCtx) -> bool {
    forall|asn0: Seq<int>|
        #[trigger] sat(c1, asn0) && asn0.len() == c1.gates@.len() ==> exists|asn: Seq<int>|
            #[trigger] sat(c2, asn) && asn.len() == c2.gates@.len() && asn0.is_prefix_of(asn)
}

/// A prefix agrees with the longer sequence on every index it covers.
pub proof fn lemma_prefix_index<A>(a: Seq<A>, b: Seq<A>, i: int)
    requires
        a.is_prefix_of(b),
        0 <= i < a.len(),
    ensures
        b[i] == a[i],
{
    assert(a =~= b.subrange(0, a.len() as int));
}

/// Being a prefix is transitive.
pub proof fn lemma_prefix_trans<A>(a: Seq<A>, b: Seq<A>, c: Seq<A>)
    requires
        a.is_prefix_of(b),
        b.is_prefix_of(c),
    ensures
        a.is_prefix_of(c),
{
    assert(a =~= c.subrange(0, a.len() as int)) by {
        assert forall|i: int| 0 <= i < a.len() implies c[i] == a[i] by {
            lemma_prefix_index(a, b, i);
            lemma_prefix_index(b, c, i);
        }
    }
}

/// Satisfiability-preserving extensions compose.
pub proof fn lemma_extendable_trans(c1: CircuitCtx, c2: CircuitCtx, c3: CircuitCtx)
    requires
        c1.gates@.len() <= c2.gates@.len(),
        sat_extendable(c1, c2),
        sat_extendable(c2, c3),
    ensures
        sat_extendable(c1, c3),
{
    assert forall|asn0: Seq<int>| #[trigger] sat(c1, asn0) && asn0.len()
        == c1.gates@.len() implies exists|asn: Seq<int>|
        #[trigger] sat(c3, asn) && asn.len() == c3.gates@.len() && asn0.is_prefix_of(asn) by {
        let asn1 = choose|asn1: Seq<int>|
            #[trigger] sat(c2, asn1) && asn1.len() == c2.gates@.len() && asn0.is_prefix_of(asn1);
        let asn2 = choose|asn2: Seq<int>|
            #[trigger] sat(c3, asn2) && asn2.len() == c3.gates@.len() && asn1.is_prefix_of(asn2);
        assert(asn0.is_prefix_of(asn2)) by {
            assert(asn0 =~= asn2.subrange(0, asn0.len() as int)) by {
                assert forall|i: int| 0 <= i < asn0.len() implies asn2[i] == asn0[i] by {
                    lemma_prefix_index(asn0, asn1, i);
                    lemma_prefix_index(asn1, asn2, i);
                }
            }
        }
        assert(sat(c3, asn2) && asn2.len() == c3.gates@.len() && asn0.is_prefix_of(asn2));
    }
}

/// The forward filling of the appended wires: input gates receive zero,
/// arithmetic gates their computed value.  Only used for extensions free
/// of inversion gates, whose value would not be forced.
pub open spec fn fill_vals(c: CircuitCtx, asn0: Seq<int>, n: int) -> Seq<int>
    decreases n,
{
    if n <= asn0.len() {
        asn0
    } else {
        let a = fill_vals(c, asn0, n - 1);
        let v: int = match c.gates@[n - 1] {
            Gate::Input => 0,
            Gate::Const(k) => k as int,
            Gate::Add(x, y) => fadd(a[x as int], a[y as int]),
            Gate::Sub(x, y) => fsub(a[x as int], a[y as int]),
            Gate::Mul(x, y) => fmul(a[x as int], a[y as int]),
            Gate::Neg(x) => fneg(a[x as int]),
            Gate::Inv(x) => 0,
        };
        a.push(v)
    }
}

/// The forward filling satisfies every gate it covers.
proof fn lemma_fill_sat(c1: CircuitCtx, c2: CircuitCtx, asn0: Seq<int>, n: int)
    requires
        ctx_wf(c1),
        ctx_wf(c2),
        extends(c1, c2),
        inv_free(c1, c2),
        sat(c1, asn0),
        asn0.len() == c1.gates@.len(),
        c1.gates@.len() <= n <= c2.gates@.len(),
    ensures
        fill_vals(c2, asn0, n).len() == n,
        asn0.is_prefix_of(fill_vals(c2, asn0, n)),
        forall|i: int| 0 <= i < n ==> gate_ok(#[trigger] c2.gates@[i], fill_vals(c2, asn0, n), i),
    decreases n,
{
    broadcast use crate::gf::lemma_fc_range;

    if n == c1.gates@.len() {
        assert(fill_vals(c2, asn0, n) == asn0);
        assert(asn0.is_prefix_of(asn0)) by {
            assert(asn0 =~= asn0.subrange(0, asn0.len() as int));
        }
        assert forall|i: int| 0 <= i < n implies gate_ok(
            #[trigger] c2.gates@[i],
            fill_vals(c2, asn0, n),
            i,
        ) by {
            lemma_extends_gate(c1, c2, i);
        }
    } else {
        lemma_fill_sat(c1, c2, asn0, n - 1);
        let a = fill_vals(c2, asn0, n - 1);
        let b = fill_vals(c2, asn0, n);
        assert(b == a.push(b[n - 1]));
        assert(asn0.is_prefix_of(b)) by {
            assert(asn0 =~= b.subrange(0, asn0.len() as int)) by {
                assert forall|i: int| 0 <= i < asn0.len() implies b[i] == asn0[i] by {
                    lemma_prefix_index(asn0, a, i);
                }
            }
        }
        assert forall|i: int| 0 <= i < n implies gate_ok(#[trigger] c2.gates@[i], b, i) by {
            if i < n - 1 {
                lemma_gate_ok_append(c2.gates@[i], a, b[n - 1], i);
            } else {
                assert(gate_wf(c2.gates@[i], i));
                assert(!(c2.gates@[i] is Inv));
            }
        }
    }
}

/// Appending gates free of inversions never loses satisfiability: the new
/// wires are filled by forward evaluation, and the copy constraints only
/// mention old wires, whose values stay.
pub proof fn lemma_inv_free_extendable(c1: CircuitCtx, c2: CircuitCtx)
    requires
        ctx_wf(c1),
        ctx_wf(c2),
        extends(c1, c2),
        c2.eqs@ == c1.eqs@,
        inv_free(c1, c2),
    ensures
        sat_extendable(c1, c2),
{
    assert forall|asn0: Seq<int>| #[trigger] sat(c1, asn0) && asn0.len()
        == c1.gates@.len() implies exists|asn: Seq<int>|
        #[trigger] sat(c2, asn) && asn.len() == c2.gates@.len() && asn0.is_prefix_of(asn) by {
        let n = c2.gates@.len() as int;
        lemma_fill_sat(c1, c2, asn0, n);
        let a = fill_vals(c2, asn0, n);
        assert forall|i: int|
            0 <= i < c2.eqs@.len() implies a[(#[trigger] c2.eqs@[i]).0 as int] == a[c2.eqs@[i].1 as int] by {
            lemma_prefix_index(asn0, a, c2.eqs@[i].0 as int);
            lemma_prefix_index(asn0, a, c2.eqs@[i].1 as int);
        }
        assert(sat(c2, a) && a.len() == c2.gates@.len() && asn0.is_prefix_of(a));
    }
}

/// A gate equation only reads wires up to its own index, so any extension
/// of the assignment leaves it undisturbed.
pub proof fn lemma_gate_ok_prefix(g: Gate, a1: Seq<int>, a2: Seq<int>, j: int)
    requires
        gate_wf(g, j),
        0 <= j < a1.len(),
        gate_ok(g, a1, j),
        a1.is_prefix_of(a2),
    ensures
        gate_ok(g, a2, j),
{
    assert forall|k: int| 0 <= k < a1.len() implies a2[k] == a1[k] by {
        lemma_prefix_index(a1, a2, k);
    }
}

/// Appending input gates never loses satisfiability, and the fresh wires
/// may be given any canonical values at all.
pub proof fn lemma_input_extendable(c1: CircuitCtx, c2: CircuitCtx, asn0: Seq<int>, vs: Seq<int>)
    requires
        ctx_wf(c1),
        ctx_wf(c2),
        extends(c1, c2),
        c2.eqs@ == c1.eqs@,
        sat(c1, asn0),
        asn0.len() == c1.gates@.len(),
        vs.len() == c2.gates@.len() - c1.gates@.len(),
        forall|j: int|
            c1.gates@.len() <= j < c2.gates@.len() ==> (#[trigger] c2.gates@[j]) is Input,
        forall|j: int| 0 <= j < vs.len() ==> in_field(#[trigger] vs[j]),
    ensures
        sat(c2, asn0 + vs),
        (asn0 + vs).len() == c2.gates@.len(),
        asn0.is_prefix_of(asn0 + vs),
{
    let a = asn0 + vs;
    assert(asn0.is_prefix_of(a)) by {
        assert(asn0 =~= a.subrange(0, asn0.len() as int));
    }
    assert forall|i: int| 0 <= i < c2.gates@.len() implies gate_ok(#[trigger] c2.gates@[i], a, i) by {
        if i < c1.gates@.len() {
            lemma_extends_gate(c1, c2, i);
            lemma_gate_ok_prefix(c1.gates@[i], asn0, a, i);
        } else {
            assert(a[i] == vs[i - c1.gates@.len()]);
        }
    }
    assert forall|i: int|
        0 <= i < c2.eqs@.len() implies a[(#[trigger] c2.eqs@[i]).0 as int] == a[c2.eqs@[i].1 as int] by {
        lemma_prefix_index(asn0, a, c2.eqs@[i].0 as int);
        lemma_prefix_index(asn0, a, c2.eqs@[i].1 as int);
    }
}

/// `ws` are exactly the wires declared at positions `base`, `base + 1`,
/// ..., and each of those gates is an input gate: the contract an assembly
/// gives for a block of freshly declared input wires, so that the order in
/// which the witness phase supplies values is pinned down.
pub open spec fn inputs_in_order(c: CircuitCtx, ws: Seq<usize>, base: int) -> bool {
    forall|j: int|
        0 <= j < ws.len() ==> (#[trigger] ws[j]) as int == base + j && base + j < c.gates@.len()
            && c.gates@[base + j] is Input
}

/// The permutation-hash bindings hold under hash function `h`.
pub open spec fn hash_consistent(c: CircuitCtx, a: Seq<int>, h: spec_fn(Seq<int>) -> Seq<int>) -> bool {
    forall|k: int|
        0 <= k < c.hashes@.len() ==> wire_vals(a, (#[trigger] c.hashes@[k]).outputs@) == h(
            wire_vals(a, c.hashes@[k].inputs@),
        )
}

/// `c2` carries every constraint of `c1`, in place, and possibly more.
pub open spec fn extends(c1: CircuitCtx, c2: CircuitCtx) -> bool {
    &&& c1.gates@.is_prefix_of(c2.gates@)
    &&& c1.eqs@.is_prefix_of(c2.eqs@)
    &&& c1.hashes@.is_prefix_of(c2.hashes@)
    &&& c1.pub_inputs@.is_prefix_of(c2.pub_inputs@)
}

/// The common frame of an arithmetic gadget: the context stays well formed,
/// is only extended, gains exactly `k` gates — none of them an input
/// gate — and gains no copy constraint, hash binding or public input.
pub open spec fn gadget_frame(c1: CircuitCtx, c2: CircuitCtx, k: int) -> bool {
    &&& ctx_wf(c2)
    &&& extends(c1, c2)
    &&& c2.gates@.len() == c1.gates@.len() + k
    &&& forall|j: int|
        c1.gates@.len() <= j < c2.gates@.len() ==> !((#[trigger] c2.gates@[j]) is Input)
    &&& c2.eqs@ == c1.eqs@
    &&& c2.hashes@ == c1.hashes@
    &&& c2.pub_inputs@ == c1.pub_inputs@
}

pub broadcast proof fn lemma_extends_trans(c1: CircuitCtx, c2: CircuitCtx, c3: CircuitCtx)
    requires
        #[trigger] extends(c1, c2),
        #[trigger] extends(c2, c3),
    ensures
        extends(c1, c3),
{
    assert(c1.gates@ =~= c3.gates@.subrange(0, c1.gates@.len() as int));
    assert(c1.eqs@ =~= c3.eqs@.subrange(0, c1.eqs@.len() as int));
    assert(c1.hashes@ =~= c3.hashes@.subrange(0, c1.hashes@.len() as int));
    assert(c1.pub_inputs@ =~= c3.pub_inputs@.subrange(0, c1.pub_inputs@.len() as int));
}

/// Satisfaction survives restriction to a prefix of the constraints.
pub broadcast proof fn lemma_sat_extends(c1: CircuitCtx, c2: CircuitCtx, a: Seq<int>)
    requires
        #[trigger] extends(c1, c2),
        #[trigger] sat(c2, a),
    ensures
        sat(c1, a),
{
    assert forall|i: int| 0 <= i < c1.gates@.len() implies gate_ok(#[trigger] c1.gates@[i], a, i) by {
        assert(c1.gates@[i] == c2.gates@[i]);
    }
    assert forall|i: int|
        0 <= i < c1.eqs@.len() implies a[(#[trigger] c1.eqs@[i]).0 as int] == a[c1.eqs@[i].1 as int] by {
        assert(c1.eqs@[i] == c2.eqs@[i]);
    }
}

/// An extension never rewrites an existing gate.
pub proof fn lemma_extends_gate(c1: CircuitCtx, c2: CircuitCtx, j: int)
    requires
        extends(c1, c2),
        0 <= j < c1.gates@.len(),
    ensures
        c2.gates@[j] == c1.gates@[j],
{
    assert(c1.gates@ =~= c2.gates@.subrange(0, c1.gates@.len() as int));
}

/// The broadcast form: any gate of an extension that lies inside the
/// extended prefix is the prefix's gate.
pub broadcast proof fn lemma_extends_gate_back(c1: CircuitCtx, c2: CircuitCtx, j: int)
    requires
        #[trigger] extends(c1, c2),
        0 <= j < c2.gates@.len(),
    ensures
        j < c1.gates@.len() ==> #[trigger] c2.gates@[j] == c1.gates@[j],
{
    if j < c1.gates@.len() {
        lemma_extends_gate(c1, c2, j);
    }
}

/// A block of declared input wires stays a block of input wires under any
/// extension of the context.
pub proof fn lemma_inputs_in_order_extends(c1: CircuitCtx, c2: CircuitCtx, ws: Seq<usize>, base: int)
    requires
        inputs_in_order(c1, ws, base),
        extends(c1, c2),
    ensures
        inputs_in_order(c2, ws, base),
{
    assert forall|j: int| 0 <= j < ws.len() implies (#[trigger] ws[j]) as int == base + j && base
        + j < c2.gates@.len() && c2.gates@[base + j] is Input by {
        let w = ws[j];
        assert(w as int == base + j && base + j < c1.gates@.len() && c1.gates@[base + j] is Input);
        lemma_extends_gate(c1, c2, base + j);
    }
}

/// The constraint graph fixes every wire before any witness exists: two
/// satisfying assignments that agree on the input wires agree on every
/// wire, up to `n`.
proof fn lemma_sat_det_upto(c: CircuitCtx, a1: Seq<int>, a2: Seq<int>, n: int)
    requires
        ctx_wf(c),
        sat(c, a1),
        sat(c, a2),
        0 <= n <= c.gates@.len(),
        forall|i: int|
            0 <= i < c.gates@.len() && (#[trigger] c.gates@[i]) is Input ==> a1[i] == a2[i],
    ensures
        forall|i: int| 0 <= i < n ==> a1[i] == a2[i],
    decreases n,
{
    if n > 0 {
        lemma_sat_det_upto(c, a1, a2, n - 1);
        let g = c.gates@[n - 1];
        assert(gate_ok(g, a1, n - 1));
        assert(gate_ok(g, a2, n - 1));
        assert(gate_wf(g, n - 1));
        match g {
            Gate::Inv(x) => {
                crate::gf::lemma_inverse_unique(a1[x as int], a1[n - 1], a2[n - 1]);
            },
            _ => {},
        }
    }
}

/// Determinism of the constraint system: two satisfying assignments that
/// agree on the externally assigned input wires agree everywhere.
pub proof fn lemma_sat_deterministic(c: CircuitCtx, a1: Seq<int>, a2: Seq<int>)
    requires
        ctx_wf(c),
        sat(c, a1),
        sat(c, a2),
        forall|i: int|
            0 <= i < c.gates@.len() && (#[trigger] c.gates@[i]) is Input ==> a1[i] == a2[i],
    ensures
        forall|i: int| 0 <= i < c.gates@.len() ==> a1[i] == a2[i],
{
    lemma_sat_det_upto(c, a1, a2, c.gates@.len() as int);
}

/// A gate equation only reads wires up to its own index, so appending a
/// value to the assignment does not disturb it.
pub proof fn lemma_gate_ok_append(g: Gate, a1: Seq<int>, v: int, j: int)
    requires
        gate_wf(g, j),
        0 <= j < a1.len(),
        gate_ok(g, a1, j),
    ensures
        gate_ok(g, a1.push(v), j),
{
}

/// Hash-binding consistency survives restriction to a prefix of the
/// constraints.
pub proof fn lemma_hash_consistent_extends(
    c1: CircuitCtx,
    c2: CircuitCtx,
    a: Seq<int>,
    h: spec_fn(Seq<int>) -> Seq<int>,
)
    requires
        extends(c1, c2),
        hash_consistent(c2, a, h),
    ensures
        hash_consistent(c1, a, h),
{
    assert forall|k: int| 0 <= k < c1.hashes@.len() implies wire_vals(
        a,
        (#[trigger] c1.hashes@[k]).outputs@,
    ) == h(wire_vals(a, c1.hashes@[k].inputs@)) by {
        assert(c1.hashes@[k] == c2.hashes@[k]);
    }
}

/// Under a satisfying assignment of a well-formed context, every wire
/// carries a canonical field value.
pub proof fn lemma_sat_values_in_field(c: CircuitCtx, a: Seq<int>)
    requires
        ctx_wf(c),
        sat(c, a),
    ensures
        forall|i: int| 0 <= i < c.gates@.len() ==> in_field(#[trigger] a[i]),
{
    broadcast use crate::gf::lemma_fc_range;

    assert forall|i: int| 0 <= i < c.gates@.len() implies in_field(#[trigger] a[i]) by {
        assert(gate_ok(c.gates@[i], a, i));
    }
}

impl CircuitCtx {
    /// A fresh, empty context.
    pub fn new() -> (c: CircuitCtx)
        ensures
            ctx_wf(c),
            c.gates@.len() == 0,
            c.eqs@.len() == 0,
            c.hashes@.len() == 0,
            c.pub_inputs@.len() == 0,
    {
        CircuitCtx { gates: Vec::new(), eqs: Vec::new(), hashes: Vec::new(), pub_inputs: Vec::new() }
    }

    /// Declare a fresh input wire, to be assigned externally.
    pub fn alloc_input(&mut self) -> (w: usize)
        requires
            ctx_wf(*old(self)),
        ensures
            ctx_wf(*final(self)),
            extends(*old(self), *final(self)),
            final(self).gates@ == old(self).gates@.push(Gate::Input),
            final(self).eqs@ == old(self).eqs@,
            final(self).hashes@ == old(self).hashes@,
            final(self).pub_inputs@ == old(self).pub_inputs@,
            w == old(self).gates@.len(),
            forall|a: Seq<int>| sat(*final(self), a) ==> in_field(#[trigger] a[w as int]),
    {
        let w = self.gates.len();
        self.gates.push(Gate::Input);
        proof {
            lemma_push_facts(*old(self), *self, Gate::Input);
        }
        w
    }

    /// A wire fixed to the canonical constant `k`.
    pub fn constant(&mut self, k: u64) -> (w: usize)
        requires
            ctx_wf(*old(self)),
            k < FIELD_ORDER,
        ensures
            ctx_wf(*final(self)),
            extends(*old(self), *final(self)),
            final(self).gates@ == old(self).gates@.push(Gate::Const(k)),
            final(self).eqs@ == old(self).eqs@,
            final(self).hashes@ == old(self).hashes@,
            final(self).pub_inputs@ == old(self).pub_inputs@,
            w == old(self).gates@.len(),
            forall|a: Seq<int>| sat(*final(self), a) ==> #[trigger] a[w as int] == k as int,
    {
        let w = self.gates.len();
        self.gates.push(Gate::Const(k));
        proof {
            lemma_push_facts(*old(self), *self, Gate::Const(k));
        }
        w
    }

    /// The field sum of two wires.
    pub fn add(&mut self, x: usize, y: usize) -> (w: usize)
        requires
            ctx_wf(*old(self)),
            x < old(self).gates@.len(),
            y < old(self).gates@.len(),
        ensures
            ctx_wf(*final(self)),
            extends(*old(self), *final(self)),
            final(self).gates@ == old(self).gates@.push(Gate::Add(x, y)),
            final(self).eqs@ == old(self).eqs@,
            final(self).hashes@ == old(self).hashes@,
            final(self).pub_inputs@ == old(self).pub_inputs@,
            w == old(self).gates@.len(),
            forall|a: Seq<int>|
                sat(*final(self), a) ==> #[trigger] a[w as int] == fadd(a[x as int], a[y as int]),
    {
        let w = self.gates.len();
        self.gates.push(Gate::Add(x, y));
        proof {
            lemma_push_facts(*old(self), *self, Gate::Add(x, y));
        }
        w
    }

    /// The field difference of two wires.
    pub fn sub(&mut self, x: usize, y: usize) -> (w: usize)
        requires
            ctx_wf(*old(self)),
            x < old(self).gates@.len(),
            y < old(self).gates@.len(),
        ensures
            ctx_wf(*final(self)),
            extends(*old(self), *final(self)),
            final(self).gates@ == old(self).gates@.push(Gate::Sub(x, y)),
            final(self).eqs@ == old(self).eqs@,
            final(self).hashes@ == old(self).hashes@,
            final(self).pub_inputs@ == old(self).pub_inputs@,
            w == old(self).gates@.len(),
            forall|a: Seq<int>|
                sat(*final(self), a) ==> #[trigger] a[w as int] == fsub(a[x as int], a[y as int]),
    {
        let w = self.gates.len();
        self.gates.push(Gate::Sub(x, y));
        proof {
            lemma_push_facts(*old(self), *self, Gate::Sub(x, y));
        }
        w
    }

    /// The field product of two wires.
    pub fn mul(&mut self, x: usize, y: usize) -> (w: usize)
        requires
            ctx_wf(*old(self)),
            x < old(self).gates@.len(),
            y < old(self).gates@.len(),
        ensures
            ctx_wf(*final(self)),
            extends(*old(self), *final(self)),
            final(self).gates@ == old(self).gates@.push(Gate::Mul(x, y)),
            final(self).eqs@ == old(self).eqs@,
            final(self).hashes@ == old(self).hashes@,
            final(self).pub_inputs@ == old(self).pub_inputs@,
            w == old(self).gates@.len(),
            forall|a: Seq<int>|
                sat(*final(self), a) ==> #[trigger] a[w as int] == fmul(a[x as int], a[y as int]),
    {
        let w = self.gates.len();
        self.gates.push(Gate::Mul(x, y));
        proof {
            lemma_push_facts(*old(self), *self, Gate::Mul(x, y));
        }
        w
    }

    /// The field negation of a wire.
    pub fn neg(&mut self, x: usize) -> (w: usize)
        requires
            ctx_wf(*old(self)),
            x < old(self).gates@.len(),
        ensures
            ctx_wf(*final(self)),
            extends(*old(self), *final(self)),
            final(self).gates@ == old(self).gates@.push(Gate::Neg(x)),
            final(self).eqs@ == old(self).eqs@,
            final(self).hashes@ == old(self).hashes@,
            final(self).pub_inputs@ == old(self).pub_inputs@,
            w == old(self).gates@.len(),
            forall|a: Seq<int>| sat(*final(self), a) ==> #[trigger] a[w as int] == fneg(a[x as int]),
    {
        let w = self.gates.len();
        self.gates.push(Gate::Neg(x));
        proof {
            lemma_push_facts(*old(self), *self, Gate::Neg(x));
        }
        w
    }

    /// A witness-solved inverse of a wire, constrained by `x * w == 1`; an
    /// assignment that gives `x` the value zero satisfies no constraint
    /// system containing this gate, while an invertible value keeps the
    /// system satisfiable.
    pub fn inverse(&mut self, x: usize) -> (w: usize)
        requires
            ctx_wf(*old(self)),
            x < old(self).gates@.len(),
        ensures
            ctx_wf(*final(self)),
            extends(*old(self), *final(self)),
            final(self).gates@ == old(self).gates@.push(Gate::Inv(x)),
            final(self).eqs@ == old(self).eqs@,
            final(self).hashes@ == old(self).hashes@,
            final(self).pub_inputs@ == old(self).pub_inputs@,
            w == old(self).gates@.len(),
            forall|a: Seq<int>|
                sat(*final(self), a) ==> in_field(#[trigger] a[w as int]) && fmul(
                    a[x as int],
                    a[w as int],
                ) == 1,
            forall|asn0: Seq<int>|
                #[trigger] sat(*old(self), asn0) && asn0.len() == old(self).gates@.len()
                    && invertible(asn0[x as int]) ==> exists|asn: Seq<int>|
                    #[trigger] sat(*final(self), asn) && asn.len() == final(self).gates@.len()
                        && asn0.is_prefix_of(asn),
    {
        let w = self.gates.len();
        self.gates.push(Gate::Inv(x));
        proof {
            lemma_push_facts(*old(self), *self, Gate::Inv(x));
            assert forall|asn0: Seq<int>|
                #[trigger] sat(*old(self), asn0) && asn0.len() == old(self).gates@.len()
                    && invertible(asn0[x as int]) implies exists|asn: Seq<int>|
                #[trigger] sat(*self, asn) && asn.len() == self.gates@.len() && asn0.is_prefix_of(
                    asn,
                ) by {
                let dd = choose|dd: int| in_field(dd) && #[trigger] fmul(asn0[x as int], dd) == 1;
                let a = asn0.push(dd);
                assert(asn0.is_prefix_of(a)) by {
                    assert(asn0 =~= a.subrange(0, asn0.len() as int));
                }
                assert forall|i: int| 0 <= i < self.gates@.len() implies gate_ok(
                    #[trigger] self.gates@[i],
                    a,
                    i,
                ) by {
                    if i < old(self).gates@.len() {
                        lemma_gate_ok_append(self.gates@[i], asn0, dd, i);
                    }
                }
                assert(sat(*self, a) && a.len() == self.gates@.len() && asn0.is_prefix_of(a));
            }
        }
        w
    }

    /// Constrain two wires to carry the same value.
    pub fn connect(&mut self, x: usize, y: usize)
        requires
            ctx_wf(*old(self)),
            x < old(self).gates@.len(),
            y < old(self).gates@.len(),
        ensures
            ctx_wf(*final(self)),
            extends(*old(self), *final(self)),
            final(self).gates@ == old(self).gates@,
            final(self).eqs@ == old(self).eqs@.push((x, y)),
            final(self).hashes@ == old(self).hashes@,
            final(self).pub_inputs@ == old(self).pub_inputs@,
            forall|a: Seq<int>| sat(*final(self), a) ==> #[trigger] a[x as int] == a[y as int],
    {
        self.eqs.push((x, y));
        proof {
            assert(old(self).gates@.is_prefix_of(self.gates@));
            assert(old(self).eqs@.is_prefix_of(self.eqs@)) by {
                assert(old(self).eqs@ =~= self.eqs@.subrange(0, old(self).eqs@.len() as int));
            };
            assert(old(self).hashes@.is_prefix_of(self.hashes@));
            assert(old(self).pub_inputs@.is_prefix_of(self.pub_inputs@));
            assert forall|a: Seq<int>| sat(*self, a) implies #[trigger] a[x as int] == a[y as int] by {
                assert(self.eqs@[old(self).eqs@.len() as int] == (x, y));
            }
        }
    }

    /// Record a permutation-hash binding between message and digest wires.
    pub fn bind_hash(&mut self, inputs: Vec<usize>, outputs: Vec<usize>)
        requires
            ctx_wf(*old(self)),
            forall|j: int| 0 <= j < inputs@.len() ==> inputs@[j] < old(self).gates@.len(),
            outputs@.len() == DIGEST_WIDTH,
            forall|j: int| 0 <= j < outputs@.len() ==> outputs@[j] < old(self).gates@.len(),
        ensures
            ctx_wf(*final(self)),
            extends(*old(self), *final(self)),
            final(self).gates@ == old(self).gates@,
            final(self).eqs@ == old(self).eqs@,
            final(self).hashes@ == old(self).hashes@.push(
                HashBind { inputs: inputs, outputs: outputs },
            ),
            final(self).pub_inputs@ == old(self).pub_inputs@,
    {
        let ghost gi = inputs@;
        let ghost go = outputs@;
        self.hashes.push(HashBind { inputs, outputs });
        proof {
            assert(old(self).gates@.is_prefix_of(self.gates@));
            assert(old(self).eqs@.is_prefix_of(self.eqs@));
            assert(old(self).hashes@.is_prefix_of(self.hashes@)) by {
                assert(old(self).hashes@ =~= self.hashes@.subrange(
                    0,
                    old(self).hashes@.len() as int,
                ));
            };
            assert(old(self).pub_inputs@.is_prefix_of(self.pub_inputs@));
        }
    }

    /// Mark a wire as a public input.
    pub fn register_public_input(&mut self, w: usize)
        requires
            ctx_wf(*old(self)),
            w < old(self).gates@.len(),
        ensures
            ctx_wf(*final(self)),
            extends(*old(self), *final(self)),
            final(self).gates@ == old(self).gates@,
            final(self).eqs@ == old(self).eqs@,
            final(self).hashes@ == old(self).hashes@,
            final(self).pub_inputs@ == old(self).pub_inputs@.push(w),
    {
        self.pub_inputs.push(w);
        proof {
            assert(old(self).gates@.is_prefix_of(self.gates@));
            assert(old(self).eqs@.is_prefix_of(self.eqs@));
            assert(old(self).hashes@.is_prefix_of(self.hashes@));
            assert(old(self).pub_inputs@.is_prefix_of(self.pub_inputs@)) by {
                assert(old(self).pub_inputs@ =~= self.pub_inputs@.subrange(
                    0,
                    old(self).pub_inputs@.len() as int,
                ));
            };
        }
    }

    /// How many gates the context holds.
    pub fn n_gates(&self) -> (n: usize)
        ensures
            n == self.gates@.len(),
    {
        self.gates.len()
    }
}

/// The facts common to every gate push: the new context is well formed,
/// extends the old one, and its last gate imposes its equation on every
/// satisfying assignment.
proof fn lemma_push_facts(c1: CircuitCtx, c2: CircuitCtx, g: Gate)
    requires
        ctx_wf(c1),
        gate_wf(g, c1.gates@.len() as int),
        c2.gates@ == c1.gates@.push(g),
        c2.eqs@ == c1.eqs@,
        c2.hashes@ == c1.hashes@,
        c2.pub_inputs@ == c1.pub_inputs@,
    ensures
        ctx_wf(c2),
        extends(c1, c2),
        forall|a: Seq<int>| sat(c2, a) ==> gate_ok(g, a, c1.gates@.len() as int),
{
    let n = c1.gates@.len() as int;
    assert forall|i: int| 0 <= i < c2.gates@.len() implies gate_wf(#[trigger] c2.gates@[i], i) by {
        if i < n {
            assert(c2.gates@[i] == c1.gates@[i]);
        } else {
            assert(c2.gates@[i] == g);
        }
    }
    assert(c1.gates@.is_prefix_of(c2.gates@)) by {
        assert(c1.gates@ =~= c2.gates@.subrange(0, n));
    };
    assert(c1.eqs@.is_prefix_of(c2.eqs@));
    assert(c1.hashes@.is_prefix_of(c2.hashes@));
    assert(c1.pub_inputs@.is_prefix_of(c2.pub_inputs@));
    assert forall|a: Seq<int>| sat(c2, a) implies gate_ok(g, a, n) by {
        assert(c2.gates@[n] == g);
    }
}

} // verus!
