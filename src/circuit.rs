//! The circuit for "a private `x` with `x^3 + x + c` equal to the public
//! result", its synthesis through the chip, and a driver that checks it.

use crate::chip::{self, expose_public, load_constant, load_private, Error};
use crate::field::{field_add, field_mul, modulus, Felt};
use crate::layout::{
    lemma_consistent_fails_only_on_instance, CopyConstraint, Exposure, Failure, GateRow, Layout,
    LayoutView, Operation,
};
use vstd::arithmetic::div_mod::{lemma_add_mod_noop, lemma_mul_mod_noop_right};
use vstd::prelude::*;

verus! {

/// The public result that the relation asks for: `x^3 + x + c` in the field.
pub open spec fn relation_value(x: int, c: int) -> int {
    (x * x * x + x + c) % modulus()
}

/// The chain of field operations of the circuit computes the relation.
pub proof fn lemma_chain_computes_relation(x: int, c: int)
    ensures
        field_add(field_add(field_mul(x, field_mul(x, x)), x), c) == relation_value(x, c),
{
    let p = modulus();
    lemma_mul_mod_noop_right(x, x * x, p);
    assert(x * (x * x) == x * x * x) by (nonlinear_arith);
    lemma_add_mod_noop(x * x * x, x, p);
    lemma_add_mod_noop(x * x * x % p, x, p);
    assert((x * x * x % p) % p == x * x * x % p) by {
        vstd::arithmetic::div_mod::lemma_mod_twice(x * x * x, p);
    }
    lemma_add_mod_noop(x * x * x + x, c, p);
    lemma_add_mod_noop((x * x * x + x) % p, c, p);
    vstd::arithmetic::div_mod::lemma_mod_twice(x * x * x + x, p);
}

/// The selector rows of the circuit: `x*x`, `x*x2`, `x3+x`, `x3_x+c`.
pub open spec fn circuit_gates() -> Seq<GateRow> {
    seq![
        GateRow { op: Operation::Mul, region: 2, lhs: 2, rhs: 3, out: 4 },
        GateRow { op: Operation::Mul, region: 3, lhs: 5, rhs: 6, out: 7 },
        GateRow { op: Operation::Add, region: 4, lhs: 8, rhs: 9, out: 10 },
        GateRow { op: Operation::Add, region: 5, lhs: 11, rhs: 12, out: 13 },
    ]
}

/// The equality constraints of the circuit, tying each operand to the cell
/// where its value was made (`x` in cell 0, `c` in cell 1).
pub open spec fn circuit_copies() -> Seq<CopyConstraint> {
    seq![
        CopyConstraint { left: 0, right: 2 },
        CopyConstraint { left: 0, right: 3 },
        CopyConstraint { left: 0, right: 5 },
        CopyConstraint { left: 4, right: 6 },
        CopyConstraint { left: 7, right: 8 },
        CopyConstraint { left: 0, right: 9 },
        CopyConstraint { left: 10, right: 11 },
        CopyConstraint { left: 1, right: 12 },
    ]
}

/// The index of the cell that holds `x^3 + x + c`.
pub const RESULT_CELL: usize = 13;

/// The circuit: a public constant and a private input, absent when only the
/// shape of the circuit is wanted.
#[derive(Clone, Copy, Debug)]
pub struct CubicCircuit {
    pub constant: Felt,
    pub x: Option<Felt>,
}

impl CubicCircuit {
    /// What a synthesis of this circuit yields: a layout of fixed shape,
    /// whose witness, when `x` is given, is consistent and puts the relation's
    /// value in the result cell, bound to row 0 of the public input.
    pub open spec fn yields(self, witness: bool, l: LayoutView) -> bool {
        &&& l.wf()
        &&& l.witness == witness
        &&& l.public_rows == 1
        &&& l.regions == 6
        &&& l.cells.len() == 14
        &&& l.cells[1].constant == Some(self.constant)
        &&& l.gates == circuit_gates()
        &&& l.copies == circuit_copies()
        &&& l.exposed == seq![Exposure { cell: RESULT_CELL, row: 0 }]
        &&& self.x matches Some(x) ==> {
            &&& l.consistent()
            &&& l.value_at(RESULT_CELL as int) == Some(relation_value(x@, self.constant@))
        }
    }

    /// The same circuit with the private input taken out.
    pub fn without_witnesses(&self) -> (r: CubicCircuit)
        ensures
            r.constant == self.constant,
            r.x is None,
    {
        CubicCircuit { constant: self.constant, x: None }
    }

    /// Lays the circuit out: load `x` and `c`, then `x2 = x*x`,
    /// `x3 = x*x2`, `x3_x = x3+x`, `x3_x_c = x3_x+c`, and bind the last to
    /// row 0 of the public input. In a witness pass (`witness`) an absent `x`
    /// stops synthesis at its load, in the first region.
    pub fn synthesize(&self, witness: bool) -> (r: Result<Layout, Error>)
        ensures
            r is Err <==> witness && self.x is None,
            r is Err ==> r == Err::<Layout, Error>(Error::SynthesisAbsentValue { region: 0 }),
            r matches Ok(l) ==> self.yields(witness, l@),
    {
        let mut layout = Layout::new(witness, 1);
        let x = match load_private(&mut layout, self.x) {
            Ok(h) => h,
            Err(e) => {
                return Err(e);
            },
        };
        let ghost v1 = layout@;
        let c = load_constant(&mut layout, self.constant);
        let ghost v2 = layout@;
        assert(v2.cells[0] == v1.cells[0]);
        let x2 = match chip::mul(&mut layout, x, x) {
            Ok(h) => h,
            Err(e) => {
                return Err(e);
            },
        };
        let ghost v3 = layout@;
        assert(v3.cells[0] == v3.cells.take(v2.cells.len() as int + 2)[0]);
        let x3 = match chip::mul(&mut layout, x, x2) {
            Ok(h) => h,
            Err(e) => {
                return Err(e);
            },
        };
        let ghost v4 = layout@;
        assert(v4.cells[0] == v4.cells.take(v3.cells.len() as int + 2)[0]);
        let x3_x = match chip::add(&mut layout, x3, x) {
            Ok(h) => h,
            Err(e) => {
                return Err(e);
            },
        };
        let ghost v5 = layout@;
        assert(v5.cells[1] == v5.cells.take(v4.cells.len() as int + 2)[1]);
        assert(v5.cells[1] == v2.cells[1]) by {
            assert(v4.cells[1] == v4.cells.take(v3.cells.len() as int + 2)[1]);
            assert(v3.cells[1] == v3.cells.take(v2.cells.len() as int + 2)[1]);
        }
        let x3_x_c = match chip::add(&mut layout, x3_x, c) {
            Ok(h) => h,
            Err(e) => {
                return Err(e);
            },
        };
        let ghost v6 = layout@;
        assert(v6.cells[1] == v6.cells.take(v5.cells.len() as int + 2)[1]);
        match expose_public(&mut layout, x3_x_c, 0) {
            Ok(_) => {},
            Err(e) => {
                return Err(e);
            },
        }
        let ghost v7 = layout@;
        assert(v7.gates =~= circuit_gates());
        assert(v7.copies =~= circuit_copies());
        assert(v7.exposed =~= seq![Exposure { cell: RESULT_CELL, row: 0 }]);
        proof {
            if let Some(xv) = self.x {
                lemma_chain_computes_relation(xv@, self.constant@);
            }
        }
        Ok(layout)
    }
}

/// `x^3 + x + c` in the field: the public result that makes the circuit hold.
pub fn relation_result(x: &Felt, c: &Felt) -> (r: Felt)
    ensures
        r@ == relation_value(x@, c@),
{
    let x2 = x.mul(x);
    let x3 = x.mul(&x2);
    proof {
        lemma_chain_computes_relation(x@, c@);
    }
    x3.add(x).add(c)
}

/// Builds the circuit for `x` and `constant`, synthesises its witness, and
/// checks it against the single public input `expected`.
pub fn prove_and_check(x: Felt, constant: Felt, expected: Felt) -> (r: Result<(), Failure>)
    ensures
        r is Ok <==> expected@ == relation_value(x@, constant@),
        r is Err ==> r == Err::<(), Failure>(Failure::Instance { row: 0 }),
{
    let circuit = CubicCircuit { constant, x: Some(x) };
    let layout = match circuit.synthesize(true) {
        Ok(l) => l,
        Err(_) => {
            assert(false);
            return Err(Failure::Instance { row: 0 });
        },
    };
    let public = vec![expected];
    let r = layout.check(&public);
    proof {
        if expected@ == relation_value(x@, constant@) {
            lemma_true_result_accepted(circuit, layout@, public@);
        } else {
            lemma_wrong_result_rejected(circuit, layout@, public@);
            if let Err(f) = r {
                assert(f == Failure::Instance { row: 0 });
            }
        }
    }
    r
}

/// The constraints of a synthesised circuit hold exactly when row 0 of the
/// public input is the value in the result cell.
proof fn lemma_satisfied_iff_result(circuit: CubicCircuit, l: LayoutView, public: Seq<Felt>)
    requires
        circuit.x is Some,
        circuit.yields(true, l),
    ensures
        l.satisfied(public) <==> public.len() >= 1 && public[0]@ == relation_value(
            circuit.x->0@,
            circuit.constant@,
        ),
{
    assert(l.exposed[0] == Exposure { cell: RESULT_CELL, row: 0 });
    if public.len() >= 1 && public[0]@ == relation_value(circuit.x->0@, circuit.constant@) {
        assert(l.exposure_holds(l.exposed[0], public));
    }
}

/// For every private input `x`, the witness of the circuit satisfies every
/// constraint when the public input is `x^3 + x + c`.
pub proof fn lemma_true_result_accepted(circuit: CubicCircuit, l: LayoutView, public: Seq<Felt>)
    requires
        circuit.x is Some,
        circuit.yields(true, l),
        public.len() == 1,
        public[0]@ == relation_value(circuit.x->0@, circuit.constant@),
    ensures
        l.satisfied(public),
{
    lemma_satisfied_iff_result(circuit, l, public);
}

/// For every private input `x` and every public result other than
/// `x^3 + x + c`, the witness breaks a constraint, and the only constraint it
/// breaks is the binding of the result to row 0 of the public input.
pub proof fn lemma_wrong_result_rejected(circuit: CubicCircuit, l: LayoutView, public: Seq<Felt>)
    requires
        circuit.x is Some,
        circuit.yields(true, l),
        public.len() == 1,
        public[0]@ != relation_value(circuit.x->0@, circuit.constant@),
    ensures
        !l.satisfied(public),
        forall|f: Failure| l.violation(f, public) ==> f == (Failure::Instance { row: 0 }),
{
    lemma_satisfied_iff_result(circuit, l, public);
    assert forall|f: Failure| l.violation(f, public) implies f == (Failure::Instance { row: 0 }) by {
        lemma_consistent_fails_only_on_instance(l, f, public);
        let row = f->row;
        let i = choose|i: int|
            0 <= i < l.exposed.len() && (#[trigger] l.exposed[i]).row == row
                && !l.exposure_holds(l.exposed[i], public);
        assert(l.exposed[i] == Exposure { cell: RESULT_CELL, row: 0 });
    }
}

/// The shape of the circuit does not depend on the witness: a witness pass
/// and a pass without it lay out the same regions, gates, equality
/// constraints and public bindings.
pub proof fn lemma_shape_independent_of_witness(
    with_x: CubicCircuit,
    without_x: CubicCircuit,
    l1: LayoutView,
    l2: LayoutView,
)
    requires
        with_x.yields(true, l1),
        without_x.yields(false, l2),
    ensures
        l1.regions == l2.regions,
        l1.cells.len() == l2.cells.len(),
        l1.gates == l2.gates,
        l1.copies == l2.copies,
        l1.exposed == l2.exposed,
{
}

} // verus!
