//! The record of a synthesised circuit: an append-only arena of assigned
//! cells, the rows on which the multiply/add gate is switched on, the
//! equality constraints between cells, and the bindings of cells to rows of
//! the public input. `Layout::check` decides whether a witness satisfies it.

use crate::field::{field_add, field_mul, Felt};
use vstd::prelude::*;

verus! {

/// The advice column that holds a gate's left operand and its output.
pub const LHS_COLUMN: usize = 0;

/// The advice column that holds a gate's right operand.
pub const RHS_COLUMN: usize = 1;

/// Which of the two selectors of the shared gate is switched on.
#[derive(Clone, Copy, Debug, PartialEq, Eq, Structural)]
pub enum Operation {
    Mul,
    Add,
}

impl Operation {
    /// What the shared identity asks of `out` given `lhs` and `rhs`.
    pub open spec fn spec_apply(self, a: int, b: int) -> int {
        match self {
            Operation::Mul => field_mul(a, b),
            Operation::Add => field_add(a, b),
        }
    }

    pub fn apply(&self, a: &Felt, b: &Felt) -> (r: Felt)
        ensures
            r@ == self.spec_apply(a@, b@),
    {
        match self {
            Operation::Mul => a.mul(b),
            Operation::Add => a.add(b),
        }
    }
}

/// The value of a cell as an integer, when it is known.
pub open spec fn opt_value(v: Option<Felt>) -> Option<int> {
    match v {
        Some(f) => Some(f@),
        None => None,
    }
}

/// The result of an operation on two values, known only when both are.
pub open spec fn combine(op: Operation, a: Option<int>, b: Option<int>) -> Option<int> {
    match (a, b) {
        (Some(x), Some(y)) => Some(op.spec_apply(x, y)),
        _ => None,
    }
}

/// One assigned advice cell.
#[derive(Clone, Copy, Debug)]
pub struct CellRecord {
    pub region: usize,
    pub column: usize,
    pub offset: usize,
    /// The witness value; absent in a pass that only fixes the shape.
    pub value: Option<Felt>,
    /// The literal of the fixed column that this cell is bound to, if any.
    pub constant: Option<Felt>,
}

/// A row on which one selector of the shared identity is on, with the cells it reads:
/// `lhs` and `rhs` on the row itself, `out` on the row below in the left column.
#[derive(Clone, Copy, Debug)]
pub struct GateRow {
    pub op: Operation,
    pub region: usize,
    pub lhs: usize,
    pub rhs: usize,
    pub out: usize,
}

/// Two cells that must hold the same value.
#[derive(Clone, Copy, Debug)]
pub struct CopyConstraint {
    pub left: usize,
    pub right: usize,
}

/// A cell that must equal the public input at `row`.
#[derive(Clone, Copy, Debug)]
pub struct Exposure {
    pub cell: usize,
    pub row: usize,
}

/// Why a witness does not satisfy a layout.
#[derive(Clone, Copy, Debug, PartialEq, Eq, Structural)]
pub enum Failure {
    /// A constraint names a cell that was never assigned.
    MissingCell,
    /// A cell has no value.
    Unassigned { cell: usize },
    /// A cell bound to a fixed literal holds another value.
    ConstantMismatch { cell: usize },
    /// The shared identity does not hold on the first row of `region`.
    Gate { region: usize, op: Operation },
    /// Two cells that must be equal are not.
    Copy { left: usize, right: usize },
    /// A cell differs from the public input at `row`, or `row` is past its end.
    Instance { row: usize },
}

pub struct Layout {
    /// Whether values are mandatory (a witness pass) or may be absent.
    pub witness: bool,
    /// How many rows of the public input the circuit may refer to.
    pub public_rows: usize,
    /// How many regions have been opened.
    pub regions: usize,
    pub cells: Vec<CellRecord>,
    pub gates: Vec<GateRow>,
    pub copies: Vec<CopyConstraint>,
    pub exposed: Vec<Exposure>,
}

pub struct LayoutView {
    pub witness: bool,
    pub public_rows: nat,
    pub regions: nat,
    pub cells: Seq<CellRecord>,
    pub gates: Seq<GateRow>,
    pub copies: Seq<CopyConstraint>,
    pub exposed: Seq<Exposure>,
}

impl View for Layout {
    type V = LayoutView;

    open spec fn view(&self) -> LayoutView {
        LayoutView {
            witness: self.witness,
            public_rows: self.public_rows as nat,
            regions: self.regions as nat,
            cells: self.cells@,
            gates: self.gates@,
            copies: self.copies@,
            exposed: self.exposed@,
        }
    }
}

impl LayoutView {
    /// Every constraint refers to an existing cell, and every binding to a
    /// declared row of the public input.
    pub open spec fn wf(self) -> bool {
        &&& forall|i: int|
            0 <= i < self.cells.len() ==> (#[trigger] self.cells[i]).region < self.regions
        &&& forall|i: int|
            0 <= i < self.gates.len() ==> {
                let g = #[trigger] self.gates[i];
                &&& g.lhs < self.cells.len()
                &&& g.rhs < self.cells.len()
                &&& g.out < self.cells.len()
                &&& g.region < self.regions
            }
        &&& forall|i: int|
            0 <= i < self.copies.len() ==> {
                let c = #[trigger] self.copies[i];
                c.left < self.cells.len() && c.right < self.cells.len()
            }
        &&& forall|i: int|
            0 <= i < self.exposed.len() ==> {
                let e = #[trigger] self.exposed[i];
                e.cell < self.cells.len() && e.row < self.public_rows
            }
    }

    /// The value of cell `i`, as an integer when it is known.
    pub open spec fn value_at(self, i: int) -> Option<int> {
        opt_value(self.cells[i].value)
    }

    pub open spec fn cell_holds(self, i: int) -> bool {
        &&& self.cells[i].value is Some
        &&& self.cells[i].constant matches Some(k) ==> self.value_at(i) == Some(k@)
    }

    pub open spec fn gate_holds(self, g: GateRow) -> bool {
        &&& g.lhs < self.cells.len()
        &&& g.rhs < self.cells.len()
        &&& g.out < self.cells.len()
        &&& self.value_at(g.out as int) == combine(
            g.op,
            self.value_at(g.lhs as int),
            self.value_at(g.rhs as int),
        )
    }

    pub open spec fn copy_holds(self, c: CopyConstraint) -> bool {
        &&& c.left < self.cells.len()
        &&& c.right < self.cells.len()
        &&& self.value_at(c.left as int) == self.value_at(c.right as int)
    }

    pub open spec fn exposure_holds(self, e: Exposure, public: Seq<Felt>) -> bool {
        &&& e.cell < self.cells.len()
        &&& e.row < public.len()
        &&& self.value_at(e.cell as int) == Some(public[e.row as int]@)
    }

    /// Every cell has a value, and the shared identity, the fixed literals and the
    /// equality constraints all hold.
    pub open spec fn consistent(self) -> bool {
        &&& forall|i: int| 0 <= i < self.cells.len() ==> #[trigger] self.cell_holds(i)
        &&& forall|i: int| 0 <= i < self.gates.len() ==> self.gate_holds(#[trigger] self.gates[i])
        &&& forall|i: int|
            0 <= i < self.copies.len() ==> self.copy_holds(#[trigger] self.copies[i])
    }

    /// The witness satisfies every constraint against the public input.
    pub open spec fn satisfied(self, public: Seq<Felt>) -> bool {
        &&& self.consistent()
        &&& forall|i: int|
            0 <= i < self.exposed.len() ==> self.exposure_holds(#[trigger] self.exposed[i], public)
    }

    /// `f` names a constraint that the witness breaks.
    pub open spec fn violation(self, f: Failure, public: Seq<Felt>) -> bool {
        match f {
            Failure::MissingCell => {
                ||| exists|i: int|
                    0 <= i < self.gates.len() && {
                        let g = #[trigger] self.gates[i];
                        g.lhs >= self.cells.len() || g.rhs >= self.cells.len() || g.out
                            >= self.cells.len()
                    }
                ||| exists|i: int|
                    0 <= i < self.copies.len() && {
                        let c = #[trigger] self.copies[i];
                        c.left >= self.cells.len() || c.right >= self.cells.len()
                    }
                ||| exists|i: int|
                    0 <= i < self.exposed.len() && (#[trigger] self.exposed[i]).cell
                        >= self.cells.len()
            },
            Failure::Unassigned { cell } => cell < self.cells.len() && self.cells[cell as int].value
                is None,
            Failure::ConstantMismatch { cell } => cell < self.cells.len() && !self.cell_holds(
                cell as int,
            ),
            Failure::Gate { region, op } => exists|i: int|
                0 <= i < self.gates.len() && (#[trigger] self.gates[i]).region == region
                    && self.gates[i].op == op && !self.gate_holds(self.gates[i]),
            Failure::Copy { left, right } => exists|i: int|
                0 <= i < self.copies.len() && #[trigger] self.copies[i] == (CopyConstraint {
                    left,
                    right,
                }) && !self.copy_holds(self.copies[i]),
            Failure::Instance { row } => exists|i: int|
                0 <= i < self.exposed.len() && (#[trigger] self.exposed[i]).row == row
                    && !self.exposure_holds(self.exposed[i], public),
        }
    }
}

/// When every cell, gate and equality constraint holds, the only
/// constraints a witness can break are bindings to the public input.
pub proof fn lemma_consistent_fails_only_on_instance(v: LayoutView, f: Failure, public: Seq<Felt>)
    requires
        v.wf(),
        v.consistent(),
        v.violation(f, public),
    ensures
        f is Instance,
{
    match f {
        Failure::MissingCell => {
            if exists|i: int|
                0 <= i < v.gates.len() && {
                    let g = #[trigger] v.gates[i];
                    g.lhs >= v.cells.len() || g.rhs >= v.cells.len() || g.out >= v.cells.len()
                } {
                let i = choose|i: int|
                    0 <= i < v.gates.len() && {
                        let g = #[trigger] v.gates[i];
                        g.lhs >= v.cells.len() || g.rhs >= v.cells.len() || g.out
                            >= v.cells.len()
                    };
                assert(v.gate_holds(v.gates[i]));
            } else if exists|i: int|
                0 <= i < v.copies.len() && {
                    let c = #[trigger] v.copies[i];
                    c.left >= v.cells.len() || c.right >= v.cells.len()
                } {
                let i = choose|i: int|
                    0 <= i < v.copies.len() && {
                        let c = #[trigger] v.copies[i];
                        c.left >= v.cells.len() || c.right >= v.cells.len()
                    };
                assert(v.copy_holds(v.copies[i]));
            } else {
                let i = choose|i: int|
                    0 <= i < v.exposed.len() && (#[trigger] v.exposed[i]).cell >= v.cells.len();
                assert(v.exposed[i].cell < v.cells.len());
            }
        },
        Failure::Unassigned { cell } => {
            assert(v.cell_holds(cell as int));
        },
        Failure::ConstantMismatch { cell } => {
            assert(v.cell_holds(cell as int));
        },
        Failure::Gate { region, op } => {
            let i = choose|i: int|
                0 <= i < v.gates.len() && (#[trigger] v.gates[i]).region == region
                    && v.gates[i].op == op && !v.gate_holds(v.gates[i]);
            assert(v.gate_holds(v.gates[i]));
        },
        Failure::Copy { left, right } => {
            let i = choose|i: int|
                0 <= i < v.copies.len() && #[trigger] v.copies[i] == (CopyConstraint {
                    left,
                    right,
                }) && !v.copy_holds(v.copies[i]);
            assert(v.copy_holds(v.copies[i]));
        },
        Failure::Instance { row } => {},
    }
}

impl Layout {
    /// An empty layout for a witness pass (`witness`) or a pass that only fixes
    /// the shape, with `public_rows` rows of public input.
    pub fn new(witness: bool, public_rows: usize) -> (r: Layout)
        ensures
            r@.witness == witness,
            r@.public_rows == public_rows,
            r@.regions == 0,
            r@.cells.len() == 0,
            r@.gates.len() == 0,
            r@.copies.len() == 0,
            r@.exposed.len() == 0,
            r@.wf(),
            r@.consistent(),
    {
        Layout {
            witness,
            public_rows,
            regions: 0,
            cells: Vec::new(),
            gates: Vec::new(),
            copies: Vec::new(),
            exposed: Vec::new(),
        }
    }

    /// Whether the witness satisfies every constraint given `public` as the
    /// public input; on failure, one constraint that it breaks.
    pub fn check(&self, public: &Vec<Felt>) -> (r: Result<(), Failure>)
        ensures
            r is Ok <==> self@.satisfied(public@),
            r matches Err(f) ==> self@.violation(f, public@),
    {
        let v = Ghost(self@);
        let n = self.cells.len();
        let mut i: usize = 0;
        while i < n
            invariant
                v@ == self@,
                n == self.cells@.len(),
                i <= n,
                forall|j: int| 0 <= j < i ==> #[trigger] v@.cell_holds(j),
            decreases n - i,
        {
            let c = self.cells[i];
            match c.value {
                None => {
                    assert(!v@.cell_holds(i as int));
                    return Err(Failure::Unassigned { cell: i });
                },
                Some(x) => {
                    if let Some(k) = c.constant {
                        if !x.equals(&k) {
                            assert(!v@.cell_holds(i as int));
                            return Err(Failure::ConstantMismatch { cell: i });
                        }
                    }
                },
            }
            i = i + 1;
        }
        let mut i: usize = 0;
        while i < self.gates.len()
            invariant
                v@ == self@,
                n == self.cells@.len(),
                forall|j: int| 0 <= j < n ==> #[trigger] v@.cell_holds(j),
                i <= self.gates@.len(),
                forall|j: int| 0 <= j < i ==> v@.gate_holds(#[trigger] v@.gates[j]),
            decreases self.gates@.len() - i,
        {
            let g = self.gates[i];
            if g.lhs >= n || g.rhs >= n || g.out >= n {
                assert(!v@.gate_holds(v@.gates[i as int]));
                return Err(Failure::MissingCell);
            }
            assert(v@.cell_holds(g.lhs as int) && v@.cell_holds(g.rhs as int) && v@.cell_holds(
                g.out as int,
            ));
            let a = self.cells[g.lhs].value.unwrap();
            let b = self.cells[g.rhs].value.unwrap();
            let out = self.cells[g.out].value.unwrap();
            if !out.equals(&g.op.apply(&a, &b)) {
                assert(!v@.gate_holds(v@.gates[i as int]));
                return Err(Failure::Gate { region: g.region, op: g.op });
            }
            i = i + 1;
        }
        let mut i: usize = 0;
        while i < self.copies.len()
            invariant
                v@ == self@,
                n == self.cells@.len(),
                forall|j: int| 0 <= j < n ==> #[trigger] v@.cell_holds(j),
                forall|j: int| 0 <= j < v@.gates.len() ==> v@.gate_holds(#[trigger] v@.gates[j]),
                i <= self.copies@.len(),
                forall|j: int| 0 <= j < i ==> v@.copy_holds(#[trigger] v@.copies[j]),
            decreases self.copies@.len() - i,
        {
            let c = self.copies[i];
            if c.left >= n || c.right >= n {
                assert(!v@.copy_holds(v@.copies[i as int]));
                return Err(Failure::MissingCell);
            }
            assert(v@.cell_holds(c.left as int) && v@.cell_holds(c.right as int));
            let a = self.cells[c.left].value.unwrap();
            let b = self.cells[c.right].value.unwrap();
            if !a.equals(&b) {
                assert(!v@.copy_holds(v@.copies[i as int]));
                return Err(Failure::Copy { left: c.left, right: c.right });
            }
            i = i + 1;
        }
        assert(v@.consistent());
        let mut i: usize = 0;
        while i < self.exposed.len()
            invariant
                v@ == self@,
                n == self.cells@.len(),
                v@.consistent(),
                i <= self.exposed@.len(),
                forall|j: int|
                    0 <= j < i ==> v@.exposure_holds(#[trigger] v@.exposed[j], public@),
            decreases self.exposed@.len() - i,
        {
            let e = self.exposed[i];
            if e.cell >= n {
                assert(!v@.exposure_holds(v@.exposed[i as int], public@));
                return Err(Failure::MissingCell);
            }
            if e.row >= public.len() {
                assert(!v@.exposure_holds(v@.exposed[i as int], public@));
                return Err(Failure::Instance { row: e.row });
            }
            assert(v@.cell_holds(e.cell as int));
            let a = self.cells[e.cell].value.unwrap();
            if !a.equals(&public[e.row]) {
                assert(!v@.exposure_holds(v@.exposed[i as int], public@));
                return Err(Failure::Instance { row: e.row });
            }
            i = i + 1;
        }
        Ok(())
    }
}

} // verus!
