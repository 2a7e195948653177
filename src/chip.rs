//! The arithmetic chip: each step of a computation opens one region of the
//! layout, places its cells, switches on the right selector and ties reused
//! values to the cells they came from by equality constraints.

use crate::field::Felt;
use crate::layout::{
    combine, opt_value, CellRecord, CopyConstraint, Exposure, GateRow, Layout, LayoutView,
    Operation, LHS_COLUMN, RHS_COLUMN,
};
use vstd::prelude::*;

verus! {

/// A handle on an assigned cell: its index in the layout's arena and its
/// value, when known.
#[derive(Clone, Copy, Debug)]
pub struct AssignedValue {
    pub cell: usize,
    pub value: Option<Felt>,
}

/// Why synthesis stopped.
#[derive(Clone, Copy, Debug, PartialEq, Eq, Structural)]
pub enum Error {
    /// A witness pass needed a value that was not supplied, in this region.
    SynthesisAbsentValue { region: usize },
    /// A value was bound to a row past the declared public input.
    OutOfRangePublicInput { row: usize },
}

impl LayoutView {
    /// `h` was produced by this layout and still describes its cell.
    pub open spec fn produced(self, h: AssignedValue) -> bool {
        h.cell < self.cells.len() && self.cells[h.cell as int].value == h.value
    }

    /// There is room for `k` more cells and one more region.
    pub open spec fn has_room(self, k: int) -> bool {
        self.cells.len() + k <= usize::MAX && self.regions < usize::MAX
    }

    /// `new` is `self` with one more region, holding a single cell with
    /// `value` (bound to the literal `constant`, if any) on the first row of
    /// the left column; `h` is its handle.
    pub open spec fn load_appended(
        self,
        new: LayoutView,
        value: Option<Felt>,
        constant: Option<Felt>,
        h: AssignedValue,
    ) -> bool {
        let n = self.cells.len() as int;
        &&& new.witness == self.witness
        &&& new.public_rows == self.public_rows
        &&& new.regions == self.regions + 1
        &&& new.cells == self.cells.push(
            CellRecord {
                region: self.regions as usize,
                column: LHS_COLUMN,
                offset: 0,
                value,
                constant,
            },
        )
        &&& new.gates == self.gates
        &&& new.copies == self.copies
        &&& new.exposed == self.exposed
        &&& h == AssignedValue { cell: n as usize, value }
    }

    /// `new` is `self` with one more region for `op` on `a` and `b`: copies of
    /// `a` and `b` on its first row, the result below `a`'s copy, the selector
    /// of `op` on its first row; `h` is the result's handle.
    pub open spec fn op_appended(
        self,
        new: LayoutView,
        op: Operation,
        a: AssignedValue,
        b: AssignedValue,
        h: AssignedValue,
    ) -> bool {
        let n = self.cells.len() as int;
        let r = self.regions as usize;
        &&& new.witness == self.witness
        &&& new.public_rows == self.public_rows
        &&& new.regions == self.regions + 1
        &&& new.cells.len() == n + 3
        &&& new.cells.take(n + 2) == self.cells.push(
            CellRecord { region: r, column: LHS_COLUMN, offset: 0, value: a.value, constant: None },
        ).push(
            CellRecord { region: r, column: RHS_COLUMN, offset: 0, value: b.value, constant: None },
        )
        &&& new.cells[n + 2].region == r
        &&& new.cells[n + 2].column == LHS_COLUMN
        &&& new.cells[n + 2].offset == 1
        &&& new.cells[n + 2].constant is None
        &&& opt_value(new.cells[n + 2].value) == combine(
            op,
            opt_value(a.value),
            opt_value(b.value),
        )
        &&& new.gates == self.gates.push(
            GateRow { op, region: r, lhs: n as usize, rhs: (n + 1) as usize, out: (n + 2) as usize },
        )
        &&& new.copies == self.copies.push(CopyConstraint { left: a.cell, right: n as usize }).push(
            CopyConstraint { left: b.cell, right: (n + 1) as usize },
        )
        &&& new.exposed == self.exposed
        &&& h == AssignedValue { cell: (n + 2) as usize, value: new.cells[n + 2].value }
    }
}

/// Places `x` in a region of its own, as a free input. In a witness pass
/// an absent `x` stops synthesis here.
pub fn load_private(layout: &mut Layout, x: Option<Felt>) -> (r: Result<AssignedValue, Error>)
    requires
        old(layout)@.wf(),
        old(layout)@.has_room(1),
    ensures
        r is Err <==> old(layout)@.witness && x is None,
        r is Err ==> r == Err::<AssignedValue, Error>(
            Error::SynthesisAbsentValue { region: old(layout).regions },
        ) && final(layout)@ == old(layout)@,
        r matches Ok(h) ==> old(layout)@.load_appended(final(layout)@, x, None, h),
        final(layout)@.wf(),
        old(layout)@.consistent() && x is Some ==> final(layout)@.consistent(),
{
    if layout.witness && x.is_none() {
        return Err(Error::SynthesisAbsentValue { region: layout.regions });
    }
    load_cell(layout, x, None)
}

/// Places the literal `c` in a region of its own, bound to the fixed
/// column so that the value is known to be `c`.
pub fn load_constant(layout: &mut Layout, c: Felt) -> (h: AssignedValue)
    requires
        old(layout)@.wf(),
        old(layout)@.has_room(1),
    ensures
        old(layout)@.load_appended(final(layout)@, Some(c), Some(c), h),
        final(layout)@.wf(),
        old(layout)@.consistent() ==> final(layout)@.consistent(),
{
    match load_cell(layout, Some(c), Some(c)) {
        Ok(h) => h,
        Err(_) => {
            assert(false);
            AssignedValue { cell: 0, value: None }
        },
    }
}

fn load_cell(layout: &mut Layout, value: Option<Felt>, constant: Option<Felt>) -> (r: Result<
    AssignedValue,
    Error,
>)
    requires
        old(layout)@.wf(),
        old(layout)@.has_room(1),
        old(layout)@.witness ==> value is Some,
        constant matches Some(k) ==> value == Some(k),
    ensures
        r matches Ok(h) && old(layout)@.load_appended(final(layout)@, value, constant, h),
        final(layout)@.wf(),
        old(layout)@.consistent() && value is Some ==> final(layout)@.consistent(),
{
    let ghost v = old(layout)@;
    let n = layout.cells.len();
    layout.cells.push(CellRecord { region: layout.regions, column: LHS_COLUMN, offset: 0, value, constant });
    layout.regions = layout.regions + 1;
    let ghost w = layout@;
    assert forall|i: int| 0 <= i < n implies w.cells[i] == v.cells[i] by {}
    assert forall|i: int| 0 <= i < w.cells.len() implies (#[trigger] w.cells[i]).region < w.regions by {
        if i < n {
            assert(v.cells[i].region < v.regions);
        }
    }
    assert forall|i: int| 0 <= i < w.gates.len() implies {
        let g = #[trigger] w.gates[i];
        g.lhs < w.cells.len() && g.rhs < w.cells.len() && g.out < w.cells.len() && g.region < w.regions
    } by {
        let g = v.gates[i];
        assert(g.lhs < v.cells.len() && g.rhs < v.cells.len() && g.out < v.cells.len() && g.region < v.regions);
    }
    assert forall|i: int| 0 <= i < w.copies.len() implies {
        let c = #[trigger] w.copies[i];
        c.left < w.cells.len() && c.right < w.cells.len()
    } by {
        let c = v.copies[i];
        assert(c.left < v.cells.len() && c.right < v.cells.len());
    }
    assert forall|i: int| 0 <= i < w.exposed.len() implies {
        let e = #[trigger] w.exposed[i];
        e.cell < w.cells.len() && e.row < w.public_rows
    } by {
        let e = v.exposed[i];
        assert(e.cell < v.cells.len() && e.row < v.public_rows);
    }
    proof {
        if v.consistent() && value is Some {
            assert forall|i: int| 0 <= i < w.cells.len() implies #[trigger] w.cell_holds(i) by {
                if i < n {
                    assert(v.cell_holds(i));
                }
            }
            assert forall|i: int| 0 <= i < w.gates.len() implies w.gate_holds(#[trigger] w.gates[i]) by {
                assert(v.gate_holds(v.gates[i]));
            }
            assert forall|i: int| 0 <= i < w.copies.len() implies w.copy_holds(#[trigger] w.copies[i]) by {
                assert(v.copy_holds(v.copies[i]));
            }
        }
    }
    Ok(AssignedValue { cell: n, value })
}

/// `old` with `layout.exposed` one longer and nothing else changed.
pub open spec fn exposure_appended(old: LayoutView, new: LayoutView, e: Exposure) -> bool {
    &&& new.witness == old.witness
    &&& new.public_rows == old.public_rows
    &&& new.regions == old.regions
    &&& new.cells == old.cells
    &&& new.gates == old.gates
    &&& new.copies == old.copies
    &&& new.exposed == old.exposed.push(e)
}

/// Multiplies `a` by `b` in a region of its own. In a witness pass both
/// values must be known; otherwise an unknown operand gives an unknown result.
pub fn mul(layout: &mut Layout, a: AssignedValue, b: AssignedValue) -> (r: Result<
    AssignedValue,
    Error,
>)
    requires
        old(layout)@.wf(),
        old(layout)@.produced(a),
        old(layout)@.produced(b),
        old(layout)@.has_room(3),
    ensures
        r is Err <==> old(layout)@.witness && (a.value is None || b.value is None),
        r is Err ==> r == Err::<AssignedValue, Error>(
            Error::SynthesisAbsentValue { region: old(layout).regions },
        ) && final(layout)@ == old(layout)@,
        r matches Ok(h) ==> old(layout)@.op_appended(final(layout)@, Operation::Mul, a, b, h),
        final(layout)@.wf(),
        old(layout)@.consistent() && r is Ok ==> final(layout)@.consistent(),
{
    assign_op(layout, Operation::Mul, a, b)
}

/// Adds `a` and `b` in a region of its own, in the same shape as `mul`.
pub fn add(layout: &mut Layout, a: AssignedValue, b: AssignedValue) -> (r: Result<
    AssignedValue,
    Error,
>)
    requires
        old(layout)@.wf(),
        old(layout)@.produced(a),
        old(layout)@.produced(b),
        old(layout)@.has_room(3),
    ensures
        r is Err <==> old(layout)@.witness && (a.value is None || b.value is None),
        r is Err ==> r == Err::<AssignedValue, Error>(
            Error::SynthesisAbsentValue { region: old(layout).regions },
        ) && final(layout)@ == old(layout)@,
        r matches Ok(h) ==> old(layout)@.op_appended(final(layout)@, Operation::Add, a, b, h),
        final(layout)@.wf(),
        old(layout)@.consistent() && r is Ok ==> final(layout)@.consistent(),
{
    assign_op(layout, Operation::Add, a, b)
}

fn assign_op(layout: &mut Layout, op: Operation, a: AssignedValue, b: AssignedValue) -> (r:
    Result<AssignedValue, Error>)
    requires
        old(layout)@.wf(),
        old(layout)@.produced(a),
        old(layout)@.produced(b),
        old(layout)@.has_room(3),
    ensures
        r is Err <==> old(layout)@.witness && (a.value is None || b.value is None),
        r is Err ==> r == Err::<AssignedValue, Error>(
            Error::SynthesisAbsentValue { region: old(layout).regions },
        ) && final(layout)@ == old(layout)@,
        r matches Ok(h) ==> old(layout)@.op_appended(final(layout)@, op, a, b, h),
        final(layout)@.wf(),
        old(layout)@.consistent() && r is Ok ==> final(layout)@.consistent(),
{
    if layout.witness && (a.value.is_none() || b.value.is_none()) {
        return Err(Error::SynthesisAbsentValue { region: layout.regions });
    }
    let value = match (a.value, b.value) {
        (Some(x), Some(y)) => Some(op.apply(&x, &y)),
        _ => None,
    };
    let ghost v = old(layout)@;
    let n = layout.cells.len();
    let region = layout.regions;
    layout.cells.push(CellRecord { region, column: LHS_COLUMN, offset: 0, value: a.value, constant: None });
    layout.cells.push(CellRecord { region, column: RHS_COLUMN, offset: 0, value: b.value, constant: None });
    layout.cells.push(CellRecord { region, column: LHS_COLUMN, offset: 1, value, constant: None });
    layout.gates.push(GateRow { op, region, lhs: n, rhs: n + 1, out: n + 2 });
    layout.copies.push(CopyConstraint { left: a.cell, right: n });
    layout.copies.push(CopyConstraint { left: b.cell, right: n + 1 });
    layout.regions = region + 1;
    let ghost w = layout@;
    assert(w.cells.take(n + 2) =~= v.cells.push(w.cells[n as int]).push(w.cells[n + 1]));
    assert forall|i: int| 0 <= i < n implies w.cells[i] == v.cells[i] by {}
    assert forall|i: int| 0 <= i < w.cells.len() implies (#[trigger] w.cells[i]).region < w.regions by {
        if i < n {
            assert(v.cells[i].region < v.regions);
        }
    }
    assert forall|i: int| 0 <= i < w.gates.len() implies {
        let g = #[trigger] w.gates[i];
        g.lhs < w.cells.len() && g.rhs < w.cells.len() && g.out < w.cells.len() && g.region < w.regions
    } by {
        if i < v.gates.len() {
            let g = v.gates[i];
            assert(g.lhs < v.cells.len() && g.rhs < v.cells.len() && g.out < v.cells.len() && g.region < v.regions);
        }
    }
    assert forall|i: int| 0 <= i < w.copies.len() implies {
        let c = #[trigger] w.copies[i];
        c.left < w.cells.len() && c.right < w.cells.len()
    } by {
        if i < v.copies.len() {
            let c = v.copies[i];
            assert(c.left < v.cells.len() && c.right < v.cells.len());
        }
    }
    assert forall|i: int| 0 <= i < w.exposed.len() implies {
        let e = #[trigger] w.exposed[i];
        e.cell < w.cells.len() && e.row < w.public_rows
    } by {
        let e = v.exposed[i];
        assert(e.cell < v.cells.len() && e.row < v.public_rows);
    }
    proof {
        if v.consistent() {
            assert(v.cell_holds(a.cell as int));
            assert(v.cell_holds(b.cell as int));
            assert forall|i: int| 0 <= i < w.cells.len() implies #[trigger] w.cell_holds(i) by {
                if i < n {
                    assert(v.cell_holds(i));
                }
            }
            assert forall|i: int| 0 <= i < w.gates.len() implies w.gate_holds(#[trigger] w.gates[i]) by {
                if i < v.gates.len() {
                    assert(v.gate_holds(v.gates[i]));
                }
            }
            assert forall|i: int| 0 <= i < w.copies.len() implies w.copy_holds(#[trigger] w.copies[i]) by {
                if i < v.copies.len() {
                    assert(v.copy_holds(v.copies[i]));
                }
            }
        }
    }
    Ok(AssignedValue { cell: n + 2, value })
}

/// Binds the cell of `num` to row `row` of the public input. Opens no region.
pub fn expose_public(layout: &mut Layout, num: AssignedValue, row: usize) -> (r: Result<
    AssignedValue,
    Error,
>)
    requires
        old(layout)@.wf(),
        old(layout)@.produced(num),
    ensures
        r is Err <==> row >= old(layout).public_rows,
        r is Err ==> r == Err::<AssignedValue, Error>(Error::OutOfRangePublicInput { row })
            && final(layout)@ == old(layout)@,
        r is Ok ==> r == Ok::<AssignedValue, Error>(num) && exposure_appended(
            old(layout)@,
            final(layout)@,
            Exposure { cell: num.cell, row },
        ),
        final(layout)@.wf(),
        old(layout)@.consistent() ==> final(layout)@.consistent(),
{
    if row >= layout.public_rows {
        return Err(Error::OutOfRangePublicInput { row });
    }
    let ghost v = old(layout)@;
    layout.exposed.push(Exposure { cell: num.cell, row });
    let ghost w = layout@;
    assert(w.cells == v.cells && w.gates == v.gates && w.copies == v.copies);
    proof {
        if v.consistent() {
            assert forall|i: int| 0 <= i < w.cells.len() implies #[trigger] w.cell_holds(i) by {
                assert(v.cell_holds(i));
            }
            assert forall|i: int| 0 <= i < w.gates.len() implies w.gate_holds(#[trigger] w.gates[i]) by {
                assert(v.gate_holds(v.gates[i]));
            }
            assert forall|i: int| 0 <= i < w.copies.len() implies w.copy_holds(#[trigger] w.copies[i]) by {
                assert(v.copy_holds(v.copies[i]));
            }
        }
        assert forall|i: int| 0 <= i < w.exposed.len() implies {
            let e = #[trigger] w.exposed[i];
            e.cell < w.cells.len() && e.row < w.public_rows
        } by {
            if i < v.exposed.len() {
                let e = v.exposed[i];
                assert(e.cell < v.cells.len() && e.row < v.public_rows);
            }
        }
    }
    Ok(num)
}

/// A constant loaded into an empty layout and bound straight to row `row` of
/// the public input is accepted exactly when that row holds the constant.
pub proof fn lemma_constant_exposed(
    v0: LayoutView,
    v1: LayoutView,
    v2: LayoutView,
    c: Felt,
    h: AssignedValue,
    row: usize,
    public: Seq<Felt>,
)
    requires
        v0.cells.len() == 0,
        v0.gates.len() == 0,
        v0.copies.len() == 0,
        v0.exposed.len() == 0,
        v0.load_appended(v1, Some(c), Some(c), h),
        exposure_appended(v1, v2, Exposure { cell: h.cell, row }),
    ensures
        v2.satisfied(public) <==> row < public.len() && public[row as int]@ == c@,
{
    assert(v2.cells[0].value == Some(c));
    assert(v2.exposed[0] == Exposure { cell: 0, row });
    if row < public.len() && public[row as int]@ == c@ {
        assert(v2.cell_holds(0));
        assert(v2.exposure_holds(v2.exposed[0], public));
    }
}

} // verus!
