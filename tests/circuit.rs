use cubic_circuit::chip::{add, expose_public, load_constant, load_private, mul, Error};
use cubic_circuit::circuit::{prove_and_check, relation_result, CubicCircuit, RESULT_CELL};
use cubic_circuit::field::Felt;
use cubic_circuit::layout::{CopyConstraint, Failure, Layout, Operation};

fn fe(v: u64) -> Felt {
    Felt::from_u64(v)
}

fn modulus_limbs() -> [u64; 4] {
    [0x992d30ed00000001, 0x224698fc094cf91b, 0, 0x4000000000000000]
}

fn bytes_of_limbs(limbs: [u64; 4]) -> [u8; 32] {
    let mut out = [0u8; 32];
    for (i, l) in limbs.iter().enumerate() {
        out[8 * i..8 * i + 8].copy_from_slice(&l.to_le_bytes());
    }
    out
}

fn minus_one() -> Felt {
    let mut limbs = modulus_limbs();
    limbs[0] -= 1;
    Felt::from_bytes(bytes_of_limbs(limbs)).unwrap()
}

fn value_of(layout: &Layout, cell: usize) -> Felt {
    layout.cells[cell].value.unwrap()
}

#[test]
fn intermediate_values_for_three_and_five() {
    let circuit = CubicCircuit { constant: fe(5), x: Some(fe(3)) };
    let layout = circuit.synthesize(true).unwrap();
    assert!(value_of(&layout, 0).equals(&fe(3)));
    assert!(value_of(&layout, 1).equals(&fe(5)));
    assert!(value_of(&layout, 4).equals(&fe(9)));
    assert!(value_of(&layout, 7).equals(&fe(27)));
    assert!(value_of(&layout, 10).equals(&fe(30)));
    assert!(value_of(&layout, RESULT_CELL).equals(&fe(35)));
    assert_eq!(layout.check(&vec![fe(35)]), Ok(()));
}

#[test]
fn wrong_public_result_fails_at_instance_row_zero() {
    let circuit = CubicCircuit { constant: fe(5), x: Some(fe(3)) };
    let layout = circuit.synthesize(true).unwrap();
    assert_eq!(layout.check(&vec![fe(36)]), Err(Failure::Instance { row: 0 }));
    assert_eq!(prove_and_check(fe(3), fe(5), fe(36)), Err(Failure::Instance { row: 0 }));
}

#[test]
fn absent_private_value_fails_at_load_private() {
    let circuit = CubicCircuit { constant: fe(5), x: None };
    assert_eq!(circuit.synthesize(true).err(), Some(Error::SynthesisAbsentValue { region: 0 }));
}

#[test]
fn structure_pass_without_witness_succeeds() {
    let circuit = CubicCircuit { constant: fe(5), x: Some(fe(3)) };
    let shape = circuit.without_witnesses();
    assert!(shape.x.is_none());
    let first = shape.synthesize(false).unwrap();
    let second = shape.synthesize(false).unwrap();
    let full = circuit.synthesize(true).unwrap();
    for l in [&first, &second] {
        assert_eq!(l.regions, full.regions);
        assert_eq!(l.cells.len(), full.cells.len());
        assert_eq!(l.gates.len(), full.gates.len());
        assert_eq!(l.copies.len(), full.copies.len());
        assert_eq!(l.exposed.len(), full.exposed.len());
    }
    assert!(first.cells[0].value.is_none());
    assert!(first.cells[RESULT_CELL].value.is_none());
    assert_eq!(first.check(&vec![fe(35)]), Err(Failure::Unassigned { cell: 0 }));
}

#[test]
fn true_result_accepted_for_several_inputs() {
    for x in [0u64, 1, 2, 7, 1000, u64::MAX] {
        let expected = relation_result(&fe(x), &fe(5));
        assert_eq!(prove_and_check(fe(x), fe(5), expected), Ok(()));
    }
    assert_eq!(prove_and_check(fe(7), fe(5), fe(355)), Ok(()));
    assert_eq!(prove_and_check(fe(3), fe(5), fe(35)), Ok(()));
}

#[test]
fn wrong_result_rejected_for_several_inputs() {
    for x in [0u64, 1, 2, 7, 1000] {
        let expected = relation_result(&fe(x), &fe(5));
        let wrong = expected.add(&fe(1));
        assert_eq!(prove_and_check(fe(x), fe(5), wrong), Err(Failure::Instance { row: 0 }));
    }
}

#[test]
fn relation_result_of_three_and_five() {
    assert!(relation_result(&fe(3), &fe(5)).equals(&fe(35)));
    assert!(relation_result(&fe(7), &fe(5)).equals(&fe(355)));
    // x = -1: -1 - 1 + 5 = 3
    assert!(relation_result(&minus_one(), &fe(5)).equals(&fe(3)));
}

#[test]
fn constant_exposed_directly() {
    let mut layout = Layout::new(true, 1);
    let c = load_constant(&mut layout, fe(5));
    let h = expose_public(&mut layout, c, 0).unwrap();
    assert_eq!(h.cell, c.cell);
    assert_eq!(layout.check(&vec![fe(5)]), Ok(()));
    assert_eq!(layout.check(&vec![fe(6)]), Err(Failure::Instance { row: 0 }));
    assert_eq!(layout.check(&vec![]), Err(Failure::Instance { row: 0 }));
}

#[test]
fn expose_past_declared_rows() {
    let mut layout = Layout::new(true, 1);
    let c = load_constant(&mut layout, fe(5));
    assert_eq!(
        expose_public(&mut layout, c, 1).err(),
        Some(Error::OutOfRangePublicInput { row: 1 })
    );
    assert!(layout.exposed.is_empty());
}

#[test]
fn mul_and_add_shapes() {
    let mut layout = Layout::new(true, 1);
    let a = load_private(&mut layout, Some(fe(6))).unwrap();
    let b = load_private(&mut layout, Some(fe(7))).unwrap();
    let p = mul(&mut layout, a, b).unwrap();
    assert!(p.value.unwrap().equals(&fe(42)));
    let s = add(&mut layout, a, b).unwrap();
    assert!(s.value.unwrap().equals(&fe(13)));
    assert_eq!(layout.regions, 4);
    assert_eq!(layout.cells.len(), 8);
    assert_eq!(layout.gates.len(), 2);
    assert_eq!(layout.gates[0].op, Operation::Mul);
    assert_eq!(layout.gates[1].op, Operation::Add);
    assert_eq!((layout.cells[p.cell].offset, layout.cells[p.cell].column), (1, 0));
    assert_eq!(layout.copies.len(), 4);
    assert_eq!(layout.check(&vec![]), Ok(()));
}

#[test]
fn absent_operand_in_witness_and_structure_passes() {
    let mut layout = Layout::new(false, 1);
    let a = load_private(&mut layout, None).unwrap();
    let b = load_private(&mut layout, Some(fe(2))).unwrap();
    let p = mul(&mut layout, a, b).unwrap();
    assert!(p.value.is_none());

    let mut witness = Layout::new(true, 1);
    let b = load_private(&mut witness, Some(fe(2))).unwrap();
    let unknown = cubic_circuit::chip::AssignedValue { cell: b.cell, value: None };
    assert_eq!(mul(&mut witness, b, b).unwrap().cell, 3);
    let before = witness.cells.len();
    witness.cells[b.cell].value = None;
    assert_eq!(
        add(&mut witness, unknown, unknown).err(),
        Some(Error::SynthesisAbsentValue { region: 2 })
    );
    assert_eq!(witness.cells.len(), before);
}

#[test]
fn tampered_gate_output_is_reported() {
    let circuit = CubicCircuit { constant: fe(5), x: Some(fe(3)) };
    let mut layout = circuit.synthesize(true).unwrap();
    layout.cells[4].value = Some(fe(10));
    assert_eq!(
        layout.check(&vec![fe(35)]),
        Err(Failure::Gate { region: 2, op: Operation::Mul })
    );
}

#[test]
fn tampered_constant_is_reported() {
    let circuit = CubicCircuit { constant: fe(5), x: Some(fe(3)) };
    let mut layout = circuit.synthesize(true).unwrap();
    layout.cells[1].value = Some(fe(6));
    assert_eq!(layout.check(&vec![fe(35)]), Err(Failure::ConstantMismatch { cell: 1 }));
}

#[test]
fn broken_copy_is_reported() {
    let mut layout = Layout::new(true, 1);
    load_private(&mut layout, Some(fe(1))).unwrap();
    load_private(&mut layout, Some(fe(2))).unwrap();
    layout.copies.push(CopyConstraint { left: 0, right: 1 });
    assert_eq!(layout.check(&vec![]), Err(Failure::Copy { left: 0, right: 1 }));
    layout.copies[0] = CopyConstraint { left: 0, right: 9 };
    assert_eq!(layout.check(&vec![]), Err(Failure::MissingCell));
}

#[test]
fn field_arithmetic_wraps_at_the_modulus() {
    assert!(fe(3).mul(&fe(4)).equals(&fe(12)));
    assert!(fe(3).add(&fe(4)).equals(&fe(7)));
    assert!(minus_one().add(&fe(1)).equals(&fe(0)));
    assert!(minus_one().mul(&minus_one()).equals(&fe(1)));
    assert!(!fe(3).equals(&fe(4)));
}

#[test]
fn field_encoding() {
    assert!(Felt::from_bytes(bytes_of_limbs(modulus_limbs())).is_none());
    assert!(Felt::from_bytes([0xff; 32]).is_none());
    let mut small = [0u8; 32];
    small[0] = 35;
    assert!(Felt::from_bytes(small).unwrap().equals(&fe(35)));
    assert_eq!(fe(258).to_bytes()[..2], [2, 1]);
    assert_eq!(minus_one().to_bytes()[31], 0x40);
}
