use circuit_modules::errors::ModuleError;
use circuit_modules::field::FieldElement;
use circuit_modules::module::Module;
use circuit_modules::planner::{PassState, Planner, RowRange};
use circuit_modules::sponge::{SpongeHash, SpongeParams};
use circuit_modules::system::ColumnCount;
use circuit_modules::tensor::{CellHandle, CellValue, Column, ColumnKind, ValueTensor};
use halo2curves::bn256::Fr;
use halo2curves::ff::Field;

const MODULUS_LE: [u8; 32] = [
    0x01, 0x00, 0x00, 0xf0, 0x93, 0xf5, 0xe1, 0x43, 0x91, 0x70, 0xb9, 0x79, 0x48, 0xe8, 0x33, 0x28,
    0x5d, 0x58, 0x81, 0x81, 0xb6, 0x45, 0x50, 0xb8, 0x29, 0xa0, 0x31, 0xe1, 0x72, 0x4e, 0x64, 0x30,
];

fn small(v: u64) -> FieldElement {
    let mut repr = [0u8; 32];
    repr[..8].copy_from_slice(&v.to_le_bytes());
    FieldElement::from_bytes(repr)
}

fn reference_digest(inputs: &[FieldElement]) -> FieldElement {
    let mut state = Fr::zero();
    for x in inputs {
        let x = Fr::from_bytes(&x.to_bytes()).unwrap();
        state = (state + x).pow([5u64]);
    }
    FieldElement::from_bytes(state.to_bytes())
}

fn pass_for_two() -> (Planner, SpongeHash<4>) {
    let mut planner = Planner::new(ColumnCount { advice: 3, fixed: 1, instance: 1 });
    let config = planner.configure::<SpongeHash<4>>(SpongeParams { chunk: 2 }).unwrap();
    assert_eq!(planner.reserve::<SpongeHash<4>>(4), Ok(5));
    assert_eq!(planner.reserve::<SpongeHash<4>>(4), Ok(5));
    (planner, SpongeHash::<4>::new(config))
}

#[test]
fn run_of_one_input_is_its_fifth_power() {
    assert_eq!(SpongeHash::<1>::run(vec![small(1)]), Ok(vec![vec![small(1)]]));
    assert_eq!(SpongeHash::<1>::run(vec![small(2)]), Ok(vec![vec![small(32)]]));
    assert_eq!(SpongeHash::<1>::run(vec![small(3)]), Ok(vec![vec![small(243)]]));
}

#[test]
fn run_chains_the_state_through_every_input() {
    // (0 + 1)^5 = 1, (1 + 2)^5 = 243, (243 + 1)^5 = 864866612224
    assert_eq!(SpongeHash::<2>::run(vec![small(1), small(2)]), Ok(vec![vec![small(243)]]));
    assert_eq!(
        SpongeHash::<3>::run(vec![small(1), small(2), small(1)]),
        Ok(vec![vec![small(864_866_612_224)]])
    );
}

#[test]
fn run_reduces_modulo_the_field_order() {
    let mut minus_one = MODULUS_LE;
    minus_one[0] = 0x00;
    let minus_one = FieldElement::from_bytes(minus_one);
    // (-1)^5 = -1
    assert_eq!(SpongeHash::<1>::run(vec![minus_one]), Ok(vec![vec![minus_one]]));
    // (-1 + 1)^5 = 0
    assert_eq!(
        SpongeHash::<2>::run(vec![small(1), minus_one]),
        Ok(vec![vec![FieldElement::zero()]])
    );
}

#[test]
fn run_agrees_with_field_arithmetic_of_the_curve_library() {
    let inputs = vec![small(7), small(u64::MAX), small(123_456_789), small(0)];
    let expected = reference_digest(&inputs);
    assert_eq!(SpongeHash::<4>::run(inputs), Ok(vec![vec![expected]]));
}

#[test]
fn run_of_no_inputs_is_zero() {
    assert_eq!(SpongeHash::<0>::run(vec![]), Ok(vec![vec![FieldElement::zero()]]));
}

#[test]
fn run_rejects_wrong_arity() {
    assert_eq!(
        SpongeHash::<4>::run(vec![small(1), small(2), small(3)]),
        Err(ModuleError::RunFailed)
    );
    assert_eq!(
        SpongeHash::<4>::run(vec![small(1), small(2), small(3), small(4), small(5)]),
        Err(ModuleError::RunFailed)
    );
    assert_eq!(SpongeHash::<4>::run(vec![]), Err(ModuleError::RunFailed));
}

#[test]
fn run_rejects_bytes_that_are_no_residue() {
    let modulus = FieldElement::from_bytes(MODULUS_LE);
    assert_eq!(SpongeHash::<1>::run(vec![modulus]), Err(ModuleError::RunFailed));
    let all_ones = FieldElement::from_bytes([0xff; 32]);
    assert_eq!(
        SpongeHash::<2>::run(vec![small(1), all_ones]),
        Err(ModuleError::RunFailed)
    );
}

#[test]
fn layout_matches_run_and_takes_num_rows() {
    let (mut planner, module) = pass_for_two();
    let inputs = vec![small(11), small(22), small(33), small(44)];
    let expected = SpongeHash::<4>::run(inputs.clone()).unwrap();

    let first = planner.layout(&module, &[ValueTensor::from_values(&inputs)]).unwrap();
    assert_eq!(first.shape(), vec![1, 1]);
    assert_eq!(first.values(), Some(expected[0].clone()));
    assert_eq!(planner.next_row(), SpongeHash::<4>::num_rows(4));
    assert_eq!(planner.ranges(), &vec![RowRange { start: 0, rows: 5 }]);

    let second = planner.layout(&module, &[ValueTensor::from_values(&inputs)]).unwrap();
    assert_eq!(second.values(), Some(expected[0].clone()));
    assert_eq!(
        planner.ranges(),
        &vec![RowRange { start: 0, rows: 5 }, RowRange { start: 5, rows: 5 }]
    );
    assert_eq!(planner.next_row(), 10);
    assert_eq!(planner.state(), PassState::Running);

    let state = Column { kind: ColumnKind::Advice, index: 2 };
    assert_eq!(first.get(0).unwrap().cell(), Some(CellHandle { column: state, row: 4 }));
    assert_eq!(second.get(0).unwrap().cell(), Some(CellHandle { column: state, row: 9 }));
}

#[test]
fn layout_writes_inputs_and_states_row_by_row() {
    let (mut planner, module) = pass_for_two();
    let inputs = vec![small(1), small(2), small(1), small(0)];
    planner.layout(&module, &[ValueTensor::from_values(&inputs)]).unwrap();

    let absorbed = Column { kind: ColumnKind::Advice, index: 1 };
    let state = Column { kind: ColumnKind::Advice, index: 2 };
    let engine = planner.engine();
    for (row, x) in inputs.iter().enumerate() {
        assert_eq!(engine.find(CellHandle { column: absorbed, row }), Some(*x));
    }
    let states = [0u64, 1, 243, 864_866_612_224];
    for (row, s) in states.iter().enumerate() {
        assert_eq!(engine.find(CellHandle { column: state, row }), Some(small(*s)));
    }
    assert_eq!(
        engine.find(CellHandle { column: state, row: 4 }),
        Some(reference_digest(&inputs))
    );
    assert_eq!(engine.find(CellHandle { column: absorbed, row: 4 }), None);
    // eight cells of the invocation, one inputs-free state, one constant
    assert_eq!(engine.assignments().len(), 10);
}

#[test]
fn zero_constant_is_shared_between_invocations() {
    let (mut planner, module) = pass_for_two();
    let inputs = vec![small(5), small(6), small(7), small(8)];
    planner.layout(&module, &[ValueTensor::from_values(&inputs)]).unwrap();
    let zero_cell = planner.constants().get(&FieldElement::zero());
    let fixed = Column { kind: ColumnKind::Fixed, index: 0 };
    assert_eq!(zero_cell, Some(CellHandle { column: fixed, row: 0 }));
    assert_eq!(planner.constants().len(), 1);

    planner.layout(&module, &[ValueTensor::from_values(&inputs)]).unwrap();
    assert_eq!(planner.constants().get(&FieldElement::zero()), zero_cell);
    assert_eq!(planner.constants().len(), 1);
    assert_eq!(planner.engine().constant_count(), 1);

    // both invocations tie their first state to the one cell
    let state = Column { kind: ColumnKind::Advice, index: 2 };
    let links = planner.engine().constraints();
    assert_eq!(links.len(), 2);
    assert_eq!(links[0].left, zero_cell.unwrap());
    assert_eq!(links[0].right, CellHandle { column: state, row: 0 });
    assert_eq!(links[1].left, zero_cell.unwrap());
    assert_eq!(links[1].right, CellHandle { column: state, row: 5 });
}

#[test]
fn zero_constant_does_not_depend_on_who_asked_first() {
    // a pass in which only the second invocation of the pass above runs
    let (mut planner, module) = pass_for_two();
    let inputs = vec![small(5), small(6), small(7), small(8)];
    let alone = planner.layout(&module, &[ValueTensor::from_values(&inputs)]).unwrap();
    assert_eq!(planner.constants().len(), 1);
    assert_eq!(
        planner.engine().find(planner.constants().get(&FieldElement::zero()).unwrap()),
        Some(FieldElement::zero())
    );

    let (mut both, module) = pass_for_two();
    let other = vec![small(9), small(9), small(9), small(9)];
    both.layout(&module, &[ValueTensor::from_values(&other)]).unwrap();
    let second = both.layout(&module, &[ValueTensor::from_values(&inputs)]).unwrap();
    assert_eq!(second.values(), alone.values());
}

#[test]
fn layout_rejects_inputs_that_run_rejects() {
    let (mut planner, module) = pass_for_two();
    let short = vec![small(1), small(2), small(3)];
    assert_eq!(
        planner.layout(&module, &[ValueTensor::from_values(&short)]),
        Err(ModuleError::RunFailed)
    );
    assert_eq!(planner.state(), PassState::Finalized);
    assert_eq!(planner.engine().assignments().len(), 0);
    assert_eq!(planner.next_row(), 0);
}

#[test]
fn layout_rejects_placeholders_and_several_tensors() {
    let (mut planner, module) = pass_for_two();
    let cells = vec![
        CellValue::Known(small(1)),
        CellValue::Unassigned,
        CellValue::Known(small(3)),
        CellValue::Known(small(4)),
    ];
    let tensor = ValueTensor::new(cells, vec![4]).unwrap();
    assert_eq!(planner.layout(&module, &[tensor]), Err(ModuleError::RunFailed));

    let (mut planner, module) = pass_for_two();
    let half = vec![small(1), small(2)];
    let pair = [ValueTensor::from_values(&half), ValueTensor::from_values(&half)];
    assert_eq!(planner.layout(&module, &pair), Err(ModuleError::RunFailed));
}

#[test]
fn layout_inputs_takes_the_declared_slots() {
    let (mut planner, module) = pass_for_two();
    assert_eq!(module.instance_increment_input(), vec![4]);
    let inputs = vec![small(1), small(2), small(3), small(4)];
    let staged = planner.layout_inputs(&module, &[ValueTensor::from_values(&inputs)]).unwrap();
    assert_eq!(planner.instance_slots(), 4);
    assert_eq!(planner.engine().instance_count(), 4);
    assert_eq!(staged.shape(), vec![4]);
    assert_eq!(staged.values(), Some(inputs.clone()));

    let column = Column { kind: ColumnKind::Advice, index: 0 };
    let public = Column { kind: ColumnKind::Instance, index: 0 };
    let links = planner.engine().constraints();
    assert_eq!(links.len(), 4);
    for row in 0..4 {
        assert_eq!(staged.get(row).unwrap().cell(), Some(CellHandle { column, row }));
        assert_eq!(links[row].left, CellHandle { column, row });
        assert_eq!(links[row].right, CellHandle { column: public, row });
    }

    let again = planner.layout_inputs(&module, &[ValueTensor::from_values(&inputs)]).unwrap();
    assert_eq!(planner.instance_slots(), 8);
    assert_eq!(planner.engine().instance_count(), 8);
    assert_eq!(again.get(0).unwrap().cell(), Some(CellHandle { column, row: 4 }));
    // staging takes no rows of the shared row space
    assert_eq!(planner.next_row(), 0);
}

#[test]
fn layout_ties_staged_inputs_to_their_absorbed_copies() {
    let (mut planner, module) = pass_for_two();
    let inputs = vec![small(1), small(2), small(3), small(4)];
    let staged = planner.layout_inputs(&module, &[ValueTensor::from_values(&inputs)]).unwrap();
    let out = planner.layout(&module, &[staged]).unwrap();
    assert_eq!(out.values(), Some(vec![reference_digest(&inputs)]));

    let staged_column = Column { kind: ColumnKind::Advice, index: 0 };
    let absorbed = Column { kind: ColumnKind::Advice, index: 1 };
    let links = planner.engine().constraints();
    // four public inputs, the zero constant, four copies
    assert_eq!(links.len(), 9);
    assert_eq!(planner.instance_slots(), planner.engine().instance_count());
    for row in 0..4 {
        assert_eq!(links[5 + row].left, CellHandle { column: staged_column, row });
        assert_eq!(links[5 + row].right, CellHandle { column: absorbed, row });
    }
}

#[test]
fn layout_inputs_fails_without_free_slots() {
    let mut planner = Planner::new(ColumnCount { advice: 3, fixed: 1, instance: 1 });
    let config = planner.configure::<SpongeHash<4>>(SpongeParams { chunk: 1 }).unwrap();
    let module = SpongeHash::<4>::new(config);
    // no rows reserved: the grid has no public-input slot
    let inputs = vec![small(1), small(2), small(3), small(4)];
    assert_eq!(
        planner.layout_inputs(&module, &[ValueTensor::from_values(&inputs)]),
        Err(ModuleError::LayoutFailed)
    );
    assert_eq!(planner.state(), PassState::Finalized);
    assert_eq!(planner.instance_slots(), 0);
    assert_eq!(planner.engine().instance_count(), 0);
}

#[test]
fn a_failed_staging_takes_no_slot() {
    let mut planner = Planner::new(ColumnCount { advice: 3, fixed: 1, instance: 1 });
    let config = planner.configure::<SpongeHash<4>>(SpongeParams { chunk: 1 }).unwrap();
    // six rows: room for one staging of four inputs, not for two
    planner.reserve::<SpongeHash<4>>(5).unwrap();
    let module = SpongeHash::<4>::new(config);
    let inputs = vec![small(1), small(2), small(3), small(4)];
    planner.layout_inputs(&module, &[ValueTensor::from_values(&inputs)]).unwrap();
    assert_eq!(planner.instance_slots(), 4);
    assert_eq!(
        planner.layout_inputs(&module, &[ValueTensor::from_values(&inputs)]),
        Err(ModuleError::LayoutFailed)
    );
    assert_eq!(planner.instance_slots(), 4);
    assert_eq!(planner.engine().instance_count(), 4);
    assert_eq!(planner.state(), PassState::Finalized);
}

#[test]
fn num_rows_never_decreases() {
    let mut last = 0;
    for n in 0..200usize {
        let rows = SpongeHash::<4>::num_rows(n);
        assert_eq!(rows, n + 1);
        assert!(rows >= last);
        last = rows;
    }
    assert_eq!(SpongeHash::<4>::num_rows(usize::MAX - 1), usize::MAX);
    assert_eq!(SpongeHash::<4>::num_rows(usize::MAX), usize::MAX);
    assert_eq!(SpongeHash::<4>::num_rows(7), SpongeHash::<4>::num_rows(7));
}

#[test]
fn name_is_stable() {
    let (_, module) = pass_for_two();
    assert_eq!(module.name(), "sponge");
    let other = SpongeHash::<4>::new(module.configuration());
    assert_eq!(other.name(), module.name());
}
