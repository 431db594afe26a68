use circuit_modules::constants::ConstantsCache;
use circuit_modules::engine::{LayoutEngine, Link, Write};
use circuit_modules::errors::{ErrorClass, ModuleError};
use circuit_modules::field::FieldElement;
use circuit_modules::system::{ColumnCount, ConstraintSystem};
use circuit_modules::tensor::{CellHandle, CellValue, Column, ColumnKind, ValueTensor};

fn value(v: u8) -> FieldElement {
    let mut repr = [0u8; 32];
    repr[0] = v;
    FieldElement::from_bytes(repr)
}

fn advice(index: usize, row: usize) -> CellHandle {
    CellHandle { column: Column { kind: ColumnKind::Advice, index }, row }
}

fn fixed(index: usize, row: usize) -> CellHandle {
    CellHandle { column: Column { kind: ColumnKind::Fixed, index }, row }
}

fn instance(index: usize, row: usize) -> CellHandle {
    CellHandle { column: Column { kind: ColumnKind::Instance, index }, row }
}

fn system(advice: usize, fixed: usize, instance: usize) -> ConstraintSystem {
    let mut cs = ConstraintSystem::new(ColumnCount { advice: 8, fixed: 8, instance: 8 });
    cs.enable_constants().unwrap();
    cs.enable_public_inputs().unwrap();
    for _ in 0..advice {
        cs.allocate(ColumnKind::Advice).unwrap();
    }
    for _ in 1..fixed {
        cs.allocate(ColumnKind::Fixed).unwrap();
    }
    for _ in 1..instance {
        cs.allocate(ColumnKind::Instance).unwrap();
    }
    cs
}

#[test]
fn errors_fall_into_two_classes() {
    assert_eq!(ModuleError::ConfigurationError.class(), ErrorClass::Integration);
    assert_eq!(ModuleError::LayoutFailed.class(), ErrorClass::Integration);
    assert_eq!(ModuleError::RunFailed.class(), ErrorClass::Input);
    assert_eq!(ModuleError::OptimizeFailed.class(), ErrorClass::Input);
    assert!(ModuleError::RunFailed.is_recoverable());
    assert!(ModuleError::OptimizeFailed.is_recoverable());
    assert!(!ModuleError::ConfigurationError.is_recoverable());
    assert!(!ModuleError::LayoutFailed.is_recoverable());
}

#[test]
fn field_elements_compare_by_their_bytes() {
    assert!(value(3).equals(&value(3)));
    assert!(!value(3).equals(&value(4)));
    let mut high = [0u8; 32];
    high[31] = 3;
    assert!(!value(3).equals(&FieldElement::from_bytes(high)));
    assert_eq!(FieldElement::zero().to_bytes(), [0u8; 32]);
    assert_eq!(FieldElement::from_bytes(high).to_bytes(), high);
}

#[test]
fn field_elements_are_ordered_by_the_number_they_denote() {
    let mut high = [0u8; 32];
    high[31] = 1;
    let high = FieldElement::from_bytes(high);
    let mut middle = [0xffu8; 32];
    middle[31] = 0;
    let middle = FieldElement::from_bytes(middle);
    assert!(value(3).less_than(&value(4)));
    assert!(!value(4).less_than(&value(3)));
    assert!(!value(4).less_than(&value(4)));
    assert!(value(255).less_than(&high));
    assert!(middle.less_than(&high));
    assert!(!high.less_than(&middle));
    assert!(value(255).less_than(&middle));
    assert!(FieldElement::zero().less_than(&value(1)));
    assert!(!FieldElement::zero().less_than(&FieldElement::zero()));
}

#[test]
fn the_cache_finds_constants_asked_for_in_any_order() {
    let mut engine = LayoutEngine::new(&system(1, 1, 1), 16);
    let mut cache = ConstantsCache::new();
    let order = [7u8, 3, 11, 0, 9, 1, 255, 4];
    for (row, v) in order.iter().enumerate() {
        assert_eq!(cache.get(&value(*v)), None);
        assert_eq!(cache.get_or_assign(value(*v), &mut engine), Ok(fixed(0, row)));
    }
    assert_eq!(cache.len(), order.len());
    for (row, v) in order.iter().enumerate() {
        assert_eq!(cache.get(&value(*v)), Some(fixed(0, row)));
        assert_eq!(cache.get_or_assign(value(*v), &mut engine), Ok(fixed(0, row)));
        assert_eq!(engine.find(fixed(0, row)), Some(value(*v)));
    }
    assert_eq!(cache.get(&value(5)), None);
    assert_eq!(cache.len(), order.len());
    assert_eq!(engine.constant_count(), order.len());
}

#[test]
fn columns_are_numbered_in_the_order_they_are_handed_out() {
    let mut cs = ConstraintSystem::new(ColumnCount { advice: 2, fixed: 1, instance: 1 });
    assert_eq!(cs.room(ColumnKind::Advice), 2);
    assert_eq!(cs.allocate(ColumnKind::Advice), Ok(Column { kind: ColumnKind::Advice, index: 0 }));
    assert_eq!(cs.allocate(ColumnKind::Advice), Ok(Column { kind: ColumnKind::Advice, index: 1 }));
    assert_eq!(cs.allocate(ColumnKind::Advice), Err(ModuleError::ConfigurationError));
    assert_eq!(cs.room(ColumnKind::Advice), 0);
    assert_eq!(cs.columns(), ColumnCount { advice: 2, fixed: 0, instance: 0 });
    assert_eq!(cs.columns().get(ColumnKind::Advice), 2);
    assert_eq!(cs.allocate(ColumnKind::Fixed), Ok(Column { kind: ColumnKind::Fixed, index: 0 }));
    assert_eq!(
        cs.allocate(ColumnKind::Instance),
        Ok(Column { kind: ColumnKind::Instance, index: 0 })
    );
    assert_eq!(cs.allocate(ColumnKind::Instance), Err(ModuleError::ConfigurationError));
}

#[test]
fn shared_columns_are_set_aside_once() {
    let mut cs = ConstraintSystem::new(ColumnCount { advice: 0, fixed: 2, instance: 1 });
    assert_eq!(cs.constants_column(), None);
    cs.allocate(ColumnKind::Fixed).unwrap();
    let constants = cs.enable_constants().unwrap();
    assert_eq!(constants, Column { kind: ColumnKind::Fixed, index: 1 });
    assert_eq!(cs.enable_constants(), Ok(constants));
    assert_eq!(cs.columns().fixed, 2);
    let public = cs.enable_public_inputs().unwrap();
    assert_eq!(public, Column { kind: ColumnKind::Instance, index: 0 });
    assert_eq!(cs.enable_public_inputs(), Ok(public));
    assert_eq!(cs.public_inputs_column(), Some(public));

    let mut full = ConstraintSystem::new(ColumnCount { advice: 0, fixed: 0, instance: 0 });
    assert_eq!(full.enable_constants(), Err(ModuleError::ConfigurationError));
    assert_eq!(full.enable_public_inputs(), Err(ModuleError::ConfigurationError));
    assert_eq!(full.constants_column(), None);
}

#[test]
fn a_cell_holds_one_value() {
    let mut engine = LayoutEngine::new(&system(2, 1, 1), 4);
    assert_eq!(engine.height(), 4);
    assert_eq!(engine.assign(advice(0, 1), value(7)), Ok(()));
    assert_eq!(engine.find(advice(0, 1)), Some(value(7)));
    assert_eq!(engine.find(advice(0, 2)), None);
    // the same value again is no conflict
    assert_eq!(engine.assign(advice(0, 1), value(7)), Ok(()));
    // another value is
    assert_eq!(engine.assign(advice(0, 1), value(8)), Err(ModuleError::LayoutFailed));
    assert_eq!(engine.find(advice(0, 1)), Some(value(7)));
    assert_eq!(engine.assignments().len(), 2);
}

#[test]
fn writes_outside_the_grid_are_rejected() {
    let mut engine = LayoutEngine::new(&system(2, 2, 1), 4);
    assert_eq!(engine.assign(advice(0, 4), value(1)), Err(ModuleError::LayoutFailed));
    assert_eq!(engine.assign(advice(2, 0), value(1)), Err(ModuleError::LayoutFailed));
    assert_eq!(engine.assign(instance(0, 0), value(1)), Err(ModuleError::LayoutFailed));
    // fixed column 0 is kept for the shared constants
    assert_eq!(engine.assign(fixed(0, 0), value(1)), Err(ModuleError::LayoutFailed));
    assert_eq!(engine.assign(fixed(1, 0), value(1)), Ok(()));
    assert_eq!(engine.assign(advice(1, 3), value(1)), Ok(()));
    assert!(engine.contains(advice(1, 3)));
    assert!(!engine.contains(advice(1, 4)));
    assert_eq!(
        engine.assignments(),
        &vec![
            Write { cell: fixed(1, 0), value: value(1) },
            Write { cell: advice(1, 3), value: value(1) }
        ]
    );
}

#[test]
fn constants_fill_their_column_from_the_top() {
    let mut engine = LayoutEngine::new(&system(1, 1, 1), 2);
    assert_eq!(engine.assign_constant(value(5)), Ok(fixed(0, 0)));
    assert_eq!(engine.assign_constant(value(6)), Ok(fixed(0, 1)));
    assert_eq!(engine.assign_constant(value(7)), Err(ModuleError::LayoutFailed));
    assert_eq!(engine.constant_count(), 2);
    assert_eq!(engine.find(fixed(0, 1)), Some(value(6)));

    let bare = ConstraintSystem::new(ColumnCount { advice: 1, fixed: 1, instance: 1 });
    let mut engine = LayoutEngine::new(&bare, 2);
    assert_eq!(engine.assign_constant(value(5)), Err(ModuleError::LayoutFailed));
}

#[test]
fn equality_constraints_need_cells_of_the_grid() {
    let mut engine = LayoutEngine::new(&system(2, 1, 1), 4);
    assert_eq!(engine.constrain_equal(advice(0, 0), advice(1, 3)), Ok(()));
    assert_eq!(engine.constrain_equal(advice(0, 0), fixed(0, 0)), Ok(()));
    assert_eq!(engine.constrain_equal(advice(0, 0), advice(1, 4)), Err(ModuleError::LayoutFailed));
    assert_eq!(engine.constrain_equal(advice(2, 0), advice(1, 3)), Err(ModuleError::LayoutFailed));
    assert_eq!(
        engine.constrain_equal(advice(0, 0), instance(0, 0)),
        Err(ModuleError::LayoutFailed)
    );
    assert_eq!(
        engine.constraints(),
        &vec![
            Link { left: advice(0, 0), right: advice(1, 3) },
            Link { left: advice(0, 0), right: fixed(0, 0) }
        ]
    );
}

#[test]
fn public_input_slots_are_given_out_in_order() {
    let mut engine = LayoutEngine::new(&system(2, 1, 1), 2);
    assert_eq!(engine.bind_instance(advice(0, 1)), Ok(0));
    assert_eq!(engine.bind_instance(fixed(0, 0)), Err(ModuleError::LayoutFailed));
    assert_eq!(engine.bind_instance(advice(0, 2)), Err(ModuleError::LayoutFailed));
    assert_eq!(engine.bind_instance(advice(1, 0)), Ok(1));
    assert_eq!(engine.bind_instance(advice(1, 1)), Err(ModuleError::LayoutFailed));
    assert_eq!(engine.instance_count(), 2);
    assert_eq!(
        engine.constraints(),
        &vec![
            Link { left: advice(0, 1), right: instance(0, 0) },
            Link { left: advice(1, 0), right: instance(0, 1) }
        ]
    );
}

#[test]
fn batches_stop_at_the_first_rejection() {
    let mut engine = LayoutEngine::new(&system(2, 1, 1), 4);
    let plan = vec![
        Write { cell: advice(0, 0), value: value(1) },
        Write { cell: advice(0, 1), value: value(2) },
        Write { cell: advice(0, 0), value: value(3) },
        Write { cell: advice(0, 2), value: value(4) },
    ];
    assert_eq!(engine.assign_all(&plan), Err(ModuleError::LayoutFailed));
    assert_eq!(engine.assignments(), &plan[..2].to_vec());

    let mut engine = LayoutEngine::new(&system(2, 1, 1), 4);
    let plan = vec![
        Write { cell: advice(0, 0), value: value(1) },
        Write { cell: advice(0, 0), value: value(1) },
        Write { cell: advice(1, 0), value: value(2) },
    ];
    assert_eq!(engine.assign_all(&plan), Ok(()));
    assert_eq!(engine.assignments(), &plan);

    let links = vec![
        Link { left: advice(0, 0), right: advice(1, 0) },
        Link { left: advice(0, 0), right: advice(1, 9) },
    ];
    assert_eq!(engine.link_all(&links), Err(ModuleError::LayoutFailed));
    assert_eq!(engine.constraints().len(), 1);

    assert_eq!(engine.bind_all(&vec![]), Ok(()));
    assert_eq!(engine.bind_all(&vec![advice(0, 0), advice(1, 0)]), Ok(()));
    assert_eq!(engine.instance_count(), 2);
    // two slots are left: three cells find no room, and none is tied
    assert_eq!(
        engine.bind_all(&vec![advice(0, 1), advice(0, 2), advice(0, 3)]),
        Err(ModuleError::LayoutFailed)
    );
    assert_eq!(engine.instance_count(), 2);
    assert_eq!(engine.constraints().len(), 3);
    assert_eq!(
        engine.bind_all(&vec![advice(0, 1), fixed(0, 0)]),
        Err(ModuleError::LayoutFailed)
    );
    assert_eq!(engine.instance_count(), 2);
    assert_eq!(engine.bind_all(&vec![advice(0, 1), advice(0, 2)]), Ok(()));
    assert_eq!(engine.instance_count(), 4);
}

#[test]
fn the_cache_hands_out_one_cell_for_each_constant() {
    let mut engine = LayoutEngine::new(&system(1, 1, 1), 3);
    let mut cache = ConstantsCache::new();
    assert_eq!(cache.get(&value(9)), None);
    let nine = cache.get_or_assign(value(9), &mut engine).unwrap();
    assert_eq!(nine, fixed(0, 0));
    let zero = cache.get_or_assign(FieldElement::zero(), &mut engine).unwrap();
    assert_eq!(zero, fixed(0, 1));
    // asked again, each constant keeps its cell and the grid stays as it is
    assert_eq!(cache.get_or_assign(value(9), &mut engine), Ok(nine));
    assert_eq!(cache.get_or_assign(FieldElement::zero(), &mut engine), Ok(zero));
    assert_eq!(cache.len(), 2);
    assert_eq!(engine.constant_count(), 2);
    assert_eq!(engine.assignments().len(), 2);
    assert_eq!(cache.get(&value(9)), Some(nine));
    assert_eq!(engine.find(nine), Some(value(9)));
    assert_eq!(engine.find(zero), Some(FieldElement::zero()));
}

#[test]
fn the_cache_fails_when_the_constants_column_is_full() {
    let mut engine = LayoutEngine::new(&system(1, 1, 1), 1);
    let mut cache = ConstantsCache::new();
    assert_eq!(cache.get_or_assign(value(1), &mut engine), Ok(fixed(0, 0)));
    assert_eq!(cache.get_or_assign(value(2), &mut engine), Err(ModuleError::LayoutFailed));
    assert_eq!(cache.len(), 1);
    assert_eq!(cache.get(&value(2)), None);
    // what is cached is still served
    assert_eq!(cache.get_or_assign(value(1), &mut engine), Ok(fixed(0, 0)));
}

#[test]
fn tensors_need_extents_that_match_their_entries() {
    let six: Vec<CellValue> = (0..6).map(|v| CellValue::Known(value(v))).collect();
    assert!(ValueTensor::new(six.clone(), vec![2, 3]).is_some());
    assert!(ValueTensor::new(six.clone(), vec![6]).is_some());
    assert!(ValueTensor::new(six.clone(), vec![1, 6, 1]).is_some());
    assert_eq!(ValueTensor::new(six.clone(), vec![2, 2]), None);
    assert_eq!(ValueTensor::new(six.clone(), vec![]), None);
    assert_eq!(ValueTensor::new(six.clone(), vec![6, 0]), None);
    assert_eq!(ValueTensor::new(six.clone(), vec![usize::MAX, 2]), None);
    assert!(ValueTensor::new(vec![], vec![usize::MAX, 2, 0]).is_some());
    assert!(ValueTensor::new(vec![], vec![0]).is_some());
    assert!(ValueTensor::new(vec![CellValue::Unassigned], vec![]).is_some());

    let tensor = ValueTensor::new(six, vec![2, 3]).unwrap();
    assert_eq!(tensor.len(), 6);
    assert_eq!(tensor.rank(), 2);
    assert_eq!(tensor.shape(), vec![2, 3]);
    assert_eq!(tensor.extent(1), Some(3));
    assert_eq!(tensor.extent(2), None);
    assert_eq!(tensor.get(4), Some(CellValue::Known(value(4))));
    assert_eq!(tensor.get(6), None);
}

#[test]
fn tensor_values_need_every_entry() {
    let cell = advice(0, 0);
    let entries = vec![
        CellValue::Known(value(1)),
        CellValue::Assigned { value: value(2), cell },
    ];
    let tensor = ValueTensor::new(entries, vec![2]).unwrap();
    assert_eq!(tensor.values(), Some(vec![value(1), value(2)]));
    assert_eq!(tensor.get(0).unwrap().cell(), None);
    assert_eq!(tensor.get(1).unwrap().cell(), Some(cell));
    assert_eq!(tensor.get(1).unwrap().value(), Some(value(2)));

    let holes = vec![CellValue::Known(value(1)), CellValue::Unassigned];
    let tensor = ValueTensor::new(holes, vec![2]).unwrap();
    assert_eq!(tensor.values(), None);
    assert_eq!(CellValue::Unassigned.value(), None);

    let flat = ValueTensor::from_values(&vec![value(1), value(2), value(3)]);
    assert_eq!(flat.shape(), vec![3]);
    assert_eq!(flat.get(2), Some(CellValue::Known(value(3))));
    assert_eq!(ValueTensor::from_values(&vec![]).len(), 0);
}
