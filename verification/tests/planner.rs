use circuit_modules::errors::ModuleError;
use circuit_modules::field::FieldElement;
use circuit_modules::module::{optimize_proof_system, Module};
use circuit_modules::planner::{entries_of, sum_of, PassState, Planner, RowRange};
use circuit_modules::sponge::{SpongeConfig, SpongeHash, SpongeParams};
use circuit_modules::system::ColumnCount;
use circuit_modules::tensor::{Column, ColumnKind, ValueTensor};

fn element(v: u8) -> FieldElement {
    let mut repr = [0u8; 32];
    repr[0] = v;
    FieldElement::from_bytes(repr)
}

fn roomy() -> ColumnCount {
    ColumnCount { advice: 8, fixed: 2, instance: 2 }
}

#[test]
fn a_new_pass_is_unconfigured_and_empty() {
    let planner = Planner::new(roomy());
    assert_eq!(planner.state(), PassState::Unconfigured);
    assert_eq!(planner.next_row(), 0);
    assert_eq!(planner.row_budget(), 0);
    assert_eq!(planner.instance_slots(), 0);
    assert!(planner.ranges().is_empty());
    assert_eq!(planner.constants().len(), 0);
    assert_eq!(
        planner.constraint_system().columns(),
        ColumnCount { advice: 0, fixed: 0, instance: 0 }
    );
}

#[test]
fn configure_hands_out_columns_in_order() {
    let mut planner = Planner::new(roomy());
    let first = planner.configure::<SpongeHash<4>>(SpongeParams { chunk: 3 }).unwrap();
    assert_eq!(
        first,
        SpongeConfig {
            staged: Column { kind: ColumnKind::Advice, index: 0 },
            absorbed: Column { kind: ColumnKind::Advice, index: 1 },
            state: Column { kind: ColumnKind::Advice, index: 2 },
            max_chunk: 3,
        }
    );
    assert_eq!(planner.state(), PassState::Configured);
    assert_eq!(
        planner.constraint_system().columns(),
        ColumnCount { advice: 3, fixed: 1, instance: 1 }
    );

    // a second module type shares the constants and the public inputs
    let second = planner.configure::<SpongeHash<2>>(SpongeParams { chunk: 1 }).unwrap();
    assert_eq!(second.staged, Column { kind: ColumnKind::Advice, index: 3 });
    assert_eq!(second.state, Column { kind: ColumnKind::Advice, index: 5 });
    assert_eq!(
        planner.constraint_system().columns(),
        ColumnCount { advice: 6, fixed: 1, instance: 1 }
    );
    assert_eq!(
        planner.constraint_system().constants_column(),
        Some(Column { kind: ColumnKind::Fixed, index: 0 })
    );
    assert_eq!(
        planner.constraint_system().public_inputs_column(),
        Some(Column { kind: ColumnKind::Instance, index: 0 })
    );
}

#[test]
fn configure_fails_when_columns_run_out() {
    let mut planner = Planner::new(ColumnCount { advice: 2, fixed: 1, instance: 1 });
    assert_eq!(
        planner.configure::<SpongeHash<4>>(SpongeParams { chunk: 1 }),
        Err(ModuleError::ConfigurationError)
    );
    assert_eq!(planner.state(), PassState::Unconfigured);
    assert_eq!(
        planner.constraint_system().columns(),
        ColumnCount { advice: 0, fixed: 0, instance: 0 }
    );

    let mut planner = Planner::new(ColumnCount { advice: 3, fixed: 0, instance: 1 });
    assert_eq!(
        planner.configure::<SpongeHash<4>>(SpongeParams { chunk: 1 }),
        Err(ModuleError::ConfigurationError)
    );
    let mut planner = Planner::new(ColumnCount { advice: 3, fixed: 1, instance: 0 });
    assert_eq!(
        planner.configure::<SpongeHash<4>>(SpongeParams { chunk: 1 }),
        Err(ModuleError::ConfigurationError)
    );
    let mut planner = Planner::new(ColumnCount { advice: 5, fixed: 1, instance: 1 });
    assert!(planner.configure::<SpongeHash<4>>(SpongeParams { chunk: 1 }).is_ok());
    assert_eq!(
        planner.configure::<SpongeHash<4>>(SpongeParams { chunk: 1 }),
        Err(ModuleError::ConfigurationError)
    );
    assert_eq!(planner.state(), PassState::Configured);
}

#[test]
fn configure_fails_on_a_zero_chunk() {
    let mut planner = Planner::new(roomy());
    assert_eq!(
        planner.configure::<SpongeHash<4>>(SpongeParams { chunk: 0 }),
        Err(ModuleError::ConfigurationError)
    );
}

#[test]
fn row_budget_is_the_sum_of_the_planned_rows() {
    let mut planner = Planner::new(roomy());
    assert_eq!(planner.reserve::<SpongeHash<4>>(4), Ok(5));
    assert_eq!(planner.reserve::<SpongeHash<2>>(2), Ok(3));
    assert_eq!(planner.reserve::<SpongeHash<0>>(0), Ok(1));
    assert_eq!(planner.row_budget(), 9);
    assert_eq!(planner.reserve::<SpongeHash<4>>(usize::MAX), Err(ModuleError::ConfigurationError));
    assert_eq!(planner.row_budget(), 9);
    assert_eq!(planner.state(), PassState::Unconfigured);
}

#[test]
fn geometry_is_fixed_once_layout_has_begun() {
    let mut planner = Planner::new(roomy());
    let config = planner.configure::<SpongeHash<1>>(SpongeParams { chunk: 1 }).unwrap();
    planner.reserve::<SpongeHash<1>>(1).unwrap();
    let module = SpongeHash::<1>::new(config);
    planner.layout(&module, &[ValueTensor::from_values(&vec![element(3)])]).unwrap();
    assert_eq!(planner.state(), PassState::Running);
    assert_eq!(
        planner.configure::<SpongeHash<1>>(SpongeParams { chunk: 1 }),
        Err(ModuleError::ConfigurationError)
    );
    assert_eq!(planner.reserve::<SpongeHash<1>>(1), Err(ModuleError::ConfigurationError));
    assert_eq!(planner.row_budget(), 2);
    assert_eq!(planner.state(), PassState::Running);
}

#[test]
fn layout_needs_a_configured_pass() {
    let mut planner = Planner::new(roomy());
    let config = SpongeConfig {
        staged: Column { kind: ColumnKind::Advice, index: 0 },
        absorbed: Column { kind: ColumnKind::Advice, index: 1 },
        state: Column { kind: ColumnKind::Advice, index: 2 },
        max_chunk: 1,
    };
    let module = SpongeHash::<1>::new(config);
    let input = [ValueTensor::from_values(&vec![element(3)])];
    assert_eq!(planner.layout(&module, &input), Err(ModuleError::LayoutFailed));
    assert_eq!(planner.layout_inputs(&module, &input), Err(ModuleError::LayoutFailed));
    assert_eq!(planner.state(), PassState::Unconfigured);
}

#[test]
fn layout_beyond_the_reserved_rows_ends_the_pass() {
    let mut planner = Planner::new(roomy());
    let config = planner.configure::<SpongeHash<2>>(SpongeParams { chunk: 1 }).unwrap();
    planner.reserve::<SpongeHash<2>>(2).unwrap();
    let module = SpongeHash::<2>::new(config);
    let input = [ValueTensor::from_values(&vec![element(3), element(4)])];
    assert!(planner.layout(&module, &input).is_ok());
    assert_eq!(planner.next_row(), 3);
    let writes = planner.engine().assignments().len();

    assert_eq!(planner.layout(&module, &input), Err(ModuleError::LayoutFailed));
    assert_eq!(planner.state(), PassState::Finalized);
    assert_eq!(planner.next_row(), 3);
    assert_eq!(planner.ranges(), &vec![RowRange { start: 0, rows: 3 }]);
    assert_eq!(planner.engine().assignments().len(), writes);
}

#[test]
fn nothing_is_laid_out_after_finalize() {
    let mut planner = Planner::new(roomy());
    let config = planner.configure::<SpongeHash<1>>(SpongeParams { chunk: 1 }).unwrap();
    planner.reserve::<SpongeHash<1>>(1).unwrap();
    planner.reserve::<SpongeHash<1>>(1).unwrap();
    let module = SpongeHash::<1>::new(config);
    let input = [ValueTensor::from_values(&vec![element(3)])];
    planner.layout(&module, &input).unwrap();
    planner.finalize();
    assert_eq!(planner.state(), PassState::Finalized);
    assert_eq!(planner.layout(&module, &input), Err(ModuleError::LayoutFailed));
    assert_eq!(planner.layout_inputs(&module, &input), Err(ModuleError::LayoutFailed));
    assert_eq!(planner.next_row(), 2);
    assert_eq!(planner.engine().assignments().len(), 4);
}

#[test]
fn row_ranges_of_mixed_modules_never_overlap() {
    let mut planner = Planner::new(roomy());
    let wide = planner.configure::<SpongeHash<3>>(SpongeParams { chunk: 1 }).unwrap();
    let narrow = planner.configure::<SpongeHash<1>>(SpongeParams { chunk: 1 }).unwrap();
    for _ in 0..3 {
        planner.reserve::<SpongeHash<3>>(3).unwrap();
        planner.reserve::<SpongeHash<1>>(1).unwrap();
    }
    let wide = SpongeHash::<3>::new(wide);
    let narrow = SpongeHash::<1>::new(narrow);
    let three = [ValueTensor::from_values(&vec![element(1), element(2), element(3)])];
    let one = [ValueTensor::from_values(&vec![element(9)])];
    for _ in 0..3 {
        planner.layout(&wide, &three).unwrap();
        planner.layout(&narrow, &one).unwrap();
    }
    let ranges = planner.ranges();
    assert_eq!(ranges.len(), 6);
    assert_eq!(ranges[0], RowRange { start: 0, rows: 4 });
    assert_eq!(ranges[1], RowRange { start: 4, rows: 2 });
    assert_eq!(ranges[5], RowRange { start: 16, rows: 2 });
    for i in 0..ranges.len() {
        for j in (i + 1)..ranges.len() {
            assert!(ranges[i].start + ranges[i].rows <= ranges[j].start);
        }
    }
    assert_eq!(planner.next_row(), 18);
    assert_eq!(planner.next_row(), planner.row_budget());
    // two modules, one zero constant
    assert_eq!(planner.constants().len(), 1);
    assert_eq!(planner.engine().constant_count(), 1);
}

#[test]
fn declared_slots_add_up_over_a_sequence() {
    let mut planner = Planner::new(roomy());
    let wide = planner.configure::<SpongeHash<3>>(SpongeParams { chunk: 1 }).unwrap();
    let narrow = planner.configure::<SpongeHash<1>>(SpongeParams { chunk: 1 }).unwrap();
    for _ in 0..4 {
        planner.reserve::<SpongeHash<3>>(3).unwrap();
    }
    let wide = SpongeHash::<3>::new(wide);
    let narrow = SpongeHash::<1>::new(narrow);
    let three = [ValueTensor::from_values(&vec![element(1), element(2), element(3)])];
    let one = [ValueTensor::from_values(&vec![element(9)])];
    let mut declared = 0;
    for _ in 0..2 {
        planner.layout_inputs(&wide, &three).unwrap();
        declared += wide.instance_increment_input().iter().sum::<usize>();
        planner.layout_inputs(&narrow, &one).unwrap();
        declared += narrow.instance_increment_input().iter().sum::<usize>();
        assert_eq!(planner.instance_slots(), declared);
        assert_eq!(planner.engine().instance_count(), declared);
    }
    assert_eq!(declared, 8);
    assert_eq!(planner.engine().constraints().len(), 8);
}

#[test]
fn optimize_takes_a_chunk_that_fits() {
    let mut planner = Planner::new(roomy());
    let config = planner.configure::<SpongeHash<4>>(SpongeParams { chunk: 8 }).unwrap();
    let mut module = SpongeHash::<4>::new(config);
    assert_eq!(module.chunk(), 8);
    assert_eq!(optimize_proof_system(&mut module, SpongeParams { chunk: 2 }), Ok(()));
    assert_eq!(module.chunk(), 2);
    assert_eq!(module.configuration(), config);
    assert_eq!(module.optimize(SpongeParams { chunk: 8 }), Ok(()));
    assert_eq!(module.chunk(), 8);
    assert_eq!(module.instance_increment_input(), vec![4]);
}

#[test]
fn optimize_refuses_a_chunk_that_does_not_fit() {
    let mut planner = Planner::new(roomy());
    let config = planner.configure::<SpongeHash<4>>(SpongeParams { chunk: 8 }).unwrap();
    let mut module = SpongeHash::<4>::new(config);
    assert_eq!(
        optimize_proof_system(&mut module, SpongeParams { chunk: 9 }),
        Err(ModuleError::OptimizeFailed)
    );
    assert_eq!(
        optimize_proof_system(&mut module, SpongeParams { chunk: 0 }),
        Err(ModuleError::OptimizeFailed)
    );
    assert_eq!(module.chunk(), 8);
    assert_eq!(module.configuration(), config);
}

#[test]
fn sums_stop_at_the_machine_word() {
    assert_eq!(sum_of(&vec![]), Some(0));
    assert_eq!(sum_of(&vec![1, 2, 3]), Some(6));
    assert_eq!(sum_of(&vec![usize::MAX, 0]), Some(usize::MAX));
    assert_eq!(sum_of(&vec![usize::MAX, 1]), None);
    let three = ValueTensor::from_values(&vec![element(1), element(2), element(3)]);
    let one = ValueTensor::from_values(&vec![element(1)]);
    assert_eq!(entries_of(&[]), Some(0));
    assert_eq!(entries_of(&[three, one]), Some(4));
}
