use halo2_base::{Assigned, AssignedValue, Context, ContextCell, CopyConstraintManager, QuantumCell};

fn trivial(v: u64) -> Assigned {
    Assigned::Trivial(v)
}

#[test]
fn scenario_constant_witness_batch() {
    let mut store = CopyConstraintManager::new();
    let mut ctx = Context::new(false, 0, 1, 0);
    ctx.load_constant(5, &mut store);
    ctx.load_witness(7, &mut store);
    ctx.assign_region(vec![QuantumCell::Witness(3), QuantumCell::Witness(4)], vec![0], &mut store);
    assert_eq!(ctx.advice, vec![trivial(5), trivial(7), trivial(3), trivial(4)]);
    assert_eq!(ctx.selector, vec![false, false, true, false]);
    assert!(store.constant_equalities.contains(&(5, ContextCell::new(1, 0, 0))));
    assert_eq!(store.constant_equalities.len(), 1);
    assert!(store.advice_equalities.is_empty());
}

#[test]
fn scenario_two_builders_share_store() {
    let mut store = CopyConstraintManager::new();
    let mut a = Context::new(false, 0, 3, 0);
    let mut b = Context::new(false, 0, 3, 1);
    let x = a.load_constant(9, &mut store);
    b.load_witness(1, &mut store);
    b.assign_cell(QuantumCell::Existing(x), &mut store);
    let new_cell = ContextCell::new(3, 1, 1);
    assert!(store.advice_equalities.contains(&(new_cell, ContextCell::new(3, 0, 0))));
    assert_eq!(b.advice[1], trivial(9));
    assert_eq!(b.get(1).cell, Some(new_cell));
}

#[test]
fn single_appends_grow_by_one() {
    let mut store = CopyConstraintManager::new();
    let mut ctx = Context::new(false, 2, 4, 6);
    let inputs = [
        QuantumCell::Witness(10),
        QuantumCell::Constant(11),
        QuantumCell::WitnessFraction(Assigned::Rational(1, 3)),
        QuantumCell::Witness(12),
    ];
    for (i, q) in inputs.iter().enumerate() {
        ctx.assign_cell(*q, &mut store);
        assert_eq!(ctx.advice.len(), i + 1);
    }
    assert_eq!(ctx.get(0).value, trivial(10));
    assert_eq!(ctx.get(1).value, trivial(11));
    assert_eq!(ctx.get(2).value, Assigned::Rational(1, 3));
    assert_eq!(ctx.get(3).value, trivial(12));
    // a single append does not touch the flags
    assert!(ctx.selector.is_empty());
}

#[test]
fn negative_offsets_count_from_end() {
    let mut store = CopyConstraintManager::new();
    let mut ctx = Context::new(false, 0, 0, 0);
    ctx.assign_witnesses(vec![20, 21, 22], &mut store);
    assert_eq!(ctx.get(-1), ctx.last().unwrap());
    for k in 1..=3isize {
        assert_eq!(ctx.get(-k), ctx.get(3 - k));
    }
    assert_eq!(ctx.get(-3).value, trivial(20));
    assert_eq!(ctx.get(-1).cell, Some(ContextCell::new(0, 0, 2)));
}

#[test]
fn witness_only_records_nothing() {
    let mut store = CopyConstraintManager::new();
    let mut ctx = Context::new(true, 0, 1, 0);
    let c = ctx.load_constant(5, &mut store);
    let w = ctx.load_witness(7, &mut store);
    assert_eq!(c.cell, None);
    assert_eq!(w.cell, None);
    ctx.assign_cell(QuantumCell::Existing(w), &mut store);
    ctx.assign_region_smart(
        vec![QuantumCell::Witness(1), QuantumCell::Constant(2)],
        vec![0],
        vec![(0, 1)],
        vec![(None, 0)],
        &mut store,
    );
    ctx.constrain_equal(&c, &w, &mut store);
    let z = ctx.load_zero(&mut store);
    assert_eq!(z.cell, None);
    assert_eq!(ctx.get(-1).cell, None);
    assert!(store.advice_equalities.is_empty());
    assert!(store.constant_equalities.is_empty());
    assert!(ctx.selector.is_empty());
    assert_eq!(ctx.advice, vec![trivial(5), trivial(7), trivial(7), trivial(1), trivial(2), trivial(0)]);
}

#[test]
fn same_inputs_same_values_in_both_modes() {
    let mut s1 = CopyConstraintManager::new();
    let mut s2 = CopyConstraintManager::new();
    let mut keygen = Context::new(false, 0, 1, 0);
    let mut witness = Context::new(true, 0, 1, 0);
    for ctx in [&mut keygen, &mut witness] {
        let store = if ctx.witness_gen_only() { &mut s2 } else { &mut s1 };
        let a = ctx.load_witness(3, store);
        ctx.assign_region(vec![QuantumCell::Existing(a), QuantumCell::Constant(8)], vec![-1], store);
    }
    assert_eq!(keygen.advice, witness.advice);
    assert_eq!(s1.advice_equalities.len(), 1);
    assert_eq!(s1.constant_equalities.len(), 1);
    assert!(s2.advice_equalities.is_empty());
}

#[test]
fn gate_flags_exact_in_new_span() {
    let mut store = CopyConstraintManager::new();
    let mut ctx = Context::new(false, 0, 0, 0);
    ctx.assign_cell(QuantumCell::Witness(1), &mut store);
    ctx.assign_region(
        vec![QuantumCell::Witness(2), QuantumCell::Witness(3), QuantumCell::Witness(4), QuantumCell::Witness(5)],
        vec![1, 3],
        &mut store,
    );
    assert_eq!(ctx.selector.len(), ctx.advice.len());
    assert_eq!(ctx.selector, vec![false, false, true, false, true]);
    // a negative offset reaches back before the first new row
    ctx.assign_region(vec![QuantumCell::Witness(6)], vec![-1], &mut store);
    assert_eq!(ctx.selector, vec![false, false, true, false, true, false]);
}

#[test]
fn load_zero_twice_same_cell() {
    let mut store = CopyConstraintManager::new();
    let mut ctx = Context::new(false, 0, 2, 5);
    ctx.load_witness(4, &mut store);
    let z1 = ctx.load_zero(&mut store);
    let len = ctx.advice.len();
    let z2 = ctx.load_zero(&mut store);
    assert_eq!(z1, z2);
    assert_eq!(ctx.advice.len(), len);
    assert_eq!(len, 2);
    assert_eq!(z1.value, trivial(0));
    assert_eq!(z1.cell, Some(ContextCell::new(2, 5, 1)));
    assert_eq!(store.constant_equalities, vec![(0, ContextCell::new(2, 5, 1))]);
}

#[test]
fn constrain_equal_adds_one_pair() {
    let mut store = CopyConstraintManager::new();
    let mut ctx = Context::new(false, 0, 0, 9);
    let a = ctx.load_witness(1, &mut store);
    let b = ctx.load_witness(2, &mut store);
    ctx.constrain_equal(&a, &b, &mut store);
    assert_eq!(store.advice_equalities, vec![(ContextCell::new(0, 9, 0), ContextCell::new(0, 9, 1))]);
    assert!(store.constant_equalities.is_empty());
}

#[test]
fn smart_region_records_internal_and_external() {
    let mut store = CopyConstraintManager::new();
    let mut ctx = Context::new(false, 1, 7, 2);
    ctx.load_witness(100, &mut store);
    let outside = ContextCell::new(8, 0, 4);
    ctx.assign_region_smart(
        vec![QuantumCell::Witness(1), QuantumCell::Witness(2), QuantumCell::Witness(3)],
        vec![0],
        vec![(0, 2), (-1, 1)],
        vec![(Some(outside), 2)],
        &mut store,
    );
    assert_eq!(
        store.advice_equalities,
        vec![
            (ContextCell::new(7, 2, 1), ContextCell::new(7, 2, 3)),
            (ContextCell::new(7, 2, 0), ContextCell::new(7, 2, 2)),
            (outside, ContextCell::new(7, 2, 3)),
        ]
    );
    assert_eq!(ctx.selector, vec![false, true, false, false]);
}

#[test]
fn assign_region_last_returns_final_row() {
    let mut store = CopyConstraintManager::new();
    let mut ctx = Context::new(false, 0, 0, 0);
    let last = ctx.assign_region_last(vec![QuantumCell::Witness(5), QuantumCell::Constant(6)], vec![0], &mut store);
    assert_eq!(last.value, trivial(6));
    assert_eq!(last.cell, Some(ContextCell::new(0, 0, 1)));
    assert_eq!(store.constant_equalities, vec![(6, ContextCell::new(0, 0, 1))]);
}

#[test]
fn assign_witnesses_returns_cells() {
    let mut store = CopyConstraintManager::new();
    let mut ctx = Context::new(false, 0, 3, 3);
    ctx.load_constant(1, &mut store);
    let cells = ctx.assign_witnesses(vec![8, 9], &mut store);
    assert_eq!(cells.len(), 2);
    assert_eq!(cells[0], AssignedValue { value: trivial(8), cell: Some(ContextCell::new(3, 3, 1)) });
    assert_eq!(cells[1], AssignedValue { value: trivial(9), cell: Some(ContextCell::new(3, 3, 2)) });
    assert_eq!(ctx.selector, vec![false, false, false]);
}

#[test]
fn load_constants_in_order() {
    let mut store = CopyConstraintManager::new();
    let mut ctx = Context::new(false, 0, 0, 1);
    let cells = ctx.load_constants(&vec![4, 5, 6], &mut store);
    assert_eq!(cells.iter().map(|c| c.value()).collect::<Vec<_>>(), vec![4, 5, 6]);
    assert_eq!(
        store.constant_equalities,
        vec![(4, ContextCell::new(0, 1, 0)), (5, ContextCell::new(0, 1, 1)), (6, ContextCell::new(0, 1, 2))]
    );
    let none = ctx.load_constants(&vec![], &mut store);
    assert!(none.is_empty());
    assert_eq!(ctx.advice.len(), 3);
}

#[test]
fn empty_builder_has_no_last() {
    let ctx = Context::new(false, 3, 4, 5);
    assert_eq!(ctx.last(), None);
    assert_eq!(ctx.tag(), (4, 5));
    assert_eq!(ctx.id(), 5);
    assert_eq!(ctx.phase(), 3);
    assert_eq!(ctx.type_id(), 4);
    assert!(!ctx.witness_gen_only());
}

#[test]
fn debug_prank_overwrites_row() {
    let mut store = CopyConstraintManager::new();
    let mut ctx = Context::new(false, 0, 0, 0);
    let a = ctx.load_witness(1, &mut store);
    ctx.load_witness(2, &mut store);
    a.debug_prank(&mut ctx, 42);
    assert_eq!(ctx.advice, vec![trivial(42), trivial(2)]);
}

#[test]
fn debug_assert_false_constrains_two_new_rows() {
    let mut store = CopyConstraintManager::new();
    let mut ctx = Context::new(false, 0, 0, 0);
    ctx.debug_assert_false(11, 12, &mut store);
    assert_eq!(ctx.advice, vec![trivial(11), trivial(12)]);
    assert_eq!(store.advice_equalities, vec![(ContextCell::new(0, 0, 0), ContextCell::new(0, 0, 1))]);
    assert_eq!(ctx.selector, vec![false, false]);
}

#[test]
fn quantum_cell_values() {
    let a = AssignedValue { value: trivial(3), cell: None };
    assert_eq!(QuantumCell::Existing(a).value(), 3);
    assert_eq!(QuantumCell::Witness(4).value(), 4);
    assert_eq!(QuantumCell::Constant(5).value(), 5);
    assert_eq!(QuantumCell::from(a), QuantumCell::Existing(a));
    assert_eq!(QuantumCell::WitnessFraction(Assigned::Rational(2, 5)).to_assigned(), Assigned::Rational(2, 5));
    assert_eq!(a.value(), 3);
}

#[test]
fn cells_order_by_kind_then_instance_then_offset() {
    let a = ContextCell::new(1, 9, 9);
    let b = ContextCell::new(2, 0, 0);
    let c = ContextCell::new(2, 1, 0);
    let d = ContextCell::new(2, 1, 3);
    assert!(a < b && b < c && c < d);
}

#[test]
fn assigned_value_copy_from_reference() {
    let a = AssignedValue { value: Assigned::Rational(3, 7), cell: Some(ContextCell::new(1, 2, 3)) };
    let b = AssignedValue::from(&a);
    assert_eq!(a, b);
}
