use vstd::prelude::*;
use crate::cell::{AssignedValue, ContextCell, QuantumCell};
use crate::context::{gate_hit, ContextView};
use crate::copy_constraints::CopyConstraintView;

verus! {

/// Appending the cells `qs` one at a time: the builder and the store afterwards.
pub open spec fn assign_cells(c: ContextView, s: CopyConstraintView, qs: Seq<QuantumCell>) -> (
    ContextView,
    CopyConstraintView,
)
    decreases qs.len(),
{
    if qs.len() == 0 {
        (c, s)
    } else {
        let (c1, s1) = assign_cells(c, s, qs.drop_last());
        c1.assign_cell_spec(s1, qs.last())
    }
}

/// Single-cell appends grow the column by one row each, and the rows keep
/// the values appended, in order.
pub proof fn lemma_appends_extend_column(c: ContextView, s: CopyConstraintView, qs: Seq<QuantumCell>)
    ensures
        assign_cells(c, s, qs).0.advice == c.advice + qs.map_values(|q: QuantumCell| q.assigned()),
        assign_cells(c, s, qs).0.advice.len() == c.advice.len() + qs.len(),
        forall|i: int|
            0 <= i < qs.len() ==> assign_cells(c, s, qs).0.read(c.advice.len() + i).value == (
            #[trigger] qs[i]).assigned(),
        forall|i: int|
            0 <= i < c.advice.len() ==> #[trigger] assign_cells(c, s, qs).0.advice[i] == c.advice[i],
    decreases qs.len(),
{
    if qs.len() > 0 {
        lemma_appends_extend_column(c, s, qs.drop_last());
        assert(qs.map_values(|q: QuantumCell| q.assigned()) =~= qs.drop_last().map_values(
            |q: QuantumCell| q.assigned(),
        ).push(qs.last().assigned()));
    }
    assert(assign_cells(c, s, qs).0.advice =~= c.advice + qs.map_values(
        |q: QuantumCell| q.assigned(),
    ));
}

/// A negative offset `-k` reads the row `k` places before the end: `-1` is
/// the last row.
pub proof fn lemma_negative_offsets(c: ContextView, k: int)
    requires
        1 <= k <= c.advice.len(),
    ensures
        c.valid_offset(-k),
        c.index_of(-k) == c.advice.len() - k,
        c.read(c.index_of(-k)) == c.read(c.advice.len() - k),
        c.read(c.index_of(-1)) == c.read(c.advice.len() - 1),
{
}

proof fn lemma_witness_only_batch(c: ContextView, qs: Seq<QuantumCell>, row: int)
    requires
        c.witness_gen_only,
    ensures
        c.batch_advice_eqs(qs, row) == Seq::<(ContextCell, ContextCell)>::empty(),
        c.batch_constant_eqs(qs, row) == Seq::<(u64, ContextCell)>::empty(),
    decreases qs.len(),
{
    if qs.len() > 0 {
        lemma_witness_only_batch(c, qs.drop_last(), row);
        assert(c.batch_advice_eqs(qs, row) =~= Seq::<(ContextCell, ContextCell)>::empty());
        assert(c.batch_constant_eqs(qs, row) =~= Seq::<(u64, ContextCell)>::empty());
    }
}

/// A witness-only builder gives its cells no position and adds nothing to the
/// store, whatever it is asked to do.
pub proof fn lemma_witness_only_records_nothing(
    c: ContextView,
    s: CopyConstraintView,
    q: QuantumCell,
    qs: Seq<QuantumCell>,
    gates: Seq<isize>,
    eqs: Seq<(isize, isize)>,
    ext: Seq<(Option<ContextCell>, isize)>,
    consts: Seq<u64>,
    a: AssignedValue,
    b: AssignedValue,
    i: int,
)
    requires
        c.witness_gen_only,
        c.wf(),
    ensures
        c.cell_at(i) is None,
        c.read(i).cell is None,
        c.assign_cell_spec(s, q).1 == s,
        c.assign_region_spec(s, qs, gates).1 == s,
        c.smart_store(s, c.advice.len() as int, eqs, ext) == s,
        c.constrain_equal_spec(s, a, b) == s,
        s.extend(seq![], c.constants_eqs(consts)) == s,
        c.load_zero_spec(s).1 == s,
        c.load_zero_spec(s).2.cell is None,
{
    lemma_witness_only_batch(c, qs, c.advice.len() as int);
    assert(c.assign_cell_spec(s, q).1.advice_equalities =~= s.advice_equalities);
    assert(c.assign_cell_spec(s, q).1.constant_equalities =~= s.constant_equalities);
    assert(c.assign_region_spec(s, qs, gates).1.advice_equalities =~= s.advice_equalities);
    assert(c.assign_region_spec(s, qs, gates).1.constant_equalities =~= s.constant_equalities);
    assert(s.extend(seq![], c.constants_eqs(consts)).advice_equalities =~= s.advice_equalities);
    assert(s.extend(seq![], c.constants_eqs(consts)).constant_equalities =~= s.constant_equalities);
    let q0 = QuantumCell::Constant(0);
    assert(c.assign_cell_spec(s, q0).1.advice_equalities =~= s.advice_equalities);
    assert(c.assign_cell_spec(s, q0).1.constant_equalities =~= s.constant_equalities);
}

/// Outside witness-only mode, a batch leaves as many flags as rows, and the
/// flags of the new rows are set exactly at the selector offsets.
pub proof fn lemma_gate_flags(
    c: ContextView,
    s: CopyConstraintView,
    qs: Seq<QuantumCell>,
    gates: Seq<isize>,
)
    requires
        c.wf(),
        !c.witness_gen_only,
        c.gates_ok(qs.len() as int, gates),
    ensures
        c.assign_region_spec(s, qs, gates).0.selector.len() == c.assign_region_spec(
            s,
            qs,
            gates,
        ).0.advice.len(),
        forall|j: int|
            c.advice.len() <= j < c.advice.len() + qs.len() ==> #[trigger] c.assign_region_spec(
                s,
                qs,
                gates,
            ).0.selector[j] == gate_hit(c.advice.len() as int, gates, j),
{
}

/// Loading zero twice hands out the same cell and adds at most one row: the
/// second load changes nothing.
pub proof fn lemma_load_zero_twice(c: ContextView, s: CopyConstraintView)
    requires
        c.wf(),
    ensures
        ({
            let (c1, s1, r1) = c.load_zero_spec(s);
            let (c2, s2, r2) = c1.load_zero_spec(s1);
            &&& r1 == r2
            &&& c2 == c1
            &&& s2 == s1
            &&& r1.value == crate::cell::Assigned::Trivial(0)
            &&& c2.advice.len() == c.advice.len() + if c.zero_cell is None {
                1int
            } else {
                0int
            }
        }),
{
}

/// Outside witness-only mode, constraining two cells equal adds exactly one
/// pair, of their two positions, to the store.
pub proof fn lemma_constrain_equal_adds_one(
    c: ContextView,
    s: CopyConstraintView,
    a: AssignedValue,
    b: AssignedValue,
)
    requires
        !c.witness_gen_only,
        a.cell is Some,
        b.cell is Some,
    ensures
        c.constrain_equal_spec(s, a, b).advice_equalities == s.advice_equalities.push(
            (a.cell->Some_0, b.cell->Some_0),
        ),
        c.constrain_equal_spec(s, a, b).constant_equalities == s.constant_equalities,
{
    assert(c.constrain_equal_spec(s, a, b).advice_equalities =~= s.advice_equalities.push(
        (a.cell->Some_0, b.cell->Some_0),
    ));
    assert(c.constrain_equal_spec(s, a, b).constant_equalities =~= s.constant_equalities);
}

proof fn lemma_batch_rows(c: ContextView, qs: Seq<QuantumCell>, row: int)
    requires
        0 <= row,
        row + qs.len() <= usize::MAX,
    ensures
        forall|k: int|
            0 <= k < c.batch_advice_eqs(qs, row).len() ==> {
                let e = #[trigger] c.batch_advice_eqs(qs, row)[k];
                &&& e.0.type_id == c.type_id
                &&& e.0.context_id == c.context_id
                &&& row <= e.0.offset < row + qs.len()
            },
        forall|k: int|
            0 <= k < c.batch_constant_eqs(qs, row).len() ==> {
                let e = #[trigger] c.batch_constant_eqs(qs, row)[k];
                &&& e.1.type_id == c.type_id
                &&& e.1.context_id == c.context_id
                &&& row <= e.1.offset < row + qs.len()
            },
    decreases qs.len(),
{
    if qs.len() > 0 {
        lemma_batch_rows(c, qs.drop_last(), row);
        let a = c.batch_advice_eqs(qs.drop_last(), row);
        let b = c.batch_constant_eqs(qs.drop_last(), row);
        assert forall|k: int| 0 <= k < c.batch_advice_eqs(qs, row).len() implies {
            let e = #[trigger] c.batch_advice_eqs(qs, row)[k];
            &&& e.0.type_id == c.type_id
            &&& e.0.context_id == c.context_id
            &&& row <= e.0.offset < row + qs.len()
        } by {
            if k < a.len() {
                assert(c.batch_advice_eqs(qs, row)[k] == a[k]);
            }
        }
        assert forall|k: int| 0 <= k < c.batch_constant_eqs(qs, row).len() implies {
            let e = #[trigger] c.batch_constant_eqs(qs, row)[k];
            &&& e.1.type_id == c.type_id
            &&& e.1.context_id == c.context_id
            &&& row <= e.1.offset < row + qs.len()
        } by {
            if k < b.len() {
                assert(c.batch_constant_eqs(qs, row)[k] == b[k]);
            }
        }
    }
}

/// A batch keeps the store's earlier entries, and every pair that it adds
/// names a row of this builder that exists once the batch is appended.
pub proof fn lemma_recorded_rows_exist(
    c: ContextView,
    s: CopyConstraintView,
    qs: Seq<QuantumCell>,
    gates: Seq<isize>,
)
    requires
        c.wf(),
        c.advice.len() + qs.len() <= usize::MAX,
    ensures
        ({
            let (c2, s2) = c.assign_region_spec(s, qs, gates);
            &&& s2.advice_equalities.subrange(0, s.advice_equalities.len() as int)
                == s.advice_equalities
            &&& s2.constant_equalities.subrange(0, s.constant_equalities.len() as int)
                == s.constant_equalities
            &&& forall|k: int|
                s.advice_equalities.len() <= k < s2.advice_equalities.len() ==> {
                    let e = #[trigger] s2.advice_equalities[k];
                    &&& (e.0.type_id, e.0.context_id) == (c.type_id, c.context_id)
                    &&& c.advice.len() <= e.0.offset < c2.advice.len()
                }
            &&& forall|k: int|
                s.constant_equalities.len() <= k < s2.constant_equalities.len() ==> {
                    let e = #[trigger] s2.constant_equalities[k];
                    &&& (e.1.type_id, e.1.context_id) == (c.type_id, c.context_id)
                    &&& c.advice.len() <= e.1.offset < c2.advice.len()
                }
        }),
{
    let row = c.advice.len() as int;
    lemma_batch_rows(c, qs, row);
    let (c2, s2) = c.assign_region_spec(s, qs, gates);
    assert(s2.advice_equalities.subrange(0, s.advice_equalities.len() as int)
        =~= s.advice_equalities);
    assert(s2.constant_equalities.subrange(0, s.constant_equalities.len() as int)
        =~= s.constant_equalities);
    assert forall|k: int| s.advice_equalities.len() <= k < s2.advice_equalities.len() implies {
        let e = #[trigger] s2.advice_equalities[k];
        &&& (e.0.type_id, e.0.context_id) == (c.type_id, c.context_id)
        &&& c.advice.len() <= e.0.offset < c2.advice.len()
    } by {
        assert(s2.advice_equalities[k] == c.batch_advice_eqs(qs, row)[k
            - s.advice_equalities.len()]);
    }
    assert forall|k: int| s.constant_equalities.len() <= k < s2.constant_equalities.len() implies {
        let e = #[trigger] s2.constant_equalities[k];
        &&& (e.1.type_id, e.1.context_id) == (c.type_id, c.context_id)
        &&& c.advice.len() <= e.1.offset < c2.advice.len()
    } by {
        assert(s2.constant_equalities[k] == c.batch_constant_eqs(qs, row)[k
            - s.constant_equalities.len()]);
    }
}

} // verus!
