use vstd::prelude::*;
use crate::cell::{Assigned, AssignedValue, ContextCell, ContextTag, QuantumCell};
use crate::copy_constraints::{CopyConstraintManager, CopyConstraintView};

verus! {

/// What a builder holds.
pub struct ContextView {
    pub witness_gen_only: bool,
    pub phase: usize,
    pub type_id: u64,
    pub context_id: usize,
    pub advice: Seq<Assigned>,
    pub selector: Seq<bool>,
    pub zero_cell: Option<AssignedValue>,
}

/// Whether the selector offset `gates[k]`, taken from `row`, lands on `j` for
/// some `k`.
pub open spec fn gate_hit(row: int, gates: Seq<isize>, j: int) -> bool {
    exists|k: int| 0 <= k < gates.len() && row + gates[k] == j
}

impl CopyConstraintView {
    /// The store with `adv` and `cst` appended.
    pub open spec fn extend(
        self,
        adv: Seq<(ContextCell, ContextCell)>,
        cst: Seq<(u64, ContextCell)>,
    ) -> CopyConstraintView {
        CopyConstraintView {
            advice_equalities: self.advice_equalities + adv,
            constant_equalities: self.constant_equalities + cst,
        }
    }
}

impl ContextView {
    /// The position of row `off` of this builder.
    pub open spec fn addr(self, off: int) -> ContextCell {
        ContextCell { type_id: self.type_id, context_id: self.context_id, offset: off as usize }
    }

    /// The position that a cell of row `off` carries: none when witness-only.
    pub open spec fn cell_at(self, off: int) -> Option<ContextCell> {
        if self.witness_gen_only {
            None
        } else {
            Some(self.addr(off))
        }
    }

    /// Row `i` read back as a cell.
    pub open spec fn read(self, i: int) -> AssignedValue {
        AssignedValue { value: self.advice[i], cell: self.cell_at(i) }
    }

    /// The row that `offset` names: counted back from the end when negative.
    pub open spec fn index_of(self, offset: int) -> int {
        if offset < 0 {
            self.advice.len() + offset
        } else {
            offset
        }
    }

    /// Whether `offset` names a row of the column.
    pub open spec fn valid_offset(self, offset: int) -> bool {
        0 <= self.index_of(offset) < self.advice.len()
    }

    /// The invariant of a builder: no more flags than rows, and a cached zero
    /// cell that holds zero and, outside witness-only mode, names a row of
    /// this builder.
    pub open spec fn wf(self) -> bool {
        &&& self.selector.len() <= self.advice.len()
        &&& self.zero_cell matches Some(z) ==> {
            &&& z.value == Assigned::Trivial(0)
            &&& self.witness_gen_only ==> z.cell is None
            &&& !self.witness_gen_only ==> {
                &&& z.cell is Some
                &&& z.cell->Some_0.type_id == self.type_id
                &&& z.cell->Some_0.context_id == self.context_id
                &&& z.cell->Some_0.offset < self.advice.len()
            }
        }
    }

    /// An input that this builder can append: outside witness-only mode a
    /// copied cell must carry a position.
    pub open spec fn input_ok(self, q: QuantumCell) -> bool {
        !self.witness_gen_only && q is Existing ==> q->Existing_0.cell is Some
    }

    /// The cell-equality that appending `q` at `row` records.
    pub open spec fn input_advice_eqs(self, q: QuantumCell, row: int) -> Seq<(ContextCell, ContextCell)> {
        if !self.witness_gen_only && q is Existing {
            seq![(self.addr(row), q->Existing_0.cell->Some_0)]
        } else {
            seq![]
        }
    }

    /// The constant-equality that appending `q` at `row` records.
    pub open spec fn input_constant_eqs(self, q: QuantumCell, row: int) -> Seq<(u64, ContextCell)> {
        if !self.witness_gen_only && q is Constant {
            seq![(q->Constant_0, self.addr(row))]
        } else {
            seq![]
        }
    }

    /// The cell-equalities that appending `qs` from `row` on records, in order.
    pub open spec fn batch_advice_eqs(self, qs: Seq<QuantumCell>, row: int) -> Seq<(ContextCell, ContextCell)>
        decreases qs.len(),
    {
        if qs.len() == 0 {
            seq![]
        } else {
            self.batch_advice_eqs(qs.drop_last(), row) + self.input_advice_eqs(qs.last(), row + qs.len() - 1)
        }
    }

    /// The constant-equalities that appending `qs` from `row` on records, in order.
    pub open spec fn batch_constant_eqs(self, qs: Seq<QuantumCell>, row: int) -> Seq<(u64, ContextCell)>
        decreases qs.len(),
    {
        if qs.len() == 0 {
            seq![]
        } else {
            self.batch_constant_eqs(qs.drop_last(), row) + self.input_constant_eqs(qs.last(), row + qs.len() - 1)
        }
    }

    /// The builder with `vals` appended to its column.
    pub open spec fn with_advice(self, vals: Seq<Assigned>) -> ContextView {
        ContextView { advice: self.advice + vals, ..self }
    }

    /// Appending one cell: the builder and the store afterwards.
    pub open spec fn assign_cell_spec(self, s: CopyConstraintView, q: QuantumCell) -> (ContextView, CopyConstraintView) {
        let row = self.advice.len() as int;
        (
            self.with_advice(seq![q.assigned()]),
            s.extend(self.input_advice_eqs(q, row), self.input_constant_eqs(q, row)),
        )
    }

    /// The flags after a batch: padded with `false` to `len`, and set at
    /// each selector offset taken from `row`.
    pub open spec fn flags_after(self, len: int, row: int, gates: Seq<isize>) -> Seq<bool> {
        if self.witness_gen_only {
            self.selector
        } else {
            Seq::new(
                len as nat,
                |j: int| (j < self.selector.len() && self.selector[j]) || gate_hit(row, gates, j),
            )
        }
    }

    /// Appending a batch and setting selectors: the builder and the store afterwards.
    pub open spec fn assign_region_spec(self, s: CopyConstraintView, qs: Seq<QuantumCell>, gates: Seq<isize>) -> (ContextView, CopyConstraintView) {
        let row = self.advice.len() as int;
        let c = self.with_advice(qs.map_values(|q: QuantumCell| q.assigned()));
        (
            ContextView { selector: self.flags_after(c.advice.len() as int, row, gates), ..c },
            s.extend(self.batch_advice_eqs(qs, row), self.batch_constant_eqs(qs, row)),
        )
    }

    /// Whether the selector offsets of a batch of `n` inputs are acceptable.
    pub open spec fn gates_ok(self, n: int, gates: Seq<isize>) -> bool {
        !self.witness_gen_only ==> forall|k: int|
            0 <= k < gates.len() ==> 0 <= #[trigger] gates[k] + self.advice.len() < self.advice.len() + n
    }

    /// Whether every input of a batch can be appended.
    pub open spec fn inputs_ok(self, qs: Seq<QuantumCell>) -> bool {
        forall|i: int| 0 <= i < qs.len() ==> self.input_ok(#[trigger] qs[i])
    }

    /// The cell-equalities between rows of a batch that starts at `row`.
    pub open spec fn internal_eqs(self, row: int, eqs: Seq<(isize, isize)>) -> Seq<(ContextCell, ContextCell)> {
        eqs.map_values(|p: (isize, isize)| (self.addr(row + p.0), self.addr(row + p.1)))
    }

    /// The cell-equalities between outside cells and rows of a batch that
    /// starts at `row`.
    pub open spec fn external_eqs(self, row: int, ext: Seq<(Option<ContextCell>, isize)>) -> Seq<(ContextCell, ContextCell)> {
        ext.map_values(|p: (Option<ContextCell>, isize)| (p.0->Some_0, self.addr(row + p.1)))
    }

    /// The store after a batch with equalities, given the store after the batch alone.
    pub open spec fn smart_store(self, s: CopyConstraintView, row: int, eqs: Seq<(isize, isize)>, ext: Seq<(Option<ContextCell>, isize)>) -> CopyConstraintView {
        if self.witness_gen_only {
            s
        } else {
            s.extend(self.internal_eqs(row, eqs) + self.external_eqs(row, ext), seq![])
        }
    }

    /// Whether the equality offsets of a batch of `n` inputs are acceptable:
    /// outside witness-only mode they name rows of the column after the
    /// batch, and every outside cell carries a position.
    pub open spec fn equalities_ok(
        self,
        n: int,
        eqs: Seq<(isize, isize)>,
        ext: Seq<(Option<ContextCell>, isize)>,
    ) -> bool {
        !self.witness_gen_only ==> {
            &&& forall|k: int|
                0 <= k < eqs.len() ==> {
                    &&& 0 <= #[trigger] eqs[k].0 + self.advice.len() < self.advice.len() + n
                    &&& 0 <= eqs[k].1 + self.advice.len() < self.advice.len() + n
                }
            &&& forall|k: int|
                0 <= k < ext.len() ==> {
                    &&& (#[trigger] ext[k]).0 is Some
                    &&& 0 <= ext[k].1 + self.advice.len() < self.advice.len() + n
                }
        }
    }

    /// The constant-equalities that loading the constants `c` records.
    pub open spec fn constants_eqs(self, c: Seq<u64>) -> Seq<(u64, ContextCell)> {
        if self.witness_gen_only {
            seq![]
        } else {
            Seq::new(c.len(), |i: int| (c[i], self.addr(self.advice.len() + i)))
        }
    }

    /// The builder after loading the constants `c`.
    pub open spec fn load_constants_spec(self, c: Seq<u64>) -> ContextView {
        if c.len() == 0 {
            self
        } else {
            self.with_advice(c.map_values(|v: u64| Assigned::Trivial(v))).padded()
        }
    }

    /// The builder with its flags grown to the column's length, unless
    /// witness-only.
    pub open spec fn padded(self) -> ContextView {
        ContextView {
            selector: self.flags_after(
                self.advice.len() as int,
                self.advice.len() as int,
                Seq::empty(),
            ),
            ..self
        }
    }

    /// Loading the zero constant: the builder, the store and the cell afterwards.
    pub open spec fn load_zero_spec(self, s: CopyConstraintView) -> (ContextView, CopyConstraintView, AssignedValue) {
        match self.zero_cell {
            Some(z) => (self, s, z),
            None => {
                let (c, s2) = self.assign_cell_spec(s, QuantumCell::Constant(0));
                let r = c.read(self.advice.len() as int);
                (ContextView { zero_cell: Some(r), ..c.padded() }, s2, r)
            }
        }
    }

    /// Constraining two cells equal: the store afterwards.
    pub open spec fn constrain_equal_spec(self, s: CopyConstraintView, a: AssignedValue, b: AssignedValue) -> CopyConstraintView {
        if self.witness_gen_only {
            s
        } else {
            s.extend(seq![(a.cell->Some_0, b.cell->Some_0)], seq![])
        }
    }
}

/// One builder of a column of a virtual region, in one phase.
///
/// It appends values and selector flags to its own column, and records the
/// equality constraints that they need in a store shared by all builders of
/// the circuit, unless it only generates witnesses.
pub struct Context {
    witness_gen_only: bool,
    phase: usize,
    type_id: u64,
    context_id: usize,
    /// The column of values.
    pub advice: Vec<Assigned>,
    zero_cell: Option<AssignedValue>,
    /// The selector flag of each row; grown to the column's length by every call
    /// that sets selectors, and left empty when witness-only.
    pub selector: Vec<bool>,
}

impl View for Context {
    type V = ContextView;

    closed spec fn view(&self) -> ContextView {
        ContextView {
            witness_gen_only: self.witness_gen_only,
            phase: self.phase,
            type_id: self.type_id,
            context_id: self.context_id,
            advice: self.advice@,
            selector: self.selector@,
            zero_cell: self.zero_cell,
        }
    }
}


/// `base + off`, for an offset that keeps the result a valid index.
fn resolve_offset(base: usize, off: isize) -> (r: usize)
    requires
        0 <= base + off <= usize::MAX,
    ensures
        r == base + off,
{
    if off >= 0 {
        base + (off as usize)
    } else {
        base - ((-(off + 1)) as usize + 1)
    }
}

proof fn lemma_gate_hit_step(row: int, gates: Seq<isize>, k: int, j: int)
    requires
        0 <= k < gates.len(),
    ensures
        gate_hit(row, gates.subrange(0, k + 1), j) == (gate_hit(row, gates.subrange(0, k), j) || row
            + gates[k] == j),
{
    let a = gates.subrange(0, k + 1);
    let b = gates.subrange(0, k);
    if gate_hit(row, a, j) {
        let m = choose|m: int| 0 <= m < a.len() && row + a[m] == j;
        if m < k {
            assert(b[m] == a[m]);
        }
    }
    if gate_hit(row, b, j) {
        let m = choose|m: int| 0 <= m < b.len() && row + b[m] == j;
        assert(a[m] == b[m]);
    }
    if row + gates[k] == j {
        assert(a[k] == gates[k]);
    }
}

proof fn lemma_padded_flags(c: ContextView)
    requires
        c.selector.len() <= c.advice.len(),
    ensures
        c.witness_gen_only ==> c.padded().selector == c.selector,
        !c.witness_gen_only ==> c.padded().selector.len() == c.advice.len(),
        !c.witness_gen_only ==> forall|j: int|
            0 <= j < c.advice.len() ==> #[trigger] c.padded().selector[j] == (j < c.selector.len()
                && c.selector[j]),
{
    assert forall|j: int| !gate_hit(c.advice.len() as int, Seq::empty(), j) by {}
}

proof fn lemma_witness_batch_records_nothing(c: ContextView, ws: Seq<u64>, row: int)
    ensures
        c.batch_advice_eqs(ws.map_values(|w: u64| QuantumCell::Witness(w)), row)
            == Seq::<(ContextCell, ContextCell)>::empty(),
        c.batch_constant_eqs(ws.map_values(|w: u64| QuantumCell::Witness(w)), row)
            == Seq::<(u64, ContextCell)>::empty(),
    decreases ws.len(),
{
    let qs = ws.map_values(|w: u64| QuantumCell::Witness(w));
    if ws.len() > 0 {
        lemma_witness_batch_records_nothing(c, ws.drop_last(), row);
        assert(qs.drop_last() =~= ws.drop_last().map_values(|w: u64| QuantumCell::Witness(w)));
        assert(c.batch_advice_eqs(qs, row) =~= Seq::<(ContextCell, ContextCell)>::empty());
        assert(c.batch_constant_eqs(qs, row) =~= Seq::<(u64, ContextCell)>::empty());
    } else {
        assert(qs.len() == 0);
    }
}

impl Context {
    /// The invariant of a builder.
    pub open spec fn wf(&self) -> bool {
        self@.wf()
    }

    /// A builder with an empty column and no cached zero cell.
    pub fn new(witness_gen_only: bool, phase: usize, type_id: u64, context_id: usize) -> (r: Self)
        ensures
            r.wf(),
            r@ == (ContextView {
                witness_gen_only,
                phase,
                type_id,
                context_id,
                advice: seq![],
                selector: seq![],
                zero_cell: None,
            }),
    {
        let r = Context {
            witness_gen_only,
            phase,
            type_id,
            context_id,
            advice: Vec::new(),
            zero_cell: None,
            selector: Vec::new(),
        };
        assert(r@.advice =~= seq![]);
        assert(r@.selector =~= seq![]);
        r
    }

    /// Whether the builder only generates witnesses.
    pub fn witness_gen_only(&self) -> (r: bool)
        ensures
            r == self@.witness_gen_only,
    {
        self.witness_gen_only
    }

    /// The challenge phase of the builder.
    pub fn phase(&self) -> (r: usize)
        ensures
            r == self@.phase,
    {
        self.phase
    }

    /// The region kind of the builder.
    pub fn type_id(&self) -> (r: u64)
        ensures
            r == self@.type_id,
    {
        self.type_id
    }

    /// The id of the builder within its region kind.
    pub fn id(&self) -> (r: usize)
        ensures
            r == self@.context_id,
    {
        self.context_id
    }

    /// The tag that names the builder across all regions and phases.
    pub fn tag(&self) -> (r: ContextTag)
        ensures
            r == (self@.type_id, self@.context_id),
    {
        (self.type_id, self.context_id)
    }

    fn latest_cell(&self) -> (r: ContextCell)
        requires
            self@.advice.len() > 0,
        ensures
            r == self@.addr(self@.advice.len() - 1),
    {
        ContextCell::new(self.type_id, self.context_id, self.advice.len() - 1)
    }

    /// Appends one cell to the column. A copied cell is constrained equal to
    /// the new one, and a constant to a fixed cell, unless witness-only.
    pub fn assign_cell(&mut self, input: QuantumCell, copy_manager: &mut CopyConstraintManager)
        requires
            old(self).wf(),
            old(self)@.input_ok(input),
        ensures
            final(self).wf(),
            (final(self)@, final(copy_manager)@) == old(self)@.assign_cell_spec(
                old(copy_manager)@,
                input,
            ),
    {
        let ghost c0 = self@;
        let ghost s0 = copy_manager@;
        self.advice.push(input.to_assigned());
        assert(self@.advice =~= c0.advice + seq![input.assigned()]);
        match input {
            QuantumCell::Existing(acell) => {
                if !self.witness_gen_only {
                    let new_cell = self.latest_cell();
                    let old_cell = acell.cell.unwrap();
                    copy_manager.advice_equalities.push((new_cell, old_cell));
                }
            },
            QuantumCell::Constant(c) => {
                if !self.witness_gen_only {
                    let new_cell = self.latest_cell();
                    copy_manager.constant_equalities.push((c, new_cell));
                }
            },
            _ => {},
        }
        assert(copy_manager@.advice_equalities =~= s0.advice_equalities + c0.input_advice_eqs(
            input,
            c0.advice.len() as int,
        ));
        assert(copy_manager@.constant_equalities =~= s0.constant_equalities
            + c0.input_constant_eqs(input, c0.advice.len() as int));
    }

    /// Grows the flags to the column's length and sets the flag of each selector
    /// offset taken from `row_offset`.
    fn activate_gates(&mut self, row_offset: usize, gate_offsets: &Vec<isize>)
        requires
            old(self).wf(),
            !old(self)@.witness_gen_only,
            row_offset <= old(self)@.advice.len(),
            forall|k: int|
                0 <= k < gate_offsets@.len() ==> 0 <= #[trigger] gate_offsets@[k] + row_offset
                    < old(self)@.advice.len(),
        ensures
            final(self).wf(),
            final(self)@ == (ContextView {
                selector: old(self)@.flags_after(
                    old(self)@.advice.len() as int,
                    row_offset as int,
                    gate_offsets@,
                ),
                ..old(self)@
            }),
    {
        let ghost c0 = self@;
        let len = self.advice.len();
        let ghost n = len as int;
        while self.selector.len() < self.advice.len()
            invariant
                self@ == (ContextView { selector: self.selector@, ..c0 }),
                n == len,
                n == c0.advice.len(),
                c0.selector.len() <= self.selector@.len() <= n,
                self.selector@ == c0.selector + Seq::new(
                    (self.selector@.len() - c0.selector.len()) as nat,
                    |i: int| false,
                ),
            decreases n - self.selector@.len(),
        {
            self.selector.push(false);
            assert(self.selector@ =~= c0.selector + Seq::new(
                (self.selector@.len() - c0.selector.len()) as nat,
                |i: int| false,
            ));
        }
        assert forall|j: int|
            0 <= j < n implies self.selector@[j] == (j < c0.selector.len() && c0.selector[j]) by {
            if j >= c0.selector.len() {
                assert(self.selector@[j] == Seq::new(
                    (self.selector@.len() - c0.selector.len()) as nat,
                    |i: int| false,
                )[j - c0.selector.len()]);
            }
        }
        assert forall|j: int| !gate_hit(row_offset as int, gate_offsets@.subrange(0, 0), j) by {}
        let mut k: usize = 0;
        while k < gate_offsets.len()
            invariant
                0 <= k <= gate_offsets@.len(),
                self@ == (ContextView { selector: self.selector@, ..c0 }),
                self.selector@.len() == n,
                n == len,
                n == c0.advice.len(),
                forall|q: int|
                    0 <= q < gate_offsets@.len() ==> 0 <= #[trigger] gate_offsets@[q] + row_offset
                        < n,
                forall|j: int|
                    0 <= j < n ==> #[trigger] self.selector@[j] == ((j < c0.selector.len()
                        && c0.selector[j]) || gate_hit(
                        row_offset as int,
                        gate_offsets@.subrange(0, k as int),
                        j,
                    )),
            decreases gate_offsets@.len() - k,
        {
            let g = gate_offsets[k];
            assert(0 <= g + row_offset < n);
            let idx = resolve_offset(row_offset, g);
            let ghost prev = self.selector@;
            self.selector.set(idx, true);
            assert(self.selector@ =~= prev.update(idx as int, true));
            proof {
                assert forall|j: int| 0 <= j < n implies #[trigger] self.selector@[j] == ((j
                    < c0.selector.len() && c0.selector[j]) || gate_hit(
                    row_offset as int,
                    gate_offsets@.subrange(0, k + 1),
                    j,
                )) by {
                    lemma_gate_hit_step(row_offset as int, gate_offsets@, k as int, j);
                    assert(prev[j] == ((j < c0.selector.len() && c0.selector[j]) || gate_hit(
                        row_offset as int,
                        gate_offsets@.subrange(0, k as int),
                        j,
                    )));
                }
            }
            k += 1;
        }
        assert(gate_offsets@.subrange(0, gate_offsets@.len() as int) =~= gate_offsets@);
        assert(self.selector@ =~= c0.flags_after(n, row_offset as int, gate_offsets@));
        assert(self@ == (ContextView { selector: c0.flags_after(n, row_offset as int, gate_offsets@), ..c0 }));
    }

    /// Appends every input, then, unless witness-only, grows the flags to the
    /// column's length and sets the selector at each offset, taken from the
    /// first new row (a negative one reaches back before it).
    pub fn assign_region(
        &mut self,
        inputs: Vec<QuantumCell>,
        gate_offsets: Vec<isize>,
        copy_manager: &mut CopyConstraintManager,
    )
        requires
            old(self).wf(),
            old(self)@.inputs_ok(inputs@),
            old(self)@.gates_ok(inputs@.len() as int, gate_offsets@),
        ensures
            final(self).wf(),
            (final(self)@, final(copy_manager)@) == old(self)@.assign_region_spec(
                old(copy_manager)@,
                inputs@,
                gate_offsets@,
            ),
    {
        let ghost c0 = self@;
        let ghost s0 = copy_manager@;
        let row_offset = self.advice.len();
        let mut i: usize = 0;
        while i < inputs.len()
            invariant
                0 <= i <= inputs@.len(),
                self.wf(),
                c0.inputs_ok(inputs@),
                row_offset == c0.advice.len(),
                self@ == c0.with_advice(
                    inputs@.subrange(0, i as int).map_values(|q: QuantumCell| q.assigned()),
                ),
                copy_manager@ == s0.extend(
                    c0.batch_advice_eqs(inputs@.subrange(0, i as int), row_offset as int),
                    c0.batch_constant_eqs(inputs@.subrange(0, i as int), row_offset as int),
                ),
            decreases inputs@.len() - i,
        {
            let q = inputs[i];
            let ghost sub = inputs@.subrange(0, i as int);
            let ghost sub1 = inputs@.subrange(0, i + 1);
            assert(c0.input_ok(inputs@[i as int]));
            self.assign_cell(q, copy_manager);
            proof {
                assert(sub1.drop_last() =~= sub);
                assert(sub1.last() == q);
                assert(sub1.map_values(|q: QuantumCell| q.assigned()) =~= sub.map_values(
                    |q: QuantumCell| q.assigned(),
                ).push(q.assigned()));
                assert(self@.advice =~= c0.advice + sub1.map_values(|q: QuantumCell| q.assigned()));
                assert(copy_manager@.advice_equalities =~= s0.advice_equalities
                    + c0.batch_advice_eqs(sub1, row_offset as int));
                assert(copy_manager@.constant_equalities =~= s0.constant_equalities
                    + c0.batch_constant_eqs(sub1, row_offset as int));
            }
            i += 1;
        }
        assert(inputs@.subrange(0, inputs@.len() as int) =~= inputs@);
        if !self.witness_gen_only {
            self.activate_gates(row_offset, &gate_offsets);
        }
    }

    /// The last row of the column as a cell, with a position unless
    /// witness-only; `None` when the column is empty.
    pub fn last(&self) -> (r: Option<AssignedValue>)
        ensures
            r == if self@.advice.len() == 0 {
                None
            } else {
                Some(self@.read(self@.advice.len() - 1))
            },
    {
        if self.advice.len() == 0 {
            None
        } else {
            let cell = if !self.witness_gen_only {
                Some(self.latest_cell())
            } else {
                None
            };
            Some(AssignedValue { value: self.advice[self.advice.len() - 1], cell })
        }
    }

    /// Appends a batch as `assign_region` does and returns the last row.
    pub fn assign_region_last(
        &mut self,
        inputs: Vec<QuantumCell>,
        gate_offsets: Vec<isize>,
        copy_manager: &mut CopyConstraintManager,
    ) -> (r: AssignedValue)
        requires
            old(self).wf(),
            old(self)@.inputs_ok(inputs@),
            old(self)@.gates_ok(inputs@.len() as int, gate_offsets@),
            old(self)@.advice.len() + inputs@.len() > 0,
        ensures
            final(self).wf(),
            (final(self)@, final(copy_manager)@) == old(self)@.assign_region_spec(
                old(copy_manager)@,
                inputs@,
                gate_offsets@,
            ),
            r == final(self)@.read(final(self)@.advice.len() - 1),
    {
        self.assign_region(inputs, gate_offsets, copy_manager);
        self.last().unwrap()
    }

    /// The row that `offset` names, as a cell; a negative offset counts back
    /// from the end (`-1` is the last row).
    pub fn get(&self, offset: isize) -> (r: AssignedValue)
        requires
            self@.valid_offset(offset as int),
        ensures
            r == self@.read(self@.index_of(offset as int)),
    {
        let idx = if offset < 0 {
            resolve_offset(self.advice.len(), offset)
        } else {
            offset as usize
        };
        let cell = if !self.witness_gen_only {
            Some(ContextCell::new(self.type_id, self.context_id, idx))
        } else {
            None
        };
        AssignedValue { value: self.advice[idx], cell }
    }

    /// Constrains two cells equal, unless witness-only.
    pub fn constrain_equal(
        &mut self,
        a: &AssignedValue,
        b: &AssignedValue,
        copy_manager: &mut CopyConstraintManager,
    )
        requires
            !old(self)@.witness_gen_only ==> a.cell is Some && b.cell is Some,
        ensures
            final(self)@ == old(self)@,
            final(copy_manager)@ == old(self)@.constrain_equal_spec(old(copy_manager)@, *a, *b),
    {
        if !self.witness_gen_only {
            let ghost s0 = copy_manager@;
            copy_manager.advice_equalities.push((a.cell.unwrap(), b.cell.unwrap()));
            assert(copy_manager@.advice_equalities =~= s0.advice_equalities + seq![
                (a.cell->Some_0, b.cell->Some_0),
            ]);
            assert(copy_manager@.constant_equalities =~= s0.constant_equalities + seq![]);
        }
    }

    fn pad_selector(&mut self)
        requires
            old(self).wf(),
            !old(self)@.witness_gen_only,
        ensures
            final(self).wf(),
            final(self)@ == old(self)@.padded(),
    {
        let none: Vec<isize> = Vec::new();
        let len = self.advice.len();
        self.activate_gates(len, &none);
    }

    /// Appends a batch as `assign_region` does, then, unless witness-only,
    /// constrains equal the pairs of rows in `equality_offsets` and each outside
    /// cell of `external_equality` with its row; offsets are taken from the
    /// first new row.
    pub fn assign_region_smart(
        &mut self,
        inputs: Vec<QuantumCell>,
        gate_offsets: Vec<isize>,
        equality_offsets: Vec<(isize, isize)>,
        external_equality: Vec<(Option<ContextCell>, isize)>,
        copy_manager: &mut CopyConstraintManager,
    )
        requires
            old(self).wf(),
            old(self)@.inputs_ok(inputs@),
            old(self)@.gates_ok(inputs@.len() as int, gate_offsets@),
            old(self)@.equalities_ok(inputs@.len() as int, equality_offsets@, external_equality@),
        ensures
            final(self).wf(),
            final(self)@ == old(self)@.assign_region_spec(
                old(copy_manager)@,
                inputs@,
                gate_offsets@,
            ).0,
            final(copy_manager)@ == old(self)@.smart_store(
                old(self)@.assign_region_spec(old(copy_manager)@, inputs@, gate_offsets@).1,
                old(self)@.advice.len() as int,
                equality_offsets@,
                external_equality@,
            ),
    {
        let ghost c0 = self@;
        let row_offset = self.advice.len();
        let ghost n = inputs@.len() as int;
        self.assign_region(inputs, gate_offsets, copy_manager);
        if !self.witness_gen_only {
            let ghost s1 = copy_manager@;
            let end = self.advice.len();
            let type_id = self.type_id;
            let context_id = self.context_id;
            let mut i: usize = 0;
            while i < equality_offsets.len()
                invariant
                    0 <= i <= equality_offsets@.len(),
                    end == row_offset + n,
                    type_id == c0.type_id,
                    context_id == c0.context_id,
                    row_offset == c0.advice.len(),
                    c0.equalities_ok(n, equality_offsets@, external_equality@),
                    !c0.witness_gen_only,
                    copy_manager@ == s1.extend(
                        c0.internal_eqs(row_offset as int, equality_offsets@.subrange(0, i as int)),
                        seq![],
                    ),
                decreases equality_offsets@.len() - i,
            {
                let (o1, o2) = equality_offsets[i];
                assert(0 <= equality_offsets@[i as int].0 + row_offset < end);
                let a = ContextCell::new(type_id, context_id, resolve_offset(row_offset, o1));
                let b = ContextCell::new(type_id, context_id, resolve_offset(row_offset, o2));
                let ghost prev = copy_manager@;
                copy_manager.advice_equalities.push((a, b));
                proof {
                    let f = |p: (isize, isize)| (c0.addr(row_offset + p.0), c0.addr(row_offset + p.1));
                    assert(equality_offsets@.subrange(0, i + 1).map_values(f)
                        =~= equality_offsets@.subrange(0, i as int).map_values(f).push((a, b)));
                    assert(copy_manager@.advice_equalities =~= s1.advice_equalities
                        + c0.internal_eqs(row_offset as int, equality_offsets@.subrange(0, i + 1)));
                    assert(copy_manager@.constant_equalities =~= prev.constant_equalities);
                }
                i += 1;
            }
            assert(equality_offsets@.subrange(0, equality_offsets@.len() as int) =~= equality_offsets@);
            let ghost s2 = copy_manager@;
            let mut j: usize = 0;
            while j < external_equality.len()
                invariant
                    0 <= j <= external_equality@.len(),
                    end == row_offset + n,
                    type_id == c0.type_id,
                    context_id == c0.context_id,
                    row_offset == c0.advice.len(),
                    c0.equalities_ok(n, equality_offsets@, external_equality@),
                    !c0.witness_gen_only,
                    copy_manager@ == s2.extend(
                        c0.external_eqs(row_offset as int, external_equality@.subrange(0, j as int)),
                        seq![],
                    ),
                decreases external_equality@.len() - j,
            {
                let (cell, o) = external_equality[j];
                assert(0 <= external_equality@[j as int].1 + row_offset < end);
                let b = ContextCell::new(type_id, context_id, resolve_offset(row_offset, o));
                let ghost prev = copy_manager@;
                copy_manager.advice_equalities.push((cell.unwrap(), b));
                proof {
                    let f = |p: (Option<ContextCell>, isize)| (p.0->Some_0, c0.addr(row_offset + p.1));
                    assert(external_equality@.subrange(0, j + 1).map_values(f)
                        =~= external_equality@.subrange(0, j as int).map_values(f).push((cell->Some_0, b)));
                    assert(copy_manager@.advice_equalities =~= s2.advice_equalities
                        + c0.external_eqs(row_offset as int, external_equality@.subrange(0, j + 1)));
                    assert(copy_manager@.constant_equalities =~= prev.constant_equalities);
                }
                j += 1;
            }
            assert(external_equality@.subrange(0, external_equality@.len() as int) =~= external_equality@);
            assert(copy_manager@.advice_equalities =~= s1.advice_equalities + (c0.internal_eqs(
                row_offset as int,
                equality_offsets@,
            ) + c0.external_eqs(row_offset as int, external_equality@)));
            assert(copy_manager@.constant_equalities =~= s1.constant_equalities + seq![]);
        }
    }

    /// Appends the witnesses with no selector set and returns their cells.
    pub fn assign_witnesses(
        &mut self,
        witnesses: Vec<u64>,
        copy_manager: &mut CopyConstraintManager,
    ) -> (r: Vec<AssignedValue>)
        requires
            old(self).wf(),
        ensures
            final(self).wf(),
            (final(self)@, final(copy_manager)@) == old(self)@.assign_region_spec(
                old(copy_manager)@,
                witnesses@.map_values(|w: u64| QuantumCell::Witness(w)),
                Seq::empty(),
            ),
            final(copy_manager)@ == old(copy_manager)@,
            r@.len() == witnesses@.len(),
            forall|i: int|
                0 <= i < r@.len() ==> #[trigger] r@[i] == final(self)@.read(
                    old(self)@.advice.len() + i,
                ),
    {
        let ghost c0 = self@;
        let row_offset = self.advice.len();
        let mut inputs: Vec<QuantumCell> = Vec::new();
        let mut i: usize = 0;
        while i < witnesses.len()
            invariant
                0 <= i <= witnesses@.len(),
                inputs@ == witnesses@.subrange(0, i as int).map_values(
                    |w: u64| QuantumCell::Witness(w),
                ),
            decreases witnesses@.len() - i,
        {
            inputs.push(QuantumCell::Witness(witnesses[i]));
            assert(witnesses@.subrange(0, i + 1).map_values(|w: u64| QuantumCell::Witness(w))
                =~= witnesses@.subrange(0, i as int).map_values(|w: u64| QuantumCell::Witness(w)).push(
                QuantumCell::Witness(witnesses@[i as int]),
            ));
            i += 1;
        }
        assert(witnesses@.subrange(0, witnesses@.len() as int) =~= witnesses@);
        let none: Vec<isize> = Vec::new();
        let ghost s0 = copy_manager@;
        self.assign_region(inputs, none, copy_manager);
        proof {
            lemma_witness_batch_records_nothing(c0, witnesses@, row_offset as int);
            assert(copy_manager@.advice_equalities =~= s0.advice_equalities);
            assert(copy_manager@.constant_equalities =~= s0.constant_equalities);
        }
        let mut r: Vec<AssignedValue> = Vec::new();
        let end = self.advice.len();
        let mut j: usize = 0;
        while j < witnesses.len()
            invariant
                0 <= j <= witnesses@.len(),
                end == self@.advice.len(),
                self.wf(),
                row_offset == c0.advice.len(),
                self@.advice.len() == row_offset + witnesses@.len(),
                r@.len() == j,
                forall|k: int| 0 <= k < j ==> #[trigger] r@[k] == self@.read(row_offset + k),
            decreases witnesses@.len() - j,
        {
            let cell = if !self.witness_gen_only {
                Some(ContextCell::new(self.type_id, self.context_id, row_offset + j))
            } else {
                None
            };
            r.push(AssignedValue { value: self.advice[row_offset + j], cell });
            j += 1;
        }
        r
    }

    /// Appends a witness and returns its cell; the flags are grown to the
    /// column's length unless witness-only.
    pub fn load_witness(&mut self, witness: u64, copy_manager: &mut CopyConstraintManager) -> (r:
        AssignedValue)
        requires
            old(self).wf(),
        ensures
            final(self).wf(),
            final(self)@ == old(self)@.assign_cell_spec(
                old(copy_manager)@,
                QuantumCell::Witness(witness),
            ).0.padded(),
            final(copy_manager)@ == old(copy_manager)@,
            r == final(self)@.read(old(self)@.advice.len() as int),
    {
        let ghost s0 = copy_manager@;
        self.assign_cell(QuantumCell::Witness(witness), copy_manager);
        assert(copy_manager@.advice_equalities =~= s0.advice_equalities);
        assert(copy_manager@.constant_equalities =~= s0.constant_equalities);
        if !self.witness_gen_only {
            self.pad_selector();
        }
        self.last().unwrap()
    }

    /// Appends a constant and returns its cell; the flags are grown to the
    /// column's length unless witness-only.
    pub fn load_constant(&mut self, c: u64, copy_manager: &mut CopyConstraintManager) -> (r:
        AssignedValue)
        requires
            old(self).wf(),
        ensures
            final(self).wf(),
            final(self)@ == old(self)@.assign_cell_spec(
                old(copy_manager)@,
                QuantumCell::Constant(c),
            ).0.padded(),
            final(copy_manager)@ == old(self)@.assign_cell_spec(
                old(copy_manager)@,
                QuantumCell::Constant(c),
            ).1,
            r == final(self)@.read(old(self)@.advice.len() as int),
    {
        self.assign_cell(QuantumCell::Constant(c), copy_manager);
        if !self.witness_gen_only {
            self.pad_selector();
        }
        self.last().unwrap()
    }

    /// Appends each constant in turn and returns their cells.
    pub fn load_constants(&mut self, c: &Vec<u64>, copy_manager: &mut CopyConstraintManager) -> (r:
        Vec<AssignedValue>)
        requires
            old(self).wf(),
        ensures
            final(self).wf(),
            final(self)@ == old(self)@.load_constants_spec(c@),
            final(copy_manager)@ == old(copy_manager)@.extend(
                seq![],
                old(self)@.constants_eqs(c@),
            ),
            r@.len() == c@.len(),
            forall|i: int|
                0 <= i < r@.len() ==> #[trigger] r@[i] == final(self)@.read(
                    old(self)@.advice.len() + i,
                ),
    {
        let ghost c0 = self@;
        let ghost s0 = copy_manager@;
        let row_offset = self.advice.len();
        let mut r: Vec<AssignedValue> = Vec::new();
        let mut i: usize = 0;
        while i < c.len()
            invariant
                0 <= i <= c@.len(),
                self.wf(),
                row_offset == c0.advice.len(),
                c0.wf(),
                self@ == c0.load_constants_spec(c@.subrange(0, i as int)),
                copy_manager@ == s0.extend(seq![], c0.constants_eqs(c@.subrange(0, i as int))),
                r@.len() == i,
                forall|k: int| 0 <= k < i ==> #[trigger] r@[k] == self@.read(row_offset + k),
            decreases c@.len() - i,
        {
            let ghost before = self@;
            let v = c[i];
            let a = self.load_constant(v, copy_manager);
            r.push(a);
            proof {
                let sub = c@.subrange(0, i as int);
                let sub1 = c@.subrange(0, i + 1);
                assert(sub1.map_values(|v: u64| Assigned::Trivial(v)) =~= sub.map_values(
                    |v: u64| Assigned::Trivial(v),
                ).push(Assigned::Trivial(v)));
                assert(self@.advice =~= c0.advice + sub1.map_values(|v: u64| Assigned::Trivial(v)));
                lemma_padded_flags(before.with_advice(seq![Assigned::Trivial(v)]));
                lemma_padded_flags(c0.with_advice(sub1.map_values(|v: u64| Assigned::Trivial(v))));
                if i > 0 {
                    lemma_padded_flags(c0.with_advice(sub.map_values(|v: u64| Assigned::Trivial(v))));
                }
                assert(self@.selector =~= c0.load_constants_spec(sub1).selector);
                assert(self@ == c0.load_constants_spec(sub1));
                assert(copy_manager@.constant_equalities =~= s0.constant_equalities
                    + c0.constants_eqs(sub1));
                assert(copy_manager@.advice_equalities =~= s0.advice_equalities + seq![]);
                assert forall|k: int| 0 <= k < i + 1 implies #[trigger] r@[k] == self@.read(
                    row_offset + k,
                ) by {
                    if k < i {
                        assert(r@[k] == before.read(row_offset + k));
                    }
                }
            }
            i += 1;
        }
        assert(c@.subrange(0, c@.len() as int) =~= c@);
        r
    }

    /// The cell of the zero constant: loaded as a constant on first use, then
    /// kept and handed out again without a new row.
    pub fn load_zero(&mut self, copy_manager: &mut CopyConstraintManager) -> (r: AssignedValue)
        requires
            old(self).wf(),
        ensures
            final(self).wf(),
            (final(self)@, final(copy_manager)@, r) == old(self)@.load_zero_spec(
                old(copy_manager)@,
            ),
    {
        match self.zero_cell {
            Some(z) => z,
            None => {
                let z = self.load_constant(0, copy_manager);
                self.zero_cell = Some(z);
                z
            },
        }
    }

    /// Loads two witnesses and constrains them equal, so that a check of the
    /// constraints fails at this point when they differ.
    pub fn debug_assert_false(
        &mut self,
        rand1: u64,
        rand2: u64,
        copy_manager: &mut CopyConstraintManager,
    )
        requires
            old(self).wf(),
        ensures
            final(self).wf(),
            final(self)@ == old(self)@.with_advice(
                seq![Assigned::Trivial(rand1), Assigned::Trivial(rand2)],
            ).padded(),
            final(copy_manager)@ == old(self)@.constrain_equal_spec(
                old(copy_manager)@,
                final(self)@.read(old(self)@.advice.len() as int),
                final(self)@.read(old(self)@.advice.len() + 1 as int),
            ),
    {
        let ghost c0 = self@;
        let a = self.load_witness(rand1, copy_manager);
        let b = self.load_witness(rand2, copy_manager);
        self.constrain_equal(&a, &b, copy_manager);
        assert(self@.advice =~= c0.advice + seq![Assigned::Trivial(rand1), Assigned::Trivial(rand2)]);
        assert(self@.selector =~= c0.with_advice(
            seq![Assigned::Trivial(rand1), Assigned::Trivial(rand2)],
        ).padded().selector);
    }
}

impl AssignedValue {
    /// Overwrites the value of this cell's row in `ctx`, for tests that must
    /// see a wrong witness rejected.
    pub fn debug_prank(&self, ctx: &mut Context, prank_value: u64)
        requires
            old(ctx).wf(),
            self.cell is Some,
            self.cell->Some_0.offset < old(ctx)@.advice.len(),
        ensures
            final(ctx).wf(),
            final(ctx)@ == (ContextView {
                advice: old(ctx)@.advice.update(
                    self.cell->Some_0.offset as int,
                    Assigned::Trivial(prank_value),
                ),
                ..old(ctx)@
            }),
    {
        let off = self.cell.unwrap().offset;
        ctx.advice.set(off, Assigned::Trivial(prank_value));
    }
}

} // verus!
