use vstd::prelude::*;

verus! {

/// Tag of a builder across all virtual regions: its region kind and its id.
pub type ContextTag = (u64, usize);

/// Position of a cell at `offset` in the column of the builder `context_id`
/// of the region kind `type_id`.
#[derive(Clone, Copy, Debug, Hash, PartialEq, Eq, PartialOrd, Ord, Structural)]
pub struct ContextCell {
    /// Identifier of the region kind that the cell belongs to.
    pub type_id: u64,
    /// Identifier of the builder that the cell belongs to.
    pub context_id: usize,
    /// Row of the cell in that builder's column.
    pub offset: usize,
}

impl ContextCell {
    /// Creates a cell position from its three parts.
    pub fn new(type_id: u64, context_id: usize, offset: usize) -> (r: Self)
        ensures
            r == (ContextCell { type_id, context_id, offset }),
    {
        ContextCell { type_id, context_id, offset }
    }
}

/// A value held in a column: a resolved scalar, or a numerator and a
/// denominator that wait for one batch inversion done elsewhere.
#[derive(Clone, Copy, Debug, PartialEq, Eq, Structural)]
pub enum Assigned {
    /// A resolved scalar.
    Trivial(u64),
    /// A fraction `numerator / denominator`, not yet inverted.
    Rational(u64, u64),
}

/// The value of a cell together with its position, which is only known while
/// constraints are being recorded.
///
/// This is a copy of the cell's value, not a reference into the column: the
/// builder stays free to append rows.
#[derive(Clone, Copy, Debug, PartialEq, Eq, Structural)]
pub struct AssignedValue {
    /// Value of the cell.
    pub value: Assigned,
    /// Position of the cell, absent on the witness-only path.
    pub cell: Option<ContextCell>,
}

impl AssignedValue {
    /// The resolved scalar of the cell.
    pub fn value(&self) -> (r: u64)
        requires
            self.value is Trivial,
        ensures
            r == self.value->Trivial_0,
    {
        match self.value {
            Assigned::Trivial(a) => a,
            Assigned::Rational(_, _) => 0,
        }
    }
}

/// How a new cell of a column is filled.
#[derive(Clone, Copy, Debug, PartialEq, Eq, Structural)]
pub enum QuantumCell {
    /// A copy of a cell that already exists; the new cell is constrained equal
    /// to it.
    Existing(AssignedValue),
    /// A witness scalar.
    Witness(u64),
    /// A witness fraction, left for batch inversion.
    WitnessFraction(Assigned),
    /// A constant; the new cell is constrained equal to a fixed cell holding it.
    Constant(u64),
}

impl QuantumCell {
    /// The value that a new cell filled from `self` holds.
    pub open spec fn assigned(self) -> Assigned {
        match self {
            QuantumCell::Existing(a) => a.value,
            QuantumCell::Witness(v) => Assigned::Trivial(v),
            QuantumCell::WitnessFraction(v) => v,
            QuantumCell::Constant(c) => Assigned::Trivial(c),
        }
    }

    /// Whether the value of `self` is a resolved scalar.
    pub open spec fn is_resolved(self) -> bool {
        match self {
            QuantumCell::Existing(a) => a.value is Trivial,
            QuantumCell::WitnessFraction(_) => false,
            _ => true,
        }
    }

    /// The resolved scalar of the input. A fraction has none before batch
    /// inversion.
    pub fn value(&self) -> (r: u64)
        requires
            self.is_resolved(),
        ensures
            r == self.assigned()->Trivial_0,
    {
        match self {
            QuantumCell::Existing(a) => a.value(),
            QuantumCell::Witness(a) => *a,
            QuantumCell::WitnessFraction(_) => 0,
            QuantumCell::Constant(a) => *a,
        }
    }

    /// The value that a new cell filled from `self` holds.
    pub fn to_assigned(&self) -> (r: Assigned)
        ensures
            r == self.assigned(),
    {
        match self {
            QuantumCell::Existing(a) => a.value,
            QuantumCell::Witness(v) => Assigned::Trivial(*v),
            QuantumCell::WitnessFraction(v) => *v,
            QuantumCell::Constant(c) => Assigned::Trivial(*c),
        }
    }
}

impl From<AssignedValue> for QuantumCell {
    fn from(a: AssignedValue) -> (r: QuantumCell) {
        QuantumCell::Existing(a)
    }
}

impl vstd::std_specs::convert::FromSpecImpl<AssignedValue> for QuantumCell {
    open spec fn obeys_from_spec() -> bool {
        true
    }

    open spec fn from_spec(a: AssignedValue) -> QuantumCell {
        QuantumCell::Existing(a)
    }
}

impl<'a> From<&'a AssignedValue> for AssignedValue {
    fn from(a: &'a AssignedValue) -> (r: AssignedValue) {
        AssignedValue { value: a.value, cell: a.cell }
    }
}

impl<'a> vstd::std_specs::convert::FromSpecImpl<&'a AssignedValue> for AssignedValue {
    open spec fn obeys_from_spec() -> bool {
        true
    }

    open spec fn from_spec(a: &'a AssignedValue) -> AssignedValue {
        *a
    }
}

} // verus!
