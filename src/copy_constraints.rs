use vstd::prelude::*;
use crate::cell::ContextCell;

verus! {

/// What a store of equality constraints holds.
pub struct CopyConstraintView {
    /// Pairs of cells that must hold equal values.
    pub advice_equalities: Seq<(ContextCell, ContextCell)>,
    /// Constants and the cells that must hold them.
    pub constant_equalities: Seq<(u64, ContextCell)>,
}

/// The equality constraints recorded by every builder of one circuit build.
///
/// Builders only append to it; the order of its entries carries no meaning.
pub struct CopyConstraintManager {
    /// Pairs of cells that must hold equal values.
    pub advice_equalities: Vec<(ContextCell, ContextCell)>,
    /// Constants and the cells that must hold them.
    pub constant_equalities: Vec<(u64, ContextCell)>,
}

impl View for CopyConstraintManager {
    type V = CopyConstraintView;

    open spec fn view(&self) -> CopyConstraintView {
        CopyConstraintView {
            advice_equalities: self.advice_equalities@,
            constant_equalities: self.constant_equalities@,
        }
    }
}

impl CopyConstraintManager {
    /// An empty store.
    pub fn new() -> (r: Self)
        ensures
            r@.advice_equalities.len() == 0,
            r@.constant_equalities.len() == 0,
    {
        CopyConstraintManager { advice_equalities: Vec::new(), constant_equalities: Vec::new() }
    }
}

} // verus!
