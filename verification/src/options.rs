//! Configuration choices that an optimizer records.
//!
//! The engine ranks lower scores first, keeps the better half and recombines
//! gene by gene whatever is chosen here: the choices are stored with the
//! optimizer, which hands them back on request.

use vstd::prelude::*;

verus! {

/// Whether a lower or a higher score is wanted.
#[derive(Clone, Copy, Debug, PartialEq, Eq, Structural)]
pub enum TargetType {
    Minimize,
    Maximize,
}

/// How parents are chosen among the survivors.
#[derive(Clone, Copy, Debug, PartialEq, Eq, Structural)]
pub enum SelectionMethod {
    Equal,
    EqualTournament,
    Weighted,
    WeightedTournament,
}

/// How two parents' genes are combined.
#[derive(Clone, Copy, Debug, PartialEq, Eq, Structural)]
pub enum CrossoverMethod {
    Random,
    Barrier,
    DoubleBarrier,
}

} // verus!
