//! Statistics and chart geometry for a climbing journal.

pub mod grade;
pub mod wall;
pub mod date;
pub mod journal;

use vstd::prelude::*;

verus! {

/// Why a journal could not be built.
#[derive(Clone, Copy, Debug, PartialEq, Eq, Structural)]
pub enum LoadError {
    /// A wall of a day does not come after the previous one in the order of names.
    WallOrder,
    /// A day does not come after the previous one.
    DateOrder,
}

} // verus!
pub mod aggregate;
pub mod trend;
pub mod bar;
pub mod report;
