//! What can go wrong while a file is imported. Every failure is final: the
//! run stops at the first one.

use vstd::prelude::*;

verus! {

/// The two families of vertices that edges name by identifier alone.
#[derive(Clone, Copy, Debug, PartialEq, Eq, Structural)]
pub enum Family {
    /// Cities, countries and continents.
    Place,
    /// Universities and companies.
    Organisation,
}

/// A failure of the header of a file or of one of its rows.
#[derive(Clone, Copy, Debug, PartialEq, Eq, Structural)]
pub enum ImportError {
    /// The header column at `index` is not of the shape `name:TYPE`.
    MalformedColumn { index: usize },
    /// The header column at `index` is a second label column.
    DuplicateLabelColumn { index: usize },
    /// The header column at `index` is an identifier column away from its
    /// place.
    MisplacedIdColumn { index: usize },
    /// The header has no identifier column at `index`, where one belongs.
    MissingIdColumn { index: usize },
    /// A row has no field at `index`.
    MissingField { index: usize },
    /// The field at `index` of a row is not an unsigned 64-bit number.
    BadIdentifier { index: usize },
    /// A vertex row registers an identifier that its family already holds.
    DuplicateIdentifier { family: Family, id: u64 },
    /// An edge row names an identifier that its family does not hold.
    UnknownIdentifier { family: Family, id: u64 },
    /// A count would pass what 64 bits hold.
    CountOverflow,
}

} // verus!
