use vstd::prelude::*;

verus! {

/// The ways in which a translation or a backend access can fail.
#[derive(Debug, Clone, Copy, PartialEq, Eq, Structural)]
pub enum Error {
    /// A page-table entry on the walk had its present bit clear.
    PageNotPresent,
    /// A page-table entry referenced memory beyond the physical address width.
    InvalidPageTable,
    /// An access reached beyond the backend's address space.
    OutOfBounds,
    /// A write was attempted on a read-only backend.
    ReadOnly,
    /// The backend's transport failed.
    Io,
    /// An architecture tag outside the known set.
    InvalidArchitecture,
    /// A builder was missing a required input.
    Configuration,
}

} // verus!
