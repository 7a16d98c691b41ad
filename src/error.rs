use vstd::prelude::*;

verus! {

/// Which way a migration unit is run.
#[derive(Clone, Copy, Debug, PartialEq, Eq, Structural)]
pub enum Direction {
    /// The forward operation: the unit becomes applied.
    Up,
    /// The backward operation: the unit becomes pending again.
    Down,
}

/// Everything that can stop a planning step or a run.
#[derive(Clone, Debug, PartialEq, Eq)]
pub enum MigrationError {
    /// The store could not be reached; the caller may retry the whole operation.
    StoreUnavailable(String),
    /// Two known units share this name.
    DuplicateUnitName(String),
    /// The ledger already records this name and it was applied again.
    DuplicateApplication(String),
    /// The ledger records a name that no known unit carries.
    UnknownAppliedMigration(String),
    /// The requested target names no known unit.
    UnknownTarget(String),
    /// The unit's own operation failed in the store.
    UnitExecutionFailed { unit: String, direction: Direction, cause: String },
    /// The unit defines no backward operation.
    RollbackUnsupported(String),
}

} // verus!
