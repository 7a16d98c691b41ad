use vstd::prelude::*;

use crate::error::{Direction, MigrationError};
use crate::ledger::{lemma_mark_then_unmark_restores, remove_name, Ledger};
use crate::unit::{MigrationUnit, Operations};

verus! {

/// What the store reports after it was handed one unit's statements.
#[derive(Clone, Debug)]
pub enum Outcome {
    /// The statements and the ledger row were committed in one transaction.
    Committed,
    /// The statements and the ledger row were committed, but the store could
    /// not hold them in one transaction.
    CommittedWithoutTransaction,
    /// A statement failed and the transaction was rolled back.
    Failed(String),
    /// The store could not be reached.
    Unavailable(String),
}

/// What a guarded create of the ledger table reports.
#[derive(Clone, Debug)]
pub enum BootstrapOutcome {
    /// This caller created the table.
    Created,
    /// The table was there already, made by an earlier or a racing caller.
    AlreadyExists,
    /// The store could not be reached.
    Unavailable(String),
}

/// The names after one step: pushed for `Up`, taken out for `Down`.
pub open spec fn after_step(names: Seq<Seq<char>>, n: Seq<char>, direction: Direction) -> Seq<
    Seq<char>,
> {
    match direction {
        Direction::Up => if names.contains(n) {
            names
        } else {
            names.push(n)
        },
        Direction::Down => remove_name(names, n),
    }
}

/// The names after the units at `steps` were run in order in `direction`.
pub open spec fn after_steps(
    names: Seq<Seq<char>>,
    units: Seq<MigrationUnit>,
    steps: Seq<usize>,
    direction: Direction,
) -> Seq<Seq<char>>
    decreases steps.len(),
{
    if steps.len() == 0 {
        names
    } else {
        after_step(
            after_steps(names, units, steps.drop_last(), direction),
            units[steps.last() as int].name@,
            direction,
        )
    }
}

/// Whether a bootstrap outcome lets the run proceed.
pub open spec fn bootstrap_proceeds(o: BootstrapOutcome) -> bool {
    !(o is Unavailable)
}

/// The statements that run `unit` in `direction`. A unit without a backward
/// operation cannot go `Down`: `RollbackUnsupported`, before the store is touched.
pub fn statements_for(unit: &MigrationUnit, direction: Direction) -> (r: Result<
    &Vec<String>,
    MigrationError,
>)
    ensures
        direction == Direction::Up ==> r == Ok::<&Vec<String>, MigrationError>(&unit.forward_spec()),
        direction == Direction::Down ==> match unit.operations {
            Operations::Reversible { backward, .. } => r == Ok::<&Vec<String>, MigrationError>(
                &backward,
            ),
            Operations::ForwardOnly { .. } => r matches Err(MigrationError::RollbackUnsupported(n))
                && n@ == unit.name@,
        },
{
    match direction {
        Direction::Up => Ok(unit.apply_statements()),
        Direction::Down => unit.revert_statements(),
    }
}

/// Writes into the ledger what a committed step changed: the unit's name is
/// added after `Up` and taken out after `Down`. Adding a name that is there
/// already is `DuplicateApplication`, and nothing changes.
pub fn record_commit(ledger: &mut Ledger, unit: &MigrationUnit, direction: Direction, applied_at: u64)
    -> (r: Result<(), MigrationError>)
    requires
        old(ledger).wf(),
    ensures
        final(ledger).wf(),
        final(ledger).names() == after_step(old(ledger).names(), unit.name@, direction),
        r is Err <==> direction == Direction::Up && old(ledger).names().contains(unit.name@),
        r matches Err(e) ==> e matches MigrationError::DuplicateApplication(n) && n@ == unit.name@,
{
    match direction {
        Direction::Up => ledger.mark_applied(unit.name.clone(), applied_at),
        Direction::Down => {
            ledger.unmark_applied(unit.name.as_str());
            Ok(())
        },
    }
}

/// Maps the outcome of a guarded create of the ledger table: whether this
/// caller or another made the table, the run proceeds.
pub fn bootstrap_result(outcome: BootstrapOutcome) -> (r: Result<(), MigrationError>)
    ensures
        r is Ok <==> bootstrap_proceeds(outcome),
        outcome matches BootstrapOutcome::Unavailable(c) ==> r matches Err(
            MigrationError::StoreUnavailable(m),
        ) && m == c,
{
    match outcome {
        BootstrapOutcome::Created => Ok(()),
        BootstrapOutcome::AlreadyExists => Ok(()),
        BootstrapOutcome::Unavailable(c) => Err(MigrationError::StoreUnavailable(c)),
    }
}

/// Two runners that race to create the ledger table: one creates it and the
/// other finds it there, or both find it there. Neither sees an error.
pub proof fn lemma_racing_bootstrap_proceeds(a: BootstrapOutcome, b: BootstrapOutcome)
    requires
        (a is Created && b is AlreadyExists) || (a is AlreadyExists && b is Created) || (
        a is AlreadyExists && b is AlreadyExists),
    ensures
        bootstrap_proceeds(a),
        bootstrap_proceeds(b),
{
}

/// Applying a unit that was not applied and then reverting it leaves the
/// ledger's names as they were.
pub proof fn lemma_apply_then_revert_restores(names: Seq<Seq<char>>, n: Seq<char>)
    requires
        names.no_duplicates(),
        !names.contains(n),
    ensures
        after_step(after_step(names, n, Direction::Up), n, Direction::Down) == names,
{
    lemma_mark_then_unmark_restores(names, n);
}

} // verus!
