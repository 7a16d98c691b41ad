use voltaserve_migration::error::{Direction, MigrationError};
use voltaserve_migration::executor::{bootstrap_result, statements_for, BootstrapOutcome, Outcome};
use voltaserve_migration::ledger::{Ledger, LedgerEntry};
use voltaserve_migration::name::{name_less, names_equal};
use voltaserve_migration::planner::{plan_downgrade, plan_upgrade, plan_upgrade_to};
use voltaserve_migration::runner::{Migrator, Step};
use voltaserve_migration::unit::MigrationUnit;

const A: &str = "2024-01-01_create_users";
const B: &str = "2024-01-02_add_users_index";
const C: &str = "2024-01-03_create_posts";

fn reversible(name: &str) -> MigrationUnit {
    MigrationUnit::reversible(
        name.to_string(),
        vec![format!("up {}", name)],
        vec![format!("down {}", name)],
    )
}

fn forward_only(name: &str) -> MigrationUnit {
    MigrationUnit::forward_only(name.to_string(), vec![format!("up {}", name)])
}

fn abc() -> Vec<MigrationUnit> {
    vec![reversible(A), reversible(B), reversible(C)]
}

fn ledger_of(names: &[&str]) -> Ledger {
    let mut ledger = Ledger::new();
    for (i, n) in names.iter().enumerate() {
        ledger.mark_applied(n.to_string(), i as u64).unwrap();
    }
    ledger
}

/// Runs `m` to its end, answering each step with `answer`; returns the
/// names of the units handed out, in order.
fn drive(m: &mut Migrator, answer: &dyn Fn(&str) -> Outcome) -> Vec<String> {
    let mut seen = Vec::new();
    let mut clock: u64 = 100;
    while let Some(step) = m.next_step() {
        let name = m.units()[step.unit].name().clone();
        seen.push(name.clone());
        clock += 1;
        m.record(answer(&name), clock);
    }
    seen
}

fn commit_all(_: &str) -> Outcome {
    Outcome::Committed
}

#[test]
fn latest_then_rollback_two() {
    let mut m = Migrator::migrate_to_latest(abc(), Ledger::new()).unwrap();
    assert_eq!(drive(&mut m, &commit_all), vec![A, B, C]);
    assert!(m.is_finished());
    assert_eq!(m.failure(), &None);
    assert_eq!(m.current_state(), vec![A, B, C]);
    assert_eq!(m.completed(), vec![A, B, C]);

    let mut r = Migrator::rollback(abc(), m.into_ledger(), 2).unwrap();
    assert_eq!(drive(&mut r, &commit_all), vec![C, B]);
    assert_eq!(r.failure(), &None);
    assert_eq!(r.current_state(), vec![A]);
}

#[test]
fn rollback_stops_at_forward_only_unit() {
    let units = vec![reversible(A), forward_only(B), reversible(C)];
    let mut r = Migrator::rollback(units, ledger_of(&[A, B, C]), 3).unwrap();
    assert_eq!(drive(&mut r, &commit_all), vec![C]);
    assert_eq!(r.failure(), &Some(MigrationError::RollbackUnsupported(B.to_string())));
    assert_eq!(r.current_state(), vec![A, B]);
    assert_eq!(r.next_step(), None);
}

#[test]
fn second_latest_run_is_noop() {
    let mut m = Migrator::migrate_to_latest(abc(), Ledger::new()).unwrap();
    drive(&mut m, &commit_all);
    let before = m.current_state();
    let mut again = Migrator::migrate_to_latest(abc(), m.into_ledger()).unwrap();
    assert!(again.plan().is_empty());
    assert!(again.is_finished());
    assert_eq!(drive(&mut again, &commit_all), Vec::<String>::new());
    assert_eq!(again.current_state(), before);
}

#[test]
fn apply_then_revert_restores_ledger() {
    let mut ledger = ledger_of(&[A]);
    ledger.mark_applied(B.to_string(), 7).unwrap();
    assert!(ledger.is_applied(B));
    assert!(ledger.unmark_applied(B));
    assert!(!ledger.is_applied(B));
    assert_eq!(ledger.applied_names(), vec![A]);
}

#[test]
fn rollback_more_than_applied_reverts_all_descending() {
    let mut r = Migrator::rollback(abc(), ledger_of(&[A, C, B]), 10).unwrap();
    assert_eq!(r.plan(), &vec![2, 1, 0]);
    assert_eq!(drive(&mut r, &commit_all), vec![C, B, A]);
    assert!(r.current_state().is_empty());
}

#[test]
fn rollback_zero_reverts_nothing() {
    let r = Migrator::rollback(abc(), ledger_of(&[A, B]), 0).unwrap();
    assert!(r.plan().is_empty());
    assert_eq!(r.current_state(), vec![A, B]);
}

#[test]
fn rollback_count_is_min_of_count_and_applied() {
    let plan = plan_downgrade(&abc(), &ledger_of(&[A, B]), 1).unwrap();
    assert_eq!(plan, vec![1]);
    let plan = plan_downgrade(&abc(), &ledger_of(&[A, B]), 5).unwrap();
    assert_eq!(plan, vec![1, 0]);
}

#[test]
fn failure_stops_the_run() {
    let mut m = Migrator::migrate_to_latest(abc(), Ledger::new()).unwrap();
    let seen = drive(&mut m, &|n: &str| {
        if n == B {
            Outcome::Failed("constraint violated".to_string())
        } else {
            Outcome::Committed
        }
    });
    assert_eq!(seen, vec![A, B]);
    assert_eq!(
        m.failure(),
        &Some(MigrationError::UnitExecutionFailed {
            unit: B.to_string(),
            direction: Direction::Up,
            cause: "constraint violated".to_string(),
        })
    );
    assert_eq!(m.current_state(), vec![A]);
    assert_eq!(m.completed(), vec![A]);
    assert_eq!(m.next_step(), None);

    let mut retry = Migrator::migrate_to_latest(abc(), m.into_ledger()).unwrap();
    assert_eq!(drive(&mut retry, &commit_all), vec![B, C]);
    assert_eq!(retry.current_state(), vec![A, B, C]);
}

#[test]
fn store_unavailable_ends_the_run() {
    let mut m = Migrator::migrate_to_latest(abc(), Ledger::new()).unwrap();
    let seen = drive(&mut m, &|_: &str| Outcome::Unavailable("connection refused".to_string()));
    assert_eq!(seen, vec![A]);
    assert_eq!(
        m.failure(),
        &Some(MigrationError::StoreUnavailable("connection refused".to_string()))
    );
    assert!(m.current_state().is_empty());
}

#[test]
fn racing_bootstrap_both_proceed() {
    assert_eq!(bootstrap_result(BootstrapOutcome::Created), Ok(()));
    assert_eq!(bootstrap_result(BootstrapOutcome::AlreadyExists), Ok(()));
    assert_eq!(
        bootstrap_result(BootstrapOutcome::Unavailable("down".to_string())),
        Err(MigrationError::StoreUnavailable("down".to_string()))
    );
}

#[test]
fn upgrade_plan_sorts_unsorted_units() {
    let units = vec![reversible(C), reversible(A), reversible(B)];
    assert_eq!(plan_upgrade(&units, &Ledger::new()).unwrap(), vec![1, 2, 0]);
    assert_eq!(plan_upgrade(&units, &ledger_of(&[A])).unwrap(), vec![2, 0]);
}

#[test]
fn upgrade_to_target_excludes_later_units() {
    let units = abc();
    assert_eq!(plan_upgrade_to(&units, &Ledger::new(), &B.to_string()).unwrap(), vec![0, 1]);
    let mut m = Migrator::migrate_to(units, ledger_of(&[A]), &B.to_string()).unwrap();
    assert_eq!(drive(&mut m, &commit_all), vec![B]);
    assert_eq!(m.current_state(), vec![A, B]);
}

#[test]
fn unknown_target_is_refused() {
    let r = plan_upgrade_to(&abc(), &Ledger::new(), &"2030-01-01_nothing".to_string());
    assert_eq!(r, Err(MigrationError::UnknownTarget("2030-01-01_nothing".to_string())));
    assert!(Migrator::migrate_to(abc(), Ledger::new(), &"x".to_string()).is_err());
}

#[test]
fn unknown_applied_name_is_refused() {
    let ledger = ledger_of(&[A, "2023-12-31_removed"]);
    assert_eq!(
        plan_upgrade(&abc(), &ledger),
        Err(MigrationError::UnknownAppliedMigration("2023-12-31_removed".to_string()))
    );
    let ledger = ledger_of(&[A, "2023-12-31_removed"]);
    assert!(matches!(
        Migrator::rollback(abc(), ledger, 1),
        Err(MigrationError::UnknownAppliedMigration(_))
    ));
}

#[test]
fn duplicate_unit_name_is_refused() {
    let units = vec![reversible(A), reversible(B), reversible(A)];
    assert_eq!(
        plan_upgrade(&units, &Ledger::new()),
        Err(MigrationError::DuplicateUnitName(A.to_string()))
    );
}

#[test]
fn duplicate_application_is_refused() {
    let mut ledger = ledger_of(&[A]);
    assert_eq!(
        ledger.mark_applied(A.to_string(), 9),
        Err(MigrationError::DuplicateApplication(A.to_string()))
    );
    assert_eq!(ledger.len(), 1);
    let rows = vec![
        LedgerEntry { name: A.to_string(), applied_at: 1 },
        LedgerEntry { name: A.to_string(), applied_at: 2 },
    ];
    assert!(matches!(
        Ledger::from_entries(rows),
        Err(MigrationError::DuplicateApplication(n)) if n == A
    ));
}

#[test]
fn ledger_from_rows_keeps_order() {
    let rows = vec![
        LedgerEntry { name: B.to_string(), applied_at: 1 },
        LedgerEntry { name: A.to_string(), applied_at: 2 },
    ];
    let ledger = Ledger::from_entries(rows).unwrap();
    assert_eq!(ledger.applied_names(), vec![B, A]);
    assert_eq!(ledger.entries()[1].applied_at, 2);
}

#[test]
fn commit_without_transaction_is_reported() {
    let mut m = Migrator::migrate_to_latest(abc(), Ledger::new()).unwrap();
    drive(&mut m, &|n: &str| {
        if n == C {
            Outcome::CommittedWithoutTransaction
        } else {
            Outcome::Committed
        }
    });
    assert_eq!(m.failure(), &None);
    assert_eq!(m.warnings(), &vec![C.to_string()]);
    assert_eq!(m.current_state(), vec![A, B, C]);
}

#[test]
fn step_is_handed_out_until_recorded() {
    let mut m = Migrator::migrate_to_latest(abc(), Ledger::new()).unwrap();
    let first = m.next_step();
    assert_eq!(first, Some(Step { unit: 0, direction: Direction::Up }));
    assert_eq!(m.next_step(), first);
    m.record(Outcome::Committed, 1);
    m.record(Outcome::Committed, 2);
    assert_eq!(m.current_state(), vec![A]);
    assert_eq!(m.next_step(), Some(Step { unit: 1, direction: Direction::Up }));
}

#[test]
fn statements_follow_direction() {
    let u = reversible(A);
    assert_eq!(statements_for(&u, Direction::Up).unwrap(), &vec![format!("up {}", A)]);
    assert_eq!(statements_for(&u, Direction::Down).unwrap(), &vec![format!("down {}", A)]);
    let f = forward_only(B);
    assert_eq!(
        statements_for(&f, Direction::Down),
        Err(MigrationError::RollbackUnsupported(B.to_string()))
    );
    assert!(!f.is_reversible());
    assert!(u.is_reversible());
}

#[test]
fn name_order_is_lexicographic() {
    assert!(name_less("m20240718_000001_create_user", "m20240718_000002_create_organization"));
    assert!(!name_less("m20240718_000002_create_organization", "m20240718_000001_create_user"));
    assert!(name_less("abc", "abcd"));
    assert!(!name_less("abcd", "abc"));
    assert!(!name_less("abc", "abc"));
    assert!(name_less("", "a"));
    assert!(names_equal("abc", "abc"));
    assert!(!names_equal("abc", "abd"));
    assert!(!names_equal("abc", "ab"));
}

#[test]
fn empty_registry_has_empty_plans() {
    let units: Vec<MigrationUnit> = Vec::new();
    assert!(plan_upgrade(&units, &Ledger::new()).unwrap().is_empty());
    assert!(plan_downgrade(&units, &Ledger::new(), 3).unwrap().is_empty());
}
