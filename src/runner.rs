use vstd::prelude::*;

use crate::error::{Direction, MigrationError};
use crate::executor::{after_step, after_steps, record_commit, Outcome};
use crate::ledger::{strings_view, Ledger};
use crate::name::{lemma_name_lt_irreflexive, name_lt};
use crate::planner::{
    distinct_names, is_downgrade_plan, is_upgrade_plan, is_upgrade_to_plan, plan_downgrade,
    plan_upgrade, plan_upgrade_to, registry_error, selected, unit_names, upgrade_to_error,
    valid_indices,
};
use crate::unit::MigrationUnit;

verus! {

/// What a run was asked to reach.
pub enum Goal {
    Latest,
    UpTo(Seq<char>),
    Rollback(nat),
}

/// One unit to run, by its index among the known units.
#[derive(Clone, Copy, Debug, PartialEq, Eq, Structural)]
pub struct Step {
    pub unit: usize,
    pub direction: Direction,
}

/// One run of the engine: a plan made once at the start, then executed a
/// step at a time. The caller asks for the next step, runs it against the
/// store together with its ledger row, and reports the outcome. The first
/// failure ends the run. Units that the store could not commit inside one
/// transaction are kept as warnings.
pub struct Migrator {
    units: Vec<MigrationUnit>,
    ledger: Ledger,
    direction: Direction,
    plan: Vec<usize>,
    next: usize,
    awaiting: bool,
    warnings: Vec<String>,
    failure: Option<MigrationError>,
    initial: Ghost<Seq<Seq<char>>>,
    goal: Ghost<Goal>,
}

/// The error part of a constructor's result.
pub open spec fn start_error(r: Result<Migrator, MigrationError>) -> Result<(), MigrationError> {
    match r {
        Ok(_) => Ok(()),
        Err(e) => Err(e),
    }
}

impl Migrator {
    pub closed spec fn units_spec(&self) -> Seq<MigrationUnit> {
        self.units@
    }

    pub closed spec fn ledger_spec(&self) -> Ledger {
        self.ledger
    }

    pub closed spec fn direction_spec(&self) -> Direction {
        self.direction
    }

    pub closed spec fn plan_spec(&self) -> Seq<usize> {
        self.plan@
    }

    /// How many steps of the plan are committed.
    pub closed spec fn next_spec(&self) -> nat {
        self.next as nat
    }

    /// Whether a step was handed out and its outcome not yet reported.
    pub closed spec fn awaiting_spec(&self) -> bool {
        self.awaiting
    }

    /// Names of the units committed without a transaction.
    pub closed spec fn warnings_spec(&self) -> Seq<Seq<char>> {
        strings_view(self.warnings@)
    }

    pub closed spec fn failure_spec(&self) -> Option<MigrationError> {
        self.failure
    }

    /// The ledger's names when the run started.
    pub closed spec fn initial_spec(&self) -> Seq<Seq<char>> {
        self.initial@
    }

    pub closed spec fn goal_spec(&self) -> Goal {
        self.goal@
    }

    pub open spec fn plan_fits_goal(&self) -> bool {
        match self.goal_spec() {
            Goal::Latest => self.direction_spec() == Direction::Up && is_upgrade_plan(
                self.units_spec(),
                self.initial_spec(),
                self.plan_spec(),
            ),
            Goal::UpTo(t) => self.direction_spec() == Direction::Up && is_upgrade_to_plan(
                self.units_spec(),
                self.initial_spec(),
                t,
                self.plan_spec(),
            ),
            Goal::Rollback(c) => self.direction_spec() == Direction::Down && is_downgrade_plan(
                self.units_spec(),
                self.initial_spec(),
                c,
                self.plan_spec(),
            ),
        }
    }

    /// The ledger holds the starting names changed by exactly the committed
    /// steps, in plan order.
    pub open spec fn wf(&self) -> bool {
        &&& self.ledger_spec().wf()
        &&& self.initial_spec().no_duplicates()
        &&& self.next_spec() <= self.plan_spec().len()
        &&& distinct_names(self.units_spec())
        &&& valid_indices(self.units_spec(), self.plan_spec())
        &&& self.plan_fits_goal()
        &&& self.ledger_spec().names() == after_steps(
            self.initial_spec(),
            self.units_spec(),
            self.plan_spec().take(self.next_spec() as int),
            self.direction_spec(),
        )
        &&& self.awaiting_spec() ==> self.failure_spec() is None && self.next_spec()
            < self.plan_spec().len()
    }

    /// A run that has not executed anything yet.
    pub open spec fn fresh(&self, units: Seq<MigrationUnit>, applied: Seq<Seq<char>>) -> bool {
        &&& self.units_spec() == units
        &&& self.initial_spec() == applied
        &&& self.ledger_spec().names() == applied
        &&& self.next_spec() == 0
        &&& !self.awaiting_spec()
        &&& self.failure_spec() is None
        &&& self.warnings_spec().len() == 0
    }

    pub open spec fn finished(&self) -> bool {
        self.failure_spec() is Some || self.next_spec() == self.plan_spec().len()
    }

    pub open spec fn succeeded(&self) -> bool {
        self.failure_spec() is None && self.next_spec() == self.plan_spec().len()
    }

    /// The parts that no step changes.
    pub open spec fn same_run(&self, other: &Migrator) -> bool {
        &&& self.units_spec() == other.units_spec()
        &&& self.plan_spec() == other.plan_spec()
        &&& self.direction_spec() == other.direction_spec()
        &&& self.initial_spec() == other.initial_spec()
        &&& self.goal_spec() == other.goal_spec()
    }

    fn start(
        units: Vec<MigrationUnit>,
        ledger: Ledger,
        direction: Direction,
        plan: Vec<usize>,
        goal: Ghost<Goal>,
    ) -> (r: Migrator)
        requires
            ledger.wf(),
            distinct_names(units@),
            valid_indices(units@, plan@),
        ensures
            r.fresh(units@, ledger.names()),
            r.units_spec() == units@,
            r.plan_spec() == plan@,
            r.direction_spec() == direction,
            r.goal_spec() == goal@,
            r.ledger_spec().wf(),
            r.initial_spec().no_duplicates(),
            r.next_spec() <= r.plan_spec().len(),
            distinct_names(r.units_spec()),
            valid_indices(r.units_spec(), r.plan_spec()),
            r.ledger_spec().names() == after_steps(
                r.initial_spec(),
                r.units_spec(),
                r.plan_spec().take(0),
                r.direction_spec(),
            ),
    {
        let ghost applied = ledger.names();
        let r = Migrator {
            units,
            ledger,
            direction,
            plan,
            next: 0,
            awaiting: false,
            warnings: Vec::new(),
            failure: None,
            initial: Ghost(applied),
            goal,
        };
        assert(r.plan_spec().take(0).len() == 0);
        assert(r.warnings_spec().len() == 0);
        r
    }

    /// A run that applies every pending unit in ascending name order.
    pub fn migrate_to_latest(units: Vec<MigrationUnit>, ledger: Ledger) -> (r: Result<
        Migrator,
        MigrationError,
    >)
        requires
            ledger.wf(),
        ensures
            registry_error(units@, ledger.names(), start_error(r)),
            r matches Ok(m) ==> m.wf() && m.fresh(units@, ledger.names()) && m.goal_spec()
                == Goal::Latest,
    {
        match plan_upgrade(&units, &ledger) {
            Err(e) => Err(e),
            Ok(plan) => {
                let m = Migrator::start(units, ledger, Direction::Up, plan, Ghost(Goal::Latest));
                Ok(m)
            },
        }
    }

    /// A run that applies, in ascending name order, every pending unit whose
    /// name is not after `target`.
    pub fn migrate_to(units: Vec<MigrationUnit>, ledger: Ledger, target: &String) -> (r: Result<
        Migrator,
        MigrationError,
    >)
        requires
            ledger.wf(),
        ensures
            upgrade_to_error(units@, ledger.names(), target@, start_error(r)),
            r matches Ok(m) ==> m.wf() && m.fresh(units@, ledger.names()) && m.goal_spec()
                == Goal::UpTo(target@),
    {
        match plan_upgrade_to(&units, &ledger, target) {
            Err(e) => Err(e),
            Ok(plan) => {
                let m = Migrator::start(
                    units,
                    ledger,
                    Direction::Up,
                    plan,
                    Ghost(Goal::UpTo(target@)),
                );
                Ok(m)
            },
        }
    }

    /// A run that reverts, in descending name order, the `min(count, applied)`
    /// applied units with the greatest names.
    pub fn rollback(units: Vec<MigrationUnit>, ledger: Ledger, count: usize) -> (r: Result<
        Migrator,
        MigrationError,
    >)
        requires
            ledger.wf(),
        ensures
            registry_error(units@, ledger.names(), start_error(r)),
            r matches Ok(m) ==> m.wf() && m.fresh(units@, ledger.names()) && m.goal_spec()
                == Goal::Rollback(count as nat),
    {
        match plan_downgrade(&units, &ledger, count) {
            Err(e) => Err(e),
            Ok(plan) => {
                let m = Migrator::start(
                    units,
                    ledger,
                    Direction::Down,
                    plan,
                    Ghost(Goal::Rollback(count as nat)),
                );
                Ok(m)
            },
        }
    }

    /// The next step to run, or `None` when the run is over. Steps come in
    /// plan order. A step that would revert a unit without a backward
    /// operation is not handed out: the run ends with `RollbackUnsupported`.
    /// Asked again before an outcome was reported, it hands out the same step.
    pub fn next_step(&mut self) -> (r: Option<Step>)
        requires
            old(self).wf(),
        ensures
            final(self).wf(),
            final(self).same_run(&*old(self)),
            final(self).ledger_spec() == old(self).ledger_spec(),
            final(self).next_spec() == old(self).next_spec(),
            final(self).warnings_spec() == old(self).warnings_spec(),
            old(self).finished() ==> r is None && *final(self) == *old(self),
            !old(self).finished() ==> ({
                let k = old(self).plan_spec()[old(self).next_spec() as int];
                let u = old(self).units_spec()[k as int];
                if old(self).direction_spec() == Direction::Down && !u.has_backward() {
                    &&& r is None
                    &&& !final(self).awaiting_spec()
                    &&& final(self).failure_spec() matches Some(
                        MigrationError::RollbackUnsupported(n),
                    )
                    &&& n@ == u.name@
                } else {
                    &&& r == Some(Step { unit: k, direction: old(self).direction_spec() })
                    &&& final(self).awaiting_spec()
                    &&& final(self).failure_spec() is None
                }
            }),
    {
        if self.failure.is_some() || self.next >= self.plan.len() {
            return None;
        }
        let k = self.plan[self.next];
        if self.direction == Direction::Down && !self.units[k].is_reversible() {
            self.failure = Some(MigrationError::RollbackUnsupported(self.units[k].name.clone()));
            self.awaiting = false;
            return None;
        }
        self.awaiting = true;
        Some(Step { unit: k, direction: self.direction })
    }

    /// Takes the store's outcome for the step last handed out. A commit
    /// moves the run on and writes the ledger as the store did; a failure
    /// ends the run with the units before it committed and none after it
    /// attempted. Without a step handed out, nothing changes.
    pub fn record(&mut self, outcome: Outcome, applied_at: u64)
        requires
            old(self).wf(),
        ensures
            final(self).wf(),
            final(self).same_run(&*old(self)),
            !final(self).awaiting_spec(),
            !old(self).awaiting_spec() ==> *final(self) == *old(self),
            old(self).awaiting_spec() ==> ({
                let k = old(self).plan_spec()[old(self).next_spec() as int];
                let n = old(self).units_spec()[k as int].name@;
                let d = old(self).direction_spec();
                let before = old(self).ledger_spec().names();
                match outcome {
                    Outcome::Failed(c) => {
                        &&& final(self).failure_spec() matches Some(
                            MigrationError::UnitExecutionFailed { unit, direction, cause },
                        )
                        &&& unit@ == n && direction == d && cause == c
                        &&& final(self).ledger_spec() == old(self).ledger_spec()
                        &&& final(self).next_spec() == old(self).next_spec()
                        &&& final(self).warnings_spec() == old(self).warnings_spec()
                    },
                    Outcome::Unavailable(c) => {
                        &&& final(self).failure_spec() matches Some(
                            MigrationError::StoreUnavailable(m),
                        )
                        &&& m == c
                        &&& final(self).ledger_spec() == old(self).ledger_spec()
                        &&& final(self).next_spec() == old(self).next_spec()
                        &&& final(self).warnings_spec() == old(self).warnings_spec()
                    },
                    _ => if d == Direction::Up && before.contains(n) {
                        &&& final(self).failure_spec() matches Some(
                            MigrationError::DuplicateApplication(m),
                        )
                        &&& m@ == n
                        &&& final(self).ledger_spec().names() == before
                        &&& final(self).next_spec() == old(self).next_spec()
                        &&& final(self).warnings_spec() == old(self).warnings_spec()
                    } else {
                        &&& final(self).failure_spec() is None
                        &&& final(self).ledger_spec().names() == after_step(before, n, d)
                        &&& final(self).next_spec() == old(self).next_spec() + 1
                        &&& final(self).warnings_spec() == if outcome is CommittedWithoutTransaction {
                            old(self).warnings_spec().push(n)
                        } else {
                            old(self).warnings_spec()
                        }
                    },
                }
            }),
    {
        if !self.awaiting || self.next >= self.plan.len() {
            return;
        }
        self.awaiting = false;
        let k = self.plan[self.next];
        match outcome {
            Outcome::Failed(cause) => {
                self.failure = Some(
                    MigrationError::UnitExecutionFailed {
                        unit: self.units[k].name.clone(),
                        direction: self.direction,
                        cause,
                    },
                );
            },
            Outcome::Unavailable(cause) => {
                self.failure = Some(MigrationError::StoreUnavailable(cause));
            },
            Outcome::Committed | Outcome::CommittedWithoutTransaction => {
                let ghost steps = self.plan@.take(self.next as int);
                match record_commit(&mut self.ledger, &self.units[k], self.direction, applied_at) {
                    Err(e) => {
                        self.failure = Some(e);
                    },
                    Ok(()) => {
                        assert(self.plan@.take(self.next + 1).drop_last() =~= steps);
                        self.next = self.next + 1;
                        if matches!(outcome, Outcome::CommittedWithoutTransaction) {
                            let ghost w = self.warnings@;
                            self.warnings.push(self.units[k].name.clone());
                            assert(strings_view(self.warnings@) =~= strings_view(w).push(
                                self.units@[k as int].name@,
                            ));
                        }
                    },
                }
            },
        }
    }

    /// Whether the run is over: every step committed, or one failed.
    pub fn is_finished(&self) -> (r: bool)
        requires
            self.wf(),
        ensures
            r == self.finished(),
    {
        self.failure.is_some() || self.next >= self.plan.len()
    }

    /// The error that ended the run, if one did.
    pub fn failure(&self) -> (r: &Option<MigrationError>)
        ensures
            *r == self.failure_spec(),
    {
        &self.failure
    }

    /// Names of the units committed without a transaction around them.
    pub fn warnings(&self) -> (r: &Vec<String>)
        ensures
            strings_view(r@) == self.warnings_spec(),
    {
        &self.warnings
    }

    /// The plan, as indices of the known units, in execution order.
    pub fn plan(&self) -> (r: &Vec<usize>)
        ensures
            r@ == self.plan_spec(),
    {
        &self.plan
    }

    pub fn units(&self) -> (r: &Vec<MigrationUnit>)
        ensures
            r@ == self.units_spec(),
    {
        &self.units
    }

    pub fn ledger(&self) -> (r: &Ledger)
        ensures
            *r == self.ledger_spec(),
    {
        &self.ledger
    }

    /// Ends the run and hands back the ledger as the run has left it.
    pub fn into_ledger(self) -> (r: Ledger)
        ensures
            r == self.ledger_spec(),
    {
        self.ledger
    }

    /// The applied names, in application order, as the run has left them.
    pub fn current_state(&self) -> (r: Vec<String>)
        ensures
            strings_view(r@) == self.ledger_spec().names(),
    {
        self.ledger.applied_names()
    }

    /// Names of the units that this run committed, in the order it ran them.
    pub fn completed(&self) -> (r: Vec<String>)
        requires
            self.wf(),
        ensures
            r@.len() == self.next_spec(),
            forall|i: int|
                0 <= i < r@.len() ==> #[trigger] r@[i]@ == self.units_spec()[self.plan_spec()[i] as int].name@,
    {
        let mut out: Vec<String> = Vec::new();
        let mut i: usize = 0;
        while i < self.next
            invariant
                self.wf(),
                i <= self.next_spec(),
                out@.len() == i,
                forall|q: int|
                    0 <= q < i ==> #[trigger] out@[q]@ == self.units_spec()[self.plan_spec()[q] as int].name@,
            decreases self.next - i,
        {
            out.push(self.units[self.plan[i]].name.clone());
            i = i + 1;
        }
        out
    }
}

proof fn lemma_after_steps_up_contains(
    names: Seq<Seq<char>>,
    units: Seq<MigrationUnit>,
    steps: Seq<usize>,
)
    requires
        valid_indices(units, steps),
    ensures
        forall|x: Seq<char>| names.contains(x) ==> after_steps(names, units, steps, Direction::Up).contains(x),
        forall|i: int|
            0 <= i < steps.len() ==> after_steps(names, units, steps, Direction::Up).contains(
                #[trigger] units[steps[i] as int].name@,
            ),
        forall|x: Seq<char>|
            #[trigger] after_steps(names, units, steps, Direction::Up).contains(x) ==> names.contains(x)
                || names_at(units, steps).contains(x),
    decreases steps.len(),
{
    if steps.len() == 0 {
    } else {
        let prev = steps.drop_last();
        assert(valid_indices(units, prev)) by {
            assert forall|i: int| 0 <= i < prev.len() implies #[trigger] prev[i] < units.len() by {
                assert(prev[i] == steps[i]);
            }
        }
        lemma_after_steps_up_contains(names, units, prev);
        let p = after_steps(names, units, prev, Direction::Up);
        let n = units[steps.last() as int].name@;
        let q = after_step(p, n, Direction::Up);
        assert(q.contains(n)) by {
            if !p.contains(n) {
                assert(q[p.len() as int] == n);
            }
        }
        assert forall|x: Seq<char>| p.contains(x) implies q.contains(x) by {
            if !p.contains(n) {
                let i = choose|i: int| 0 <= i < p.len() && p[i] == x;
                assert(q[i] == x);
            }
        }
        assert forall|i: int| 0 <= i < steps.len() implies q.contains(
            #[trigger] units[steps[i] as int].name@,
        ) by {
            if i < prev.len() {
                assert(prev[i] == steps[i]);
            }
        }
        assert forall|x: Seq<char>| #[trigger] q.contains(x) implies names.contains(x) || names_at(
            units,
            steps,
        ).contains(x) by {
            if p.contains(x) {
                if names_at(units, prev).contains(x) {
                    let i = choose|i: int| 0 <= i < prev.len() && names_at(units, prev)[i] == x;
                    assert(names_at(units, steps)[i] == x);
                }
            } else {
                if !p.contains(n) {
                    let i = choose|i: int| 0 <= i < q.len() && q[i] == x;
                    if i < p.len() {
                        assert(p[i] == x);
                    }
                }
                assert(x == n);
                assert(names_at(units, steps)[prev.len() as int] == x);
            }
        }
    }
}

/// Once a run to the latest unit has committed every step, a second run to
/// the latest unit over the same units, started from the ledger the first
/// left, has nothing to do.
pub proof fn lemma_second_upgrade_is_noop(first: Migrator, second: Migrator)
    requires
        first.wf(),
        first.goal_spec() == Goal::Latest,
        first.succeeded(),
        second.wf(),
        second.goal_spec() == Goal::Latest,
        second.units_spec() == first.units_spec(),
        second.initial_spec() == first.ledger_spec().names(),
    ensures
        second.plan_spec().len() == 0,
{
    let units = first.units_spec();
    let plan = first.plan_spec();
    assert(plan.take(plan.len() as int) =~= plan);
    lemma_after_steps_up_contains(first.initial_spec(), units, plan);
    let after = first.ledger_spec().names();
    if second.plan_spec().len() > 0 {
        let k = second.plan_spec()[0];
        assert(second.plan_spec().contains(k));
        assert(selected(units, after, false, None, k as int));
        if first.initial_spec().contains(units[k as int].name@) {
        } else {
            assert(selected(units, first.initial_spec(), false, None, k as int));
            assert(plan.contains(k));
            let i = choose|i: int| 0 <= i < plan.len() && plan[i] == k;
            assert(after.contains(units[plan[i] as int].name@));
        }
    }
}

/// The names of the units at `steps`.
pub open spec fn names_at(units: Seq<MigrationUnit>, steps: Seq<usize>) -> Seq<Seq<char>> {
    steps.map_values(|k: usize| units[k as int].name@)
}

proof fn lemma_after_steps_down(names: Seq<Seq<char>>, units: Seq<MigrationUnit>, steps: Seq<usize>)
    requires
        names.no_duplicates(),
        distinct_names(units),
        valid_indices(units, steps),
        steps.no_duplicates(),
        forall|i: int| 0 <= i < steps.len() ==> names.contains(#[trigger] units[steps[i] as int].name@),
    ensures
        after_steps(names, units, steps, Direction::Down).no_duplicates(),
        after_steps(names, units, steps, Direction::Down).len() == names.len() - steps.len(),
        forall|x: Seq<char>|
            #[trigger] after_steps(names, units, steps, Direction::Down).contains(x) <==> names.contains(x)
                && !names_at(units, steps).contains(x),
    decreases steps.len(),
{
    let res = after_steps(names, units, steps, Direction::Down);
    if steps.len() == 0 {
        assert(names_at(units, steps).len() == 0);
    } else {
        let prev = steps.drop_last();
        assert(valid_indices(units, prev)) by {
            assert forall|i: int| 0 <= i < prev.len() implies #[trigger] prev[i] < units.len() by {
                assert(prev[i] == steps[i]);
            }
        }
        assert(prev.no_duplicates()) by {
            assert forall|i: int, j: int| 0 <= i < prev.len() && 0 <= j < prev.len() && i != j implies prev[i] != prev[j] by {
                assert(prev[i] == steps[i] && prev[j] == steps[j]);
            }
        }
        assert forall|i: int| 0 <= i < prev.len() implies names.contains(#[trigger] units[prev[i] as int].name@) by {
            assert(prev[i] == steps[i]);
        }
        lemma_after_steps_down(names, units, prev);
        let p = after_steps(names, units, prev, Direction::Down);
        let last = steps.last();
        let n = units[last as int].name@;
        assert(names.contains(units[steps[steps.len() - 1] as int].name@));
        assert(names_at(units, steps) =~= names_at(units, prev).push(n));
        assert(!names_at(units, prev).contains(n)) by {
            if names_at(units, prev).contains(n) {
                let i = choose|i: int| 0 <= i < prev.len() && names_at(units, prev)[i] == n;
                assert(prev[i] == steps[i]);
                assert(steps[i] != last);
                let un = unit_names(units);
                assert(un[steps[i] as int] == un[last as int]);
            }
        }
        assert(p.contains(n));
        let idx = p.index_of(n);
        assert(p[idx] == n);
        assert(res == p.remove(idx));
        assert forall|a: int, b: int| 0 <= a < res.len() && 0 <= b < res.len() && a != b implies res[a] != res[b] by {
            let a2 = if a < idx { a } else { a + 1 };
            let b2 = if b < idx { b } else { b + 1 };
            assert(res[a] == p[a2] && res[b] == p[b2]);
        }
        assert forall|x: Seq<char>| res.contains(x) <==> p.contains(x) && x != n by {
            if res.contains(x) {
                let a = choose|a: int| 0 <= a < res.len() && res[a] == x;
                let a2 = if a < idx { a } else { a + 1 };
                assert(res[a] == p[a2]);
                assert(a2 != idx);
            }
            if p.contains(x) && x != n {
                let a = choose|a: int| 0 <= a < p.len() && p[a] == x;
                assert(a != idx);
                if a < idx {
                    assert(res[a] == x);
                } else {
                    assert(res[a - 1] == x);
                }
            }
        }
        assert forall|x: Seq<char>| names_at(units, steps).contains(x) <==> names_at(units, prev).contains(x) || x == n by {
            if names_at(units, steps).contains(x) {
                let i = choose|i: int| 0 <= i < steps.len() && names_at(units, steps)[i] == x;
                if i < prev.len() {
                    assert(names_at(units, prev)[i] == x);
                }
            }
            if names_at(units, prev).contains(x) {
                let i = choose|i: int| 0 <= i < prev.len() && names_at(units, prev)[i] == x;
                assert(names_at(units, steps)[i] == x);
            }
            if x == n {
                assert(names_at(units, steps)[prev.len() as int] == x);
            }
        }
    }
}

/// A rollback that committed every step has taken out of the ledger exactly
/// the names of the units in its plan, `min(count, applied)` of them, and
/// kept every other name.
pub proof fn lemma_rollback_reverts_plan(m: Migrator)
    requires
        m.wf(),
        m.goal_spec() is Rollback,
        m.succeeded(),
    ensures
        m.plan_spec().len() == if m.goal_spec()->Rollback_0 < m.initial_spec().len() {
            m.goal_spec()->Rollback_0
        } else {
            m.initial_spec().len()
        },
        m.ledger_spec().names().len() == m.initial_spec().len() - m.plan_spec().len(),
        forall|x: Seq<char>|
            #[trigger] m.ledger_spec().names().contains(x) <==> m.initial_spec().contains(x)
                && !names_at(m.units_spec(), m.plan_spec()).contains(x),
{
    let units = m.units_spec();
    let plan = m.plan_spec();
    assert(plan.take(plan.len() as int) =~= plan);
    assert(plan.no_duplicates()) by {
        assert forall|i: int, j: int| 0 <= i < plan.len() && 0 <= j < plan.len() && i != j implies plan[i] != plan[j] by {
            let a = units[plan[i] as int].name@;
            lemma_name_lt_irreflexive(a);
            if i < j {
                assert(name_lt(units[plan[j] as int].name@, units[plan[i] as int].name@));
            } else {
                assert(name_lt(units[plan[i] as int].name@, units[plan[j] as int].name@));
            }
        }
    }
    lemma_after_steps_down(m.initial_spec(), units, plan);
}

/// A run to the latest unit that stopped on a failed unit has recorded
/// every unit ordered before it and none of the units from it on, and it
/// hands out no further step.
pub proof fn lemma_failed_upgrade_keeps_prefix(m: Migrator)
    requires
        m.wf(),
        m.goal_spec() == Goal::Latest,
        m.failure_spec() is Some,
    ensures
        m.finished(),
        forall|i: int|
            0 <= i < m.next_spec() ==> m.ledger_spec().names().contains(
                #[trigger] m.units_spec()[m.plan_spec()[i] as int].name@,
            ),
        forall|i: int|
            m.next_spec() <= i < m.plan_spec().len() ==> !m.ledger_spec().names().contains(
                #[trigger] m.units_spec()[m.plan_spec()[i] as int].name@,
            ),
{
    let units = m.units_spec();
    let plan = m.plan_spec();
    let done = plan.take(m.next_spec() as int);
    assert(valid_indices(units, done)) by {
        assert forall|i: int| 0 <= i < done.len() implies #[trigger] done[i] < units.len() by {
            assert(done[i] == plan[i]);
        }
    }
    lemma_after_steps_up_contains(m.initial_spec(), units, done);
    assert forall|i: int| 0 <= i < m.next_spec() implies m.ledger_spec().names().contains(
        #[trigger] units[plan[i] as int].name@,
    ) by {
        assert(done[i] == plan[i]);
    }
    assert forall|i: int| m.next_spec() <= i < plan.len() implies !m.ledger_spec().names().contains(
        #[trigger] units[plan[i] as int].name@,
    ) by {
        let x = units[plan[i] as int].name@;
        assert(plan.contains(plan[i]));
        assert(selected(units, m.initial_spec(), false, None, plan[i] as int));
        if names_at(units, done).contains(x) {
            let j = choose|j: int| 0 <= j < done.len() && names_at(units, done)[j] == x;
            assert(done[j] == plan[j]);
            assert(name_lt(units[plan[j] as int].name@, units[plan[i] as int].name@));
            lemma_name_lt_irreflexive(x);
        }
    }
}

} // verus!
