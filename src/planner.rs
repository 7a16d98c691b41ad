use vstd::prelude::*;

use crate::error::MigrationError;
use crate::ledger::Ledger;
use crate::name::{
    lemma_name_lt_asymmetric, lemma_name_lt_irreflexive, lemma_name_lt_total,
    lemma_name_lt_transitive, name_le, name_less, name_lt, names_equal,
};
use crate::unit::MigrationUnit;

verus! {

pub open spec fn unit_names(units: Seq<MigrationUnit>) -> Seq<Seq<char>> {
    units.map_values(|u: MigrationUnit| u.name@)
}

pub open spec fn distinct_names(units: Seq<MigrationUnit>) -> bool {
    unit_names(units).no_duplicates()
}

/// Every applied name belongs to a known unit.
pub open spec fn all_known(units: Seq<MigrationUnit>, applied: Seq<Seq<char>>) -> bool {
    forall|i: int| 0 <= i < applied.len() ==> unit_names(units).contains(#[trigger] applied[i])
}

pub open spec fn valid_indices(units: Seq<MigrationUnit>, plan: Seq<usize>) -> bool {
    forall|i: int| 0 <= i < plan.len() ==> #[trigger] plan[i] < units.len()
}

pub open spec fn ascending(units: Seq<MigrationUnit>, plan: Seq<usize>) -> bool {
    forall|i: int, j: int|
        0 <= i < j < plan.len() ==> name_lt(
            #[trigger] units[plan[i] as int].name@,
            #[trigger] units[plan[j] as int].name@,
        )
}

pub open spec fn descending(units: Seq<MigrationUnit>, plan: Seq<usize>) -> bool {
    forall|i: int, j: int|
        0 <= i < j < plan.len() ==> name_lt(
            #[trigger] units[plan[j] as int].name@,
            #[trigger] units[plan[i] as int].name@,
        )
}

/// Whether unit `k` belongs to a selection: applied or pending as
/// `want_applied` says, and no later than `limit` when one is given.
pub open spec fn selected(
    units: Seq<MigrationUnit>,
    applied: Seq<Seq<char>>,
    want_applied: bool,
    limit: Option<Seq<char>>,
    k: int,
) -> bool {
    &&& applied.contains(units[k].name@) == want_applied
    &&& match limit {
        Some(t) => name_le(units[k].name@, t),
        None => true,
    }
}

/// `plan` lists, in ascending name order, exactly the units that `selected` picks.
pub open spec fn is_sorted_selection(
    units: Seq<MigrationUnit>,
    applied: Seq<Seq<char>>,
    want_applied: bool,
    limit: Option<Seq<char>>,
    plan: Seq<usize>,
) -> bool {
    &&& valid_indices(units, plan)
    &&& ascending(units, plan)
    &&& forall|k: usize|
        k < units.len() ==> (plan.contains(k) <==> #[trigger] selected(
            units,
            applied,
            want_applied,
            limit,
            k as int,
        ))
}

/// The plan of an upgrade to the latest unit: every pending unit, by ascending name.
pub open spec fn is_upgrade_plan(
    units: Seq<MigrationUnit>,
    applied: Seq<Seq<char>>,
    plan: Seq<usize>,
) -> bool {
    is_sorted_selection(units, applied, false, None, plan)
}

/// The plan of an upgrade up to `target`: every pending unit whose name is
/// not after `target`, by ascending name.
pub open spec fn is_upgrade_to_plan(
    units: Seq<MigrationUnit>,
    applied: Seq<Seq<char>>,
    target: Seq<char>,
    plan: Seq<usize>,
) -> bool {
    is_sorted_selection(units, applied, false, Some(target), plan)
}

/// The plan of a rollback of `count` units: the `min(count, applied)` applied
/// units with the greatest names, by descending name.
pub open spec fn is_downgrade_plan(
    units: Seq<MigrationUnit>,
    applied: Seq<Seq<char>>,
    count: nat,
    plan: Seq<usize>,
) -> bool {
    &&& valid_indices(units, plan)
    &&& descending(units, plan)
    &&& plan.len() == if count < applied.len() { count } else { applied.len() }
    &&& forall|i: int| 0 <= i < plan.len() ==> applied.contains(#[trigger] units[plan[i] as int].name@)
    &&& forall|k: usize, i: int|
        k < units.len() && applied.contains(units[k as int].name@) && !plan.contains(k) && 0 <= i
            < plan.len() ==> name_lt(#[trigger] units[k as int].name@, #[trigger] units[plan[i] as int].name@)
}

/// What the registry checks decide: `DuplicateUnitName` first, then
/// `UnknownAppliedMigration`, each naming an offending name.
pub open spec fn registry_error(
    units: Seq<MigrationUnit>,
    applied: Seq<Seq<char>>,
    r: Result<(), MigrationError>,
) -> bool {
    &&& (!distinct_names(units) <==> r matches Err(MigrationError::DuplicateUnitName(_)))
    &&& (r matches Err(MigrationError::DuplicateUnitName(n)) ==> exists|i: int, j: int|
        0 <= i < j < units.len() && units[i].name@ == n@ && units[j].name@ == n@)
    &&& (distinct_names(units) && !all_known(units, applied) <==> r matches Err(
        MigrationError::UnknownAppliedMigration(_),
    ))
    &&& (r matches Err(MigrationError::UnknownAppliedMigration(n)) ==> applied.contains(n@)
        && !unit_names(units).contains(n@))
    &&& (r is Ok <==> distinct_names(units) && all_known(units, applied))
}

/// What the checks of an upgrade up to `target` decide: the registry checks,
/// then `UnknownTarget` when no known unit carries that name.
pub open spec fn upgrade_to_error(
    units: Seq<MigrationUnit>,
    applied: Seq<Seq<char>>,
    target: Seq<char>,
    r: Result<(), MigrationError>,
) -> bool {
    &&& (!(distinct_names(units) && all_known(units, applied)) ==> registry_error(units, applied, r))
    &&& (distinct_names(units) && all_known(units, applied) && !unit_names(units).contains(target)
        <==> r matches Err(MigrationError::UnknownTarget(_)))
    &&& (r matches Err(MigrationError::UnknownTarget(n)) ==> n@ == target)
    &&& (r is Ok <==> distinct_names(units) && all_known(units, applied) && unit_names(
        units,
    ).contains(target))
}

/// Index of the unit named `name`.
pub fn find_unit(units: &Vec<MigrationUnit>, name: &str) -> (r: Option<usize>)
    ensures
        r matches Some(i) ==> i < units@.len() && units@[i as int].name@ == name@,
        r is None <==> !unit_names(units@).contains(name@),
{
    let n = units.len();
    let mut i: usize = 0;
    while i < n
        invariant
            n == units@.len(),
            i <= n,
            forall|k: int| 0 <= k < i ==> units@[k].name@ != name@,
        decreases n - i,
    {
        if names_equal(units[i].name.as_str(), name) {
            assert(unit_names(units@)[i as int] == name@);
            return Some(i);
        }
        i = i + 1;
    }
    proof {
        if unit_names(units@).contains(name@) {
            let k = choose|k: int| 0 <= k < n && unit_names(units@)[k] == name@;
            assert(units@[k].name@ == name@);
        }
    }
    None
}

/// Checks that unit names are distinct and that the ledger names known units only.
pub fn check_registry(units: &Vec<MigrationUnit>, ledger: &Ledger) -> (r: Result<(), MigrationError>)
    ensures
        registry_error(units@, ledger.names(), r),
{
    let n = units.len();
    let mut j: usize = 0;
    while j < n
        invariant
            n == units@.len(),
            j <= n,
            forall|a: int, b: int| 0 <= a < b < j ==> units@[a].name@ != units@[b].name@,
        decreases n - j,
    {
        let mut i: usize = 0;
        while i < j
            invariant
                n == units@.len(),
                i <= j < n,
                forall|a: int| 0 <= a < i ==> units@[a].name@ != units@[j as int].name@,
            decreases j - i,
        {
            if names_equal(units[i].name.as_str(), units[j].name.as_str()) {
                proof {
                    let s = unit_names(units@);
                    assert(s[i as int] == s[j as int]);
                }
                return Err(MigrationError::DuplicateUnitName(units[j].name.clone()));
            }
            i = i + 1;
        }
        j = j + 1;
    }
    assert(distinct_names(units@)) by {
        let s = unit_names(units@);
        assert forall|a: int, b: int| 0 <= a < s.len() && 0 <= b < s.len() && a != b implies s[a]
            != s[b] by {
            if a < b {
                assert(units@[a].name@ != units@[b].name@);
            } else {
                assert(units@[b].name@ != units@[a].name@);
            }
        }
    }
    let names = ledger.applied_names();
    let m = names.len();
    let mut i: usize = 0;
    while i < m
        invariant
            m == names@.len(),
            i <= m,
            distinct_names(units@),
            crate::ledger::strings_view(names@) == ledger.names(),
            forall|k: int| 0 <= k < i ==> unit_names(units@).contains(#[trigger] ledger.names()[k]),
        decreases m - i,
    {
        assert(ledger.names()[i as int] == names@[i as int]@);
        if find_unit(units, names[i].as_str()).is_none() {
            proof {
                assert(ledger.names().contains(names@[i as int]@));
                assert(!unit_names(units@).contains(ledger.names()[i as int]));
                assert(!all_known(units@, ledger.names()));
            }
            return Err(MigrationError::UnknownAppliedMigration(names[i].clone()));
        }
        i = i + 1;
    }
    Ok(())
}

proof fn lemma_insert_ascending(units: Seq<MigrationUnit>, plan: Seq<usize>, p: int, j: usize)
    requires
        valid_indices(units, plan),
        ascending(units, plan),
        0 <= p <= plan.len(),
        j < units.len(),
        forall|q: int| 0 <= q < p ==> name_lt(units[plan[q] as int].name@, units[j as int].name@),
        p < plan.len() ==> name_lt(units[j as int].name@, units[plan[p] as int].name@),
    ensures
        valid_indices(units, plan.insert(p, j)),
        ascending(units, plan.insert(p, j)),
{
    let s = plan.insert(p, j);
    assert forall|a: int, b: int| 0 <= a < b < s.len() implies name_lt(
        #[trigger] units[s[a] as int].name@,
        #[trigger] units[s[b] as int].name@,
    ) by {
        if b < p {
        } else if a > p {
            assert(s[a] == plan[a - 1] && s[b] == plan[b - 1]);
        } else if a == p {
            assert(s[b] == plan[b - 1]);
            if b - 1 > p {
                lemma_name_lt_transitive(
                    units[j as int].name@,
                    units[plan[p] as int].name@,
                    units[plan[b - 1] as int].name@,
                );
            }
        } else if b == p {
        } else {
            assert(s[b] == plan[b - 1]);
            if b - 1 > p {
                lemma_name_lt_transitive(
                    units[j as int].name@,
                    units[plan[p] as int].name@,
                    units[plan[b - 1] as int].name@,
                );
            }
            lemma_name_lt_transitive(
                units[plan[a] as int].name@,
                units[j as int].name@,
                units[plan[b - 1] as int].name@,
            );
        }
    }
}

/// The units that `selected` picks, in ascending name order.
fn collect_sorted(
    units: &Vec<MigrationUnit>,
    ledger: &Ledger,
    want_applied: bool,
    limit: Option<&String>,
) -> (r: Vec<usize>)
    requires
        distinct_names(units@),
    ensures
        is_sorted_selection(
            units@,
            ledger.names(),
            want_applied,
            match limit {
                Some(t) => Some(t@),
                None => None,
            },
            r@,
        ),
{
    let ghost lim = match limit {
        Some(t) => Some(t@),
        None => None::<Seq<char>>,
    };
    let n = units.len();
    let mut plan: Vec<usize> = Vec::new();
    let mut j: usize = 0;
    while j < n
        invariant
            n == units@.len(),
            j <= n,
            distinct_names(units@),
            lim == match limit {
                Some(t) => Some(t@),
                None => None,
            },
            valid_indices(units@, plan@),
            ascending(units@, plan@),
            forall|i: int| 0 <= i < plan@.len() ==> #[trigger] plan@[i] < j,
            forall|k: usize|
                k < j ==> (plan@.contains(k) <==> #[trigger] selected(
                    units@,
                    ledger.names(),
                    want_applied,
                    lim,
                    k as int,
                )),
        decreases n - j,
    {
        let is_applied = ledger.is_applied(units[j].name.as_str());
        let in_limit = match limit {
            Some(t) => name_less(units[j].name.as_str(), t.as_str()) || names_equal(
                units[j].name.as_str(),
                t.as_str(),
            ),
            None => true,
        };
        assert(selected(units@, ledger.names(), want_applied, lim, j as int) <==> (is_applied
            == want_applied && in_limit));
        if is_applied == want_applied && in_limit {
            let mut p: usize = 0;
            while p < plan.len() && !name_less(
                units[j].name.as_str(),
                units[plan[p]].name.as_str(),
            )
                invariant
                    n == units@.len(),
                    j < n,
                    p <= plan@.len(),
                    distinct_names(units@),
                    valid_indices(units@, plan@),
                    forall|i: int| 0 <= i < plan@.len() ==> #[trigger] plan@[i] < j,
                    forall|q: int|
                        0 <= q < p ==> name_lt(
                            #[trigger] units@[plan@[q] as int].name@,
                            units@[j as int].name@,
                        ),
                decreases plan@.len() - p,
            {
                proof {
                    let a = units@[plan@[p as int] as int].name@;
                    let b = units@[j as int].name@;
                    assert(unit_names(units@)[plan@[p as int] as int] == a);
                    assert(unit_names(units@)[j as int] == b);
                    lemma_name_lt_total(a, b);
                }
                p = p + 1;
            }
            proof {
                lemma_insert_ascending(units@, plan@, p as int, j);
            }
            let ghost old_plan = plan@;
            plan.insert(p, j);
            assert(plan@ == old_plan.insert(p as int, j));
            assert forall|k: usize| k < j + 1 implies (plan@.contains(k) <==> #[trigger] selected(
                units@,
                ledger.names(),
                want_applied,
                lim,
                k as int,
            )) by {
                if k < j {
                    if old_plan.contains(k) {
                        let w = choose|w: int| 0 <= w < old_plan.len() && old_plan[w] == k;
                        if w < p {
                            assert(plan@[w] == k);
                        } else {
                            assert(plan@[w + 1] == k);
                        }
                    }
                    if plan@.contains(k) {
                        let w = choose|w: int| 0 <= w < plan@.len() && plan@[w] == k;
                        if w < p {
                            assert(old_plan[w] == k);
                        } else if w > p {
                            assert(old_plan[w - 1] == k);
                        }
                    }
                } else {
                    assert(plan@[p as int] == k);
                }
            }
            assert forall|i: int| 0 <= i < plan@.len() implies #[trigger] plan@[i] < j + 1 by {
                if i < p {
                    assert(plan@[i] == old_plan[i]);
                } else if i > p {
                    assert(plan@[i] == old_plan[i - 1]);
                }
            }
        } else {
            assert forall|k: usize| k < j + 1 implies (plan@.contains(k) <==> #[trigger] selected(
                units@,
                ledger.names(),
                want_applied,
                lim,
                k as int,
            )) by {
                if k == j && plan@.contains(k) {
                    let w = choose|w: int| 0 <= w < plan@.len() && plan@[w] == k;
                    assert(plan@[w] < j);
                }
            }
        }
        j = j + 1;
    }
    plan
}

/// The error part of a planning result, with the plan forgotten.
pub open spec fn error_part(r: Result<Vec<usize>, MigrationError>) -> Result<(), MigrationError> {
    match r {
        Ok(_) => Ok(()),
        Err(e) => Err(e),
    }
}

proof fn lemma_applied_selection_len(
    units: Seq<MigrationUnit>,
    applied: Seq<Seq<char>>,
    plan: Seq<usize>,
)
    requires
        units.len() <= usize::MAX,
        distinct_names(units),
        applied.no_duplicates(),
        all_known(units, applied),
        is_sorted_selection(units, applied, true, None, plan),
    ensures
        plan.len() == applied.len(),
{
    let ns = Seq::new(plan.len(), |i: int| units[plan[i] as int].name@);
    assert forall|i: int, j: int| 0 <= i < ns.len() && 0 <= j < ns.len() && i != j implies ns[i]
        != ns[j] by {
        lemma_name_lt_irreflexive(ns[i]);
        if i < j {
            assert(name_lt(units[plan[i] as int].name@, units[plan[j] as int].name@));
        } else {
            assert(name_lt(units[plan[j] as int].name@, units[plan[i] as int].name@));
        }
    }
    assert forall|x: Seq<char>| ns.contains(x) <==> applied.contains(x) by {
        if ns.contains(x) {
            let i = choose|i: int| 0 <= i < ns.len() && ns[i] == x;
            let k = plan[i];
            assert(k < units.len());
            assert(plan.contains(k));
            assert(selected(units, applied, true, None, k as int));
        }
        if applied.contains(x) {
            let a = choose|a: int| 0 <= a < applied.len() && applied[a] == x;
            assert(unit_names(units).contains(applied[a]));
            let k = choose|k: int| 0 <= k < units.len() && unit_names(units)[k] == x;
            assert(units[k].name@ == x);
            let ku = k as usize;
            assert(selected(units, applied, true, None, ku as int));
            assert(plan.contains(ku));
            let w = choose|w: int| 0 <= w < plan.len() && plan[w] == ku;
            assert(ns[w] == x);
        }
    }
    assert(ns.to_set() =~= applied.to_set());
    ns.unique_seq_to_set();
    applied.unique_seq_to_set();
}

/// Every pending unit, in ascending name order: the units that an upgrade to
/// the latest unit applies.
pub fn plan_upgrade(units: &Vec<MigrationUnit>, ledger: &Ledger) -> (r: Result<
    Vec<usize>,
    MigrationError,
>)
    requires
        ledger.wf(),
    ensures
        registry_error(units@, ledger.names(), error_part(r)),
        r matches Ok(p) ==> is_upgrade_plan(units@, ledger.names(), p@),
{
    match check_registry(units, ledger) {
        Err(e) => Err(e),
        Ok(()) => Ok(collect_sorted(units, ledger, false, None)),
    }
}

/// Every pending unit whose name is not after `target`, in ascending name
/// order. A target that names no known unit makes `UnknownTarget`.
pub fn plan_upgrade_to(units: &Vec<MigrationUnit>, ledger: &Ledger, target: &String) -> (r:
    Result<Vec<usize>, MigrationError>)
    requires
        ledger.wf(),
    ensures
        upgrade_to_error(units@, ledger.names(), target@, error_part(r)),
        r matches Ok(p) ==> is_upgrade_to_plan(units@, ledger.names(), target@, p@),
{
    match check_registry(units, ledger) {
        Err(e) => Err(e),
        Ok(()) => {
            if find_unit(units, target.as_str()).is_none() {
                return Err(MigrationError::UnknownTarget(target.clone()));
            }
            Ok(collect_sorted(units, ledger, false, Some(target)))
        },
    }
}

/// The `min(count, applied)` applied units with the greatest names, in
/// descending name order: the units that a rollback of `count` reverts, in
/// the order in which it reverts them.
pub fn plan_downgrade(units: &Vec<MigrationUnit>, ledger: &Ledger, count: usize) -> (r: Result<
    Vec<usize>,
    MigrationError,
>)
    requires
        ledger.wf(),
    ensures
        registry_error(units@, ledger.names(), error_part(r)),
        r matches Ok(p) ==> is_downgrade_plan(units@, ledger.names(), count as nat, p@),
{
    match check_registry(units, ledger) {
        Err(e) => Err(e),
        Ok(()) => {
            let asc = collect_sorted(units, ledger, true, None);
            proof {
                assert(units@.len() == units.len());
                lemma_applied_selection_len(units@, ledger.names(), asc@);
            }
            let len = asc.len();
            let m = if count < len {
                count
            } else {
                len
            };
            let mut out: Vec<usize> = Vec::new();
            let mut i: usize = 0;
            while i < m
                invariant
                    m <= len,
                    len == asc@.len(),
                    i <= m,
                    out@.len() == i,
                    forall|q: int| 0 <= q < i ==> #[trigger] out@[q] == asc@[len - 1 - q],
                decreases m - i,
            {
                out.push(asc[len - 1 - i]);
                i = i + 1;
            }
            proof {
                let names = ledger.names();
                assert forall|a: int, b: int| 0 <= a < b < out@.len() implies name_lt(
                    #[trigger] units@[out@[b] as int].name@,
                    #[trigger] units@[out@[a] as int].name@,
                ) by {
                    assert(out@[a] == asc@[len - 1 - a]);
                    assert(out@[b] == asc@[len - 1 - b]);
                }
                assert forall|q: int| 0 <= q < out@.len() implies #[trigger] out@[q]
                    < units@.len() by {
                    assert(out@[q] == asc@[len - 1 - q]);
                }
                assert forall|q: int| 0 <= q < out@.len() implies names.contains(
                    #[trigger] units@[out@[q] as int].name@,
                ) by {
                    assert(out@[q] == asc@[len - 1 - q]);
                    assert(asc@.contains(asc@[len - 1 - q]));
                    assert(selected(units@, names, true, None, out@[q] as int));
                }
                assert forall|k: usize, q: int|
                    k < units@.len() && names.contains(units@[k as int].name@) && !out@.contains(k)
                        && 0 <= q < out@.len() implies name_lt(
                    #[trigger] units@[k as int].name@,
                    #[trigger] units@[out@[q] as int].name@,
                ) by {
                    assert(selected(units@, names, true, None, k as int));
                    assert(asc@.contains(k));
                    let w = choose|w: int| 0 <= w < asc@.len() && asc@[w] == k;
                    if w >= len - m {
                        assert(out@[len - 1 - w] == k);
                    }
                    assert(out@[q] == asc@[len - 1 - q]);
                }
            }
            Ok(out)
        },
    }
}

} // verus!
