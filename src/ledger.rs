use vstd::prelude::*;

use crate::error::MigrationError;
use crate::name::names_equal;

verus! {

/// One applied unit as the store records it.
#[derive(Clone, Debug)]
pub struct LedgerEntry {
    pub name: String,
    pub applied_at: u64,
}

/// The record of applied units, in the order in which they were applied.
/// No name occurs twice.
pub struct Ledger {
    entries: Vec<LedgerEntry>,
}

/// The names of `s` with `n` taken out; `s` itself when it holds no `n`.
pub open spec fn remove_name(s: Seq<Seq<char>>, n: Seq<char>) -> Seq<Seq<char>> {
    if s.contains(n) {
        s.remove(s.index_of(n))
    } else {
        s
    }
}

/// The character sequences of a list of strings.
pub open spec fn strings_view(v: Seq<String>) -> Seq<Seq<char>> {
    v.map_values(|s: String| s@)
}

pub open spec fn names_of(entries: Seq<LedgerEntry>) -> Seq<Seq<char>> {
    entries.map_values(|e: LedgerEntry| e.name@)
}

/// Marking a name that was not applied and then unmarking it leaves the
/// ledger's names as they were.
pub proof fn lemma_mark_then_unmark_restores(names: Seq<Seq<char>>, n: Seq<char>)
    requires
        names.no_duplicates(),
        !names.contains(n),
    ensures
        remove_name(names.push(n), n) == names,
{
    let s = names.push(n);
    assert(s[names.len() as int] == n);
    assert(s.contains(n));
    let k = s.index_of(n);
    if k != names.len() {
        assert(names[k] == n);
    }
    assert(s.remove(k) =~= names);
}

proof fn lemma_index_of_unique(s: Seq<Seq<char>>, i: int)
    requires
        s.no_duplicates(),
        0 <= i < s.len(),
    ensures
        s.contains(s[i]),
        s.index_of(s[i]) == i,
{
    assert(s.contains(s[i]));
    let k = s.index_of(s[i]);
    assert(s[k] == s[i]);
}

impl Ledger {
    pub open spec fn names(&self) -> Seq<Seq<char>> {
        names_of(self.entries_spec())
    }

    pub open spec fn wf(&self) -> bool {
        self.names().no_duplicates()
    }

    pub closed spec fn entries_spec(&self) -> Seq<LedgerEntry> {
        self.entries@
    }

    /// A ledger in which nothing is applied.
    pub fn new() -> (r: Ledger)
        ensures
            r.wf(),
            r.names() == Seq::<Seq<char>>::empty(),
    {
        let r = Ledger { entries: Vec::new() };
        assert(r.names() =~= Seq::<Seq<char>>::empty());
        r
    }

    /// A ledger from rows read out of the store, in application order.
    /// Two rows with one name make `DuplicateApplication` with that name.
    pub fn from_entries(entries: Vec<LedgerEntry>) -> (r: Result<Ledger, MigrationError>)
        ensures
            names_of(entries@).no_duplicates() <==> r is Ok,
            r matches Ok(l) ==> l.wf() && l.entries_spec() == entries@,
            r matches Err(e) ==> e matches MigrationError::DuplicateApplication(n)
                && exists|i: int, j: int|
                    0 <= i < j < entries@.len() && entries@[i].name@ == n@ && entries@[j].name@ == n@,
    {
        let n = entries.len();
        let mut j: usize = 0;
        while j < n
            invariant
                n == entries@.len(),
                j <= n,
                forall|a: int, b: int|
                    0 <= a < b < j ==> entries@[a].name@ != entries@[b].name@,
            decreases n - j,
        {
            let mut i: usize = 0;
            while i < j
                invariant
                    n == entries@.len(),
                    i <= j < n,
                    forall|a: int| 0 <= a < i ==> entries@[a].name@ != entries@[j as int].name@,
                decreases j - i,
            {
                if entries[i].name == entries[j].name {
                    proof {
                        let s = names_of(entries@);
                        assert(s[i as int] == s[j as int]);
                    }
                    return Err(MigrationError::DuplicateApplication(entries[j].name.clone()));
                }
                i = i + 1;
            }
            j = j + 1;
        }
        let r = Ledger { entries };
        assert(r.names().no_duplicates()) by {
            assert forall|a: int, b: int|
                0 <= a < r.names().len() && 0 <= b < r.names().len() && a != b
                implies r.names()[a] != r.names()[b] by {
                if a < b {
                    assert(entries@[a].name@ != entries@[b].name@);
                } else {
                    assert(entries@[b].name@ != entries@[a].name@);
                }
            }
        }
        Ok(r)
    }

    pub fn len(&self) -> (r: usize)
        ensures
            r == self.names().len(),
    {
        self.entries.len()
    }

    /// The recorded rows, in application order.
    pub fn entries(&self) -> (r: &Vec<LedgerEntry>)
        ensures
            r@ == self.entries_spec(),
    {
        &self.entries
    }

    pub fn is_applied(&self, name: &str) -> (r: bool)
        ensures
            r == self.names().contains(name@),
    {
        self.position(name).is_some()
    }

    fn position(&self, name: &str) -> (r: Option<usize>)
        ensures
            r matches Some(i) ==> i < self.names().len() && self.names()[i as int] == name@,
            r is None <==> !self.names().contains(name@),
    {
        let n = self.entries.len();
        let mut i: usize = 0;
        while i < n
            invariant
                n == self.names().len(),
                i <= n,
                forall|k: int| 0 <= k < i ==> self.names()[k] != name@,
            decreases n - i,
        {
            assert(self.names()[i as int] == self.entries@[i as int].name@);
            if names_equal(self.entries[i].name.as_str(), name) {
                return Some(i);
            }
            i = i + 1;
        }
        None
    }

    /// Records `name` as applied at `applied_at`. A name that is already
    /// recorded is refused with `DuplicateApplication` and nothing changes.
    pub fn mark_applied(&mut self, name: String, applied_at: u64) -> (r: Result<(), MigrationError>)
        requires
            old(self).wf(),
        ensures
            final(self).wf(),
            old(self).names().contains(name@) ==> (r matches Err(MigrationError::DuplicateApplication(n))
                && n@ == name@ && final(self).entries_spec() == old(self).entries_spec()),
            !old(self).names().contains(name@) ==> r is Ok && final(self).entries_spec()
                == old(self).entries_spec().push(LedgerEntry { name, applied_at }),
            final(self).names() == if old(self).names().contains(name@) {
                old(self).names()
            } else {
                old(self).names().push(name@)
            },
    {
        if self.is_applied(name.as_str()) {
            return Err(MigrationError::DuplicateApplication(name));
        }
        let ghost before = self.names();
        let ghost s = name@;
        self.entries.push(LedgerEntry { name, applied_at });
        assert(self.names() =~= before.push(s));
        assert(self.names().no_duplicates()) by {
            assert forall|a: int, b: int|
                0 <= a < self.names().len() && 0 <= b < self.names().len() && a != b
                implies self.names()[a] != self.names()[b] by {
                if a < before.len() && b < before.len() {
                } else if a < before.len() {
                    assert(before.contains(before[a]));
                } else {
                    assert(before.contains(before[b]));
                }
            }
        }
        Ok(())
    }

    /// Takes `name` out of the ledger; says whether it was there.
    pub fn unmark_applied(&mut self, name: &str) -> (r: bool)
        requires
            old(self).wf(),
        ensures
            final(self).wf(),
            r == old(self).names().contains(name@),
            final(self).names() == remove_name(old(self).names(), name@),
    {
        match self.position(name) {
            None => {
                false
            },
            Some(i) => {
                let ghost before = self.names();
                proof {
                    lemma_index_of_unique(before, i as int);
                }
                self.entries.remove(i);
                assert(self.names() =~= before.remove(i as int));
                assert(self.names().no_duplicates()) by {
                    assert forall|a: int, b: int|
                        0 <= a < self.names().len() && 0 <= b < self.names().len() && a != b
                        implies self.names()[a] != self.names()[b] by {
                        let a2 = if a < i { a } else { a + 1 };
                        let b2 = if b < i { b } else { b + 1 };
                        assert(self.names()[a] == before[a2]);
                        assert(self.names()[b] == before[b2]);
                    }
                }
                true
            },
        }
    }

    /// The applied names, in application order.
    pub fn applied_names(&self) -> (r: Vec<String>)
        ensures
            strings_view(r@) == self.names(),
    {
        let n = self.entries.len();
        let mut out: Vec<String> = Vec::new();
        let mut i: usize = 0;
        while i < n
            invariant
                n == self.names().len(),
                i <= n,
                out@.len() == i,
                strings_view(out@) =~= self.names().subrange(0, i as int),
            decreases n - i,
        {
            let ghost prev = out@;
            out.push(self.entries[i].name.clone());
            assert(self.names()[i as int] == self.entries@[i as int].name@);
            assert(out@ == prev.push(self.entries@[i as int].name));
            assert forall|k: int| 0 <= k < i + 1 implies strings_view(out@)[k]
                == self.names()[k] by {
                assert(strings_view(out@)[k] == out@[k]@);
                if k < i {
                    assert(out@[k] == prev[k]);
                    assert(strings_view(prev)[k] == prev[k]@);
                    assert(strings_view(prev)[k] == self.names().subrange(0, i as int)[k]);
                } else {
                    assert(out@[k] == self.entries@[i as int].name);
                }
            }
            assert(strings_view(out@) =~= self.names().subrange(0, i + 1));
            i = i + 1;
        }
        assert(self.names().subrange(0, n as int) =~= self.names());
        out
    }
}

} // verus!
