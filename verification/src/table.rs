//! The workspace table: the ordered record of every known workspace, keyed
//! by package identity. Keys are unique; insertion order is the order in
//! which manifests were ingested (the root workspace first).

use vstd::prelude::*;

use crate::manifest::PackageInfo;
use crate::name::{NameKey, PackageName};

verus! {

/// First index whose entry has the key `k`, if any.
pub open spec fn spec_table_find(entries: Seq<(PackageName, PackageInfo)>, k: NameKey) -> Option<
    int,
>
    decreases entries.len(),
{
    if entries.len() == 0 {
        None
    } else if entries[0].0@ == k {
        Some(0int)
    } else {
        match spec_table_find(entries.drop_first(), k) {
            None => None,
            Some(j) => Some(j + 1),
        }
    }
}

/// `spec_table_find` returns the least index with the key, or `None` when no
/// entry has it.
pub proof fn lemma_spec_table_find(entries: Seq<(PackageName, PackageInfo)>, k: NameKey)
    ensures
        match spec_table_find(entries, k) {
            None => forall|i: int| 0 <= i < entries.len() ==> entries[i].0@ != k,
            Some(j) => 0 <= j < entries.len() && entries[j].0@ == k && forall|i: int|
                0 <= i < j ==> entries[i].0@ != k,
        },
    decreases entries.len(),
{
    if entries.len() > 0 && entries[0].0@ != k {
        lemma_spec_table_find(entries.drop_first(), k);
        match spec_table_find(entries.drop_first(), k) {
            None => {
                assert forall|i: int| 0 <= i < entries.len() implies entries[i].0@ != k by {
                    if i > 0 {
                        assert(entries.drop_first()[i - 1] == entries[i]);
                    }
                }
            },
            Some(j) => {
                assert(entries.drop_first()[j] == entries[j + 1]);
                assert forall|i: int| 0 <= i < j + 1 implies entries[i].0@ != k by {
                    if i > 0 {
                        assert(entries.drop_first()[i - 1] == entries[i]);
                    }
                }
            },
        }
    }
}

/// Whether some entry has the key `k`.
pub open spec fn spec_table_contains(entries: Seq<(PackageName, PackageInfo)>, k: NameKey) -> bool {
    spec_table_find(entries, k) is Some
}

/// The table of known workspaces.
pub struct WorkspaceTable {
    pub entries: Vec<(PackageName, PackageInfo)>,
}

impl WorkspaceTable {
    /// Keys are pairwise distinct.
    pub open spec fn wf(&self) -> bool {
        forall|i: int, j: int|
            0 <= i < j < self.entries@.len() ==> self.entries@[i].0@ != self.entries@[j].0@
    }

    pub open spec fn spec_len(&self) -> nat {
        self.entries@.len()
    }

    /// An empty table.
    pub fn new() -> (r: WorkspaceTable)
        ensures
            r.entries@.len() == 0,
            r.wf(),
    {
        WorkspaceTable { entries: Vec::new() }
    }

    /// Number of workspaces.
    pub fn len(&self) -> (r: usize)
        ensures
            r == self.spec_len(),
    {
        self.entries.len()
    }

    /// Index of the entry named `name`, if any.
    pub fn find(&self, name: &PackageName) -> (r: Option<usize>)
        ensures
            match r {
                None => spec_table_find(self.entries@, name@) is None,
                Some(i) => spec_table_find(self.entries@, name@) == Some(i as int) && i
                    < self.entries@.len() && self.entries@[i as int].0@ == name@,
            },
    {
        proof {
            lemma_spec_table_find(self.entries@, name@);
        }
        let mut i: usize = 0;
        while i < self.entries.len()
            invariant
                0 <= i <= self.entries@.len(),
                forall|p: int| 0 <= p < i ==> self.entries@[p].0@ != name@,
                match spec_table_find(self.entries@, name@) {
                    None => forall|p: int| 0 <= p < self.entries@.len() ==> self.entries@[p].0@
                        != name@,
                    Some(j) => 0 <= j < self.entries@.len() && self.entries@[j].0@ == name@
                        && forall|p: int| 0 <= p < j ==> self.entries@[p].0@ != name@,
                },
            decreases self.entries@.len() - i,
        {
            if self.entries[i].0.key_eq(name) {
                return Some(i);
            }
            i += 1;
        }
        None
    }

    /// The record of the workspace named `name`, if any.
    pub fn get(&self, name: &PackageName) -> (r: Option<&PackageInfo>)
        ensures
            match r {
                None => !spec_table_contains(self.entries@, name@),
                Some(info) => spec_table_find(self.entries@, name@) matches Some(j) && *info
                    == self.entries@[j].1,
            },
    {
        match self.find(name) {
            None => None,
            Some(i) => Some(&self.entries[i].1),
        }
    }

    /// Appends a fresh entry. The caller has ruled the key out of the table.
    pub fn push_new(&mut self, name: PackageName, info: PackageInfo)
        requires
            old(self).wf(),
            !spec_table_contains(old(self).entries@, name@),
        ensures
            final(self).entries@ == old(self).entries@.push((name, info)),
            final(self).wf(),
    {
        proof {
            lemma_spec_table_find(self.entries@, name@);
        }
        self.entries.push((name, info));
    }
}

} // verus!
