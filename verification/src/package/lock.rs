//! The ledger of installed packages. A package is installed exactly if the
//! ledger has an entry for its name.

use crate::build::config::PackageTarget;
use crate::names::texts;
use crate::text::same_str;
use vstd::prelude::*;

verus! {

/// What the ledger records of an installed package.
#[derive(Debug, Clone)]
pub struct InstalledPackage {
    pub version: String,
    pub target: Option<PackageTarget>,
    pub hash: String,
    pub installed_at: String,
    pub files: Vec<String>,
}

/// A record of the ledger as a mathematical value.
pub struct InstalledView {
    pub version: Seq<char>,
    pub target: Option<PackageTarget>,
    pub hash: Seq<char>,
    pub installed_at: Seq<char>,
    pub files: Seq<Seq<char>>,
}

impl View for InstalledPackage {
    type V = InstalledView;

    open spec fn view(&self) -> InstalledView {
        InstalledView {
            version: self.version@,
            target: self.target,
            hash: self.hash@,
            installed_at: self.installed_at@,
            files: texts(self.files@),
        }
    }
}

/// An entry of the ledger: the name of a package and what is recorded of it.
#[derive(Debug, Clone)]
pub struct LockEntry {
    pub name: String,
    pub package: InstalledPackage,
}

/// The ledger. Its entries hold each name once.
#[derive(Debug, Clone)]
pub struct PackageLock {
    pub installed: Vec<LockEntry>,
}

/// No name occurs twice.
pub open spec fn distinct(entries: Seq<LockEntry>) -> bool {
    forall|i: int, j: int|
        0 <= i < j < entries.len() ==> (#[trigger] entries[i]).name@ != (#[trigger] entries[j]).name@
}

/// The ledger as a map from names to records.
pub open spec fn ledger(entries: Seq<LockEntry>) -> Map<Seq<char>, InstalledView>
    decreases entries.len(),
{
    if entries.len() == 0 {
        Map::empty()
    } else {
        ledger(entries.drop_last()).insert(entries.last().name@, entries.last().package@)
    }
}

/// The map holds exactly the names of the entries, each with the record of
/// its entry.
pub proof fn lemma_ledger(entries: Seq<LockEntry>)
    requires
        distinct(entries),
    ensures
        forall|n: Seq<char>|
            ledger(entries).dom().contains(n) <==> exists|i: int|
                0 <= i < entries.len() && (#[trigger] entries[i]).name@ == n,
        forall|i: int|
            0 <= i < entries.len() ==> ledger(entries).dom().contains(
                (#[trigger] entries[i]).name@,
            ) && ledger(entries)[entries[i].name@] == entries[i].package@,
    decreases entries.len(),
{
    if entries.len() > 0 {
        let front = entries.drop_last();
        let last = entries.last();
        assert forall|i: int, j: int| 0 <= i < j < front.len() implies (#[trigger] front[i]).name@ != (
        #[trigger] front[j]).name@ by {
            assert(front[i] == entries[i] && front[j] == entries[j]);
        }
        lemma_ledger(front);
        assert(ledger(entries) == ledger(front).insert(last.name@, last.package@));
        assert forall|n: Seq<char>| ledger(entries).dom().contains(n) implies exists|i: int|
            0 <= i < entries.len() && (#[trigger] entries[i]).name@ == n by {
            if n == last.name@ {
                assert(entries[entries.len() - 1].name@ == n);
            } else {
                assert(ledger(front).dom().contains(n));
                let i = choose|i: int| 0 <= i < front.len() && (#[trigger] front[i]).name@ == n;
                assert(entries[i] == front[i]);
            }
        }
        assert forall|n: Seq<char>|
            (exists|i: int| 0 <= i < entries.len() && (#[trigger] entries[i]).name@ == n)
                implies ledger(entries).dom().contains(n) by {
            let i = choose|i: int| 0 <= i < entries.len() && (#[trigger] entries[i]).name@ == n;
            if i < entries.len() - 1 {
                assert(front[i] == entries[i]);
                assert(ledger(front).dom().contains(front[i].name@));
            }
        }
        assert forall|i: int| 0 <= i < entries.len() implies ledger(entries).dom().contains(
            (#[trigger] entries[i]).name@,
        ) && ledger(entries)[entries[i].name@] == entries[i].package@ by {
            if i < entries.len() - 1 {
                assert(front[i] == entries[i]);
                assert(entries[i].name@ != entries[entries.len() - 1].name@);
                assert(ledger(front).dom().contains(front[i].name@));
                assert(ledger(front)[front[i].name@] == front[i].package@);
            }
        }
    }
}

impl View for PackageLock {
    type V = Map<Seq<char>, InstalledView>;

    open spec fn view(&self) -> Map<Seq<char>, InstalledView> {
        ledger(self.installed@)
    }
}

/// The present time in RFC 3339 form, from `chrono::Utc::now` and
/// `to_rfc3339`. Nothing is claimed of it: each call gives another.
#[verifier::external_body]
fn now_rfc3339() -> (r: String) {
    chrono::Utc::now().to_rfc3339()
}

impl PackageLock {
    /// The ledger is well formed: no name has two entries.
    pub open spec fn wf(&self) -> bool {
        distinct(self.installed@)
    }

    /// The empty ledger.
    pub fn new() -> (r: PackageLock)
        ensures
            r.wf(),
            r@ == Map::<Seq<char>, InstalledView>::empty(),
    {
        PackageLock { installed: Vec::new() }
    }

    /// The index of the entry named `name`.
    fn find(&self, name: &str) -> (r: Option<usize>)
        requires
            self.wf(),
        ensures
            match r {
                Some(i) => i < self.installed@.len() && self.installed@[i as int].name@ == name@,
                None => forall|k: int|
                    0 <= k < self.installed@.len() ==> (#[trigger] self.installed@[k]).name@
                        != name@,
            },
            r is Some <==> self@.dom().contains(name@),
            r matches Some(i) ==> self@[name@] == self.installed@[i as int].package@,
    {
        proof {
            lemma_ledger(self.installed@);
        }
        let mut i: usize = 0;
        while i < self.installed.len()
            invariant
                i <= self.installed@.len(),
                self.wf(),
                forall|k: int| 0 <= k < i ==> (#[trigger] self.installed@[k]).name@ != name@,
            decreases self.installed.len() - i,
        {
            if same_str(self.installed[i].name.as_str(), name) {
                proof {
                    lemma_ledger(self.installed@);
                }
                return Some(i);
            }
            i += 1;
        }
        None
    }

    /// Records a package as installed at the given time. An entry of the same
    /// name is replaced.
    pub fn add_package_at(
        &mut self,
        name: String,
        version: String,
        target: Option<PackageTarget>,
        hash: String,
        files: Vec<String>,
        installed_at: String,
    )
        requires
            old(self).wf(),
        ensures
            final(self).wf(),
            final(self)@ == old(self)@.insert(
                name@,
                InstalledView {
                    version: version@,
                    target,
                    hash: hash@,
                    installed_at: installed_at@,
                    files: texts(files@),
                },
            ),
    {
        let found = self.find(name.as_str());
        let ghost before = self.installed@;
        let ghost n = name@;
        let package = InstalledPackage { version, target, hash, installed_at, files };
        let ghost pv = package@;
        let entry = LockEntry { name, package };
        match found {
            Some(i) => {
                self.installed.set(i, entry);
            },
            None => {
                self.installed.push(entry);
            },
        }
        proof {
            let after = self.installed@;
            assert forall|a: int, b: int| 0 <= a < b < after.len() implies (#[trigger] after[a]).name@
                != (#[trigger] after[b]).name@ by {
                match found {
                    Some(i) => {
                        let x = if a == i { before[a] } else { after[a] };
                        let y = if b == i { before[b] } else { after[b] };
                        assert(before[a].name@ == after[a].name@);
                        assert(before[b].name@ == after[b].name@);
                    },
                    None => {
                        if b < before.len() {
                            assert(after[a] == before[a] && after[b] == before[b]);
                        } else {
                            assert(after[a] == before[a]);
                        }
                    },
                }
            }
            lemma_ledger(before);
            lemma_ledger(after);
            let want = ledger(before).insert(n, pv);
            assert forall|m: Seq<char>| ledger(after).dom().contains(m) <==> want.dom().contains(
                m,
            ) by {
                if ledger(after).dom().contains(m) {
                    let k = choose|k: int| 0 <= k < after.len() && (#[trigger] after[k]).name@ == m;
                    if m != n {
                        assert(before[k].name@ == m);
                    }
                }
                if want.dom().contains(m) && m != n {
                    let k = choose|k: int|
                        0 <= k < before.len() && (#[trigger] before[k]).name@ == m;
                    assert(after[k].name@ == m);
                }
                if m == n {
                    match found {
                        Some(i) => {
                            assert(after[i as int].name@ == n);
                        },
                        None => {
                            assert(after[before.len() as int].name@ == n);
                        },
                    }
                }
            }
            assert forall|m: Seq<char>| ledger(after).dom().contains(m) implies ledger(after)[m]
                == want[m] by {
                let k = choose|k: int| 0 <= k < after.len() && (#[trigger] after[k]).name@ == m;
                if m != n {
                    assert(before[k] == after[k]);
                }
            }
            assert(ledger(after) =~= want);
        }
    }

    /// Records a package as installed now. An entry of the same name is
    /// replaced. Whatever the time is, the ledger holds the package with the
    /// given version, target, hash and files afterwards, and every other
    /// package as before.
    pub fn add_package(
        &mut self,
        name: String,
        version: String,
        target: Option<PackageTarget>,
        hash: String,
        files: Vec<String>,
    )
        requires
            old(self).wf(),
        ensures
            final(self).wf(),
            exists|installed_at: Seq<char>|
                final(self)@ == #[trigger] old(self)@.insert(
                    name@,
                    InstalledView {
                        version: version@,
                        target,
                        hash: hash@,
                        installed_at,
                        files: texts(files@),
                    },
                ),
    {
        let installed_at = now_rfc3339();
        self.add_package_at(name, version, target, hash, files, installed_at);
    }

    /// Takes the entry of `name` out of the ledger and returns what was
    /// recorded, `None` where the package was not installed.
    pub fn remove_package(&mut self, name: &str) -> (r: Option<InstalledPackage>)
        requires
            old(self).wf(),
        ensures
            final(self).wf(),
            final(self)@ == old(self)@.remove(name@),
            match r {
                Some(p) => old(self)@.dom().contains(name@) && old(self)@[name@] == p@,
                None => !old(self)@.dom().contains(name@),
            },
    {
        let ghost before = self.installed@;
        match self.find(name) {
            Some(i) => {
                let entry = self.installed.remove(i);
                proof {
                    let after = self.installed@;
                    let p = i as int;
                    assert forall|k: int| 0 <= k < after.len() implies #[trigger] after[k] == before[if k
                        < p {
                        k
                    } else {
                        k + 1
                    }] by {}
                    assert forall|a: int, b: int| 0 <= a < b < after.len() implies (
                    #[trigger] after[a]).name@ != (#[trigger] after[b]).name@ by {
                        let a0 = if a < p { a } else { a + 1 };
                        let b0 = if b < p { b } else { b + 1 };
                        assert(after[a] == before[a0] && after[b] == before[b0]);
                    }
                    lemma_ledger(before);
                    lemma_ledger(after);
                    let want = ledger(before).remove(name@);
                    assert forall|m: Seq<char>|
                        ledger(after).dom().contains(m) <==> want.dom().contains(m) by {
                        if ledger(after).dom().contains(m) {
                            let k = choose|k: int|
                                0 <= k < after.len() && (#[trigger] after[k]).name@ == m;
                            let k0 = if k < p { k } else { k + 1 };
                            assert(before[k0].name@ == m);
                        }
                        if want.dom().contains(m) {
                            let k = choose|k: int|
                                0 <= k < before.len() && (#[trigger] before[k]).name@ == m;
                            if k < p {
                                assert(after[k].name@ == m);
                            } else {
                                assert(after[k - 1].name@ == m);
                            }
                        }
                    }
                    assert forall|m: Seq<char>| ledger(after).dom().contains(m) implies ledger(
                        after,
                    )[m] == want[m] by {
                        let k = choose|k: int|
                            0 <= k < after.len() && (#[trigger] after[k]).name@ == m;
                        let k0 = if k < p { k } else { k + 1 };
                        assert(before[k0] == after[k]);
                    }
                    assert(ledger(after) =~= want);
                }
                Some(entry.package)
            },
            None => {
                proof {
                    assert(ledger(before) =~= ledger(before).remove(name@));
                }
                None
            },
        }
    }

    /// What is recorded of `name`, `None` where it is not installed.
    pub fn get_package(&self, name: &str) -> (r: Option<&InstalledPackage>)
        requires
            self.wf(),
        ensures
            match r {
                Some(p) => self@.dom().contains(name@) && self@[name@] == p@,
                None => !self@.dom().contains(name@),
            },
    {
        match self.find(name) {
            Some(i) => Some(&self.installed[i].package),
            None => None,
        }
    }

    /// Whether `name` is installed.
    pub fn is_package_installed(&self, name: &str) -> (r: bool)
        requires
            self.wf(),
        ensures
            r == self@.dom().contains(name@),
    {
        self.find(name).is_some()
    }

    /// The version recorded for `name`, `None` where it is not installed.
    pub fn get_installed_version(&self, name: &str) -> (r: Option<&str>)
        requires
            self.wf(),
        ensures
            match r {
                Some(v) => self@.dom().contains(name@) && self@[name@].version == v@,
                None => !self@.dom().contains(name@),
            },
    {
        match self.find(name) {
            Some(i) => Some(self.installed[i].package.version.as_str()),
            None => None,
        }
    }

    /// The entries of the ledger, in the order in which their names were
    /// first recorded.
    pub fn list_packages(&self) -> (r: &Vec<LockEntry>)
        ensures
            r@ == self.installed@,
    {
        &self.installed
    }

    /// Whether no name has two entries: what a ledger read from elsewhere has
    /// to be checked for before it is used.
    pub fn is_well_formed(&self) -> (r: bool)
        ensures
            r == self.wf(),
    {
        let mut j: usize = 0;
        while j < self.installed.len()
            invariant
                j <= self.installed@.len(),
                forall|a: int, b: int|
                    0 <= a < b < j ==> (#[trigger] self.installed@[a]).name@ != (
                    #[trigger] self.installed@[b]).name@,
            decreases self.installed.len() - j,
        {
            let mut i: usize = 0;
            while i < j
                invariant
                    i <= j < self.installed@.len(),
                    forall|a: int|
                        0 <= a < i ==> (#[trigger] self.installed@[a]).name@
                            != self.installed@[j as int].name@,
                decreases j - i,
            {
                if same_str(self.installed[i].name.as_str(), self.installed[j].name.as_str()) {
                    return false;
                }
                i += 1;
            }
            j += 1;
        }
        true
    }
}

impl Default for PackageLock {
    /// The empty ledger.
    fn default() -> (r: PackageLock)
        ensures
            r.wf(),
            r@ == Map::<Seq<char>, InstalledView>::empty(),
    {
        PackageLock::new()
    }
}

} // verus!
