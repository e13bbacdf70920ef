//! The package store and the version store.
//!
//! Rows are kept in insertion order and never removed, so the row with
//! identifier `n` is the `n`-th row that was created. [`RegistryView`] is the
//! mathematical state of both stores; every operation is specified as a
//! function from one such state to the next.

use vstd::prelude::*;
use vstd::string::*;
use crate::error::Error;
use crate::lookup::{
    first_index, lemma_first_index, lemma_first_index_absent, lemma_first_index_found,
};
use crate::models::{
    number_of, NewPackage, NewPackageVersion, NewPackageVersionView, NewPackageView, Package,
    PackageVersion, PackageVersionView, PackageView,
};

verus! {

/// The largest number of rows a store can hold, and the largest value of a
/// download counter.
pub const MAX_ROWS: i32 = 2147483647;

/// The condition "is named `name`" on packages.
pub open spec fn has_name(name: Seq<char>) -> spec_fn(PackageView) -> bool {
    |p: PackageView| p.name == name
}

/// The condition "belongs to package `package_id` and carries revision
/// `rev`" on versions.
pub open spec fn has_rev(package_id: int, rev: Seq<char>) -> spec_fn(PackageVersionView) -> bool {
    |v: PackageVersionView| v.package_id == package_id && v.rev == Some(rev)
}

/// The state of the package store and the version store.
pub struct RegistryView {
    /// The packages, oldest first.
    pub packages: Seq<PackageView>,
    /// The versions of all packages, oldest first.
    pub versions: Seq<PackageVersionView>,
}

impl RegistryView {
    /// The invariant of the stores: identifiers count the rows from one,
    /// no two packages share a name, every version belongs to a package,
    /// no package holds two versions of one revision, and counters stay in
    /// range.
    pub open spec fn wf(self) -> bool {
        &&& self.packages.len() <= MAX_ROWS
        &&& self.versions.len() <= MAX_ROWS
        &&& forall|i: int|
            0 <= i < self.packages.len() ==> {
                &&& (#[trigger] self.packages[i]).id == i + 1
                &&& 0 <= self.packages[i].total_downloads_count <= MAX_ROWS
            }
        &&& forall|i: int, j: int|
            0 <= i < j < self.packages.len() ==> (#[trigger] self.packages[i]).name != (
            #[trigger] self.packages[j]).name
        &&& forall|i: int|
            0 <= i < self.versions.len() ==> {
                &&& (#[trigger] self.versions[i]).id == i + 1
                &&& 1 <= self.versions[i].package_id <= self.packages.len()
                &&& 0 <= self.versions[i].downloads_count <= MAX_ROWS
            }
        &&& forall|i: int, j: int|
            0 <= i < j < self.versions.len() ==> !({
                &&& (#[trigger] self.versions[i]).package_id == (#[trigger] self.versions[j]).package_id
                &&& self.versions[i].rev == self.versions[j].rev
            })
    }

    /// The stores with no rows.
    pub open spec fn empty() -> RegistryView {
        RegistryView { packages: Seq::empty(), versions: Seq::empty() }
    }

    /// The package with identifier `id`, if there is one.
    pub open spec fn package(self, id: int) -> Option<PackageView> {
        if 1 <= id <= self.packages.len() {
            Some(self.packages[id - 1])
        } else {
            None
        }
    }

    /// The version with identifier `id`, if there is one.
    pub open spec fn version(self, id: int) -> Option<PackageVersionView> {
        if 1 <= id <= self.versions.len() {
            Some(self.versions[id - 1])
        } else {
            None
        }
    }

    /// The identifier of the package named `name`, if there is one.
    pub open spec fn package_id_by_name(self, name: Seq<char>) -> Option<int> {
        match first_index(self.packages, has_name(name)) {
            Some(i) => Some(i + 1),
            None => None,
        }
    }

    /// The identifier of the version of package `package_id` that carries
    /// revision `rev`, if there is one.
    pub open spec fn version_id_by_rev(self, package_id: int, rev: Seq<char>) -> Option<int> {
        match first_index(self.versions, has_rev(package_id, rev)) {
            Some(i) => Some(i + 1),
            None => None,
        }
    }

    /// The row that `create_package` adds.
    pub open spec fn new_package_row(self, new: NewPackageView, account_id: Option<int>, now: int)
        -> PackageView {
        PackageView {
            id: self.packages.len() as int + 1,
            name: new.name,
            description: new.description,
            repository_url: new.repository_url,
            total_downloads_count: 0,
            account_id,
            created_at: now,
            updated_at: now,
        }
    }

    /// Creating a package: refused with `DuplicateName` where the name is
    /// taken and with `StoreUnavailable` where the store is full; otherwise
    /// the row is appended with the next identifier and a zero counter.
    pub open spec fn create_package(self, new: NewPackageView, account_id: Option<int>, now: int)
        -> (RegistryView, Result<PackageView, Error>) {
        if self.package_id_by_name(new.name) is Some {
            (self, Err(Error::DuplicateName))
        } else if self.packages.len() >= MAX_ROWS {
            (self, Err(Error::StoreUnavailable))
        } else {
            let row = self.new_package_row(new, account_id, now);
            (RegistryView { packages: self.packages.push(row), versions: self.versions }, Ok(row))
        }
    }

    /// The row that `create_version` adds.
    pub open spec fn new_version_row(self, new: NewPackageVersionView, now: int)
        -> PackageVersionView {
        PackageVersionView {
            id: self.versions.len() as int + 1,
            package_id: new.package_id,
            version: new.version,
            readme_content: Some(new.readme_content),
            license: None,
            downloads_count: 0,
            created_at: now,
            updated_at: now,
            rev: Some(new.rev),
            total_files: Some(new.total_files),
            total_size: Some(new.total_size),
        }
    }

    /// Creating a version: refused with `NotFound` where the package does
    /// not exist, with `DuplicateRevision` where the package already holds
    /// the revision, and with `StoreUnavailable` where the store is full;
    /// otherwise the row is appended with the next identifier and a zero
    /// counter.
    pub open spec fn create_version(self, new: NewPackageVersionView, now: int) -> (
        RegistryView,
        Result<PackageVersionView, Error>,
    ) {
        if self.package(new.package_id) is None {
            (self, Err(Error::NotFound))
        } else if self.version_id_by_rev(new.package_id, new.rev) is Some {
            (self, Err(Error::DuplicateRevision))
        } else if self.versions.len() >= MAX_ROWS {
            (self, Err(Error::StoreUnavailable))
        } else {
            let row = self.new_version_row(new, now);
            (RegistryView { packages: self.packages, versions: self.versions.push(row) }, Ok(row))
        }
    }

    /// A version row with its counter raised by one.
    pub open spec fn counted_version(row: PackageVersionView) -> PackageVersionView {
        PackageVersionView { downloads_count: row.downloads_count + 1, ..row }
    }

    /// A package row with its counter raised by one.
    pub open spec fn counted_package(row: PackageView) -> PackageView {
        PackageView { total_downloads_count: row.total_downloads_count + 1, ..row }
    }

    /// Counting one download of a version: refused with `NotFound` where
    /// the version does not exist and with `StoreUnavailable` where the
    /// counter is at its limit; otherwise the counter of that one row rises
    /// by one and the new value is reported.
    pub open spec fn increment_version_downloads(self, version_id: int) -> (
        RegistryView,
        Result<int, Error>,
    ) {
        match self.version(version_id) {
            None => (self, Err(Error::NotFound)),
            Some(row) => if row.downloads_count >= MAX_ROWS {
                (self, Err(Error::StoreUnavailable))
            } else {
                (
                    RegistryView {
                        packages: self.packages,
                        versions: self.versions.update(
                            version_id - 1,
                            Self::counted_version(row),
                        ),
                    },
                    Ok(row.downloads_count + 1),
                )
            },
        }
    }

    /// Counting one download of a package: as for a version, on the
    /// package's aggregate counter.
    pub open spec fn increment_package_downloads(self, package_id: int) -> (
        RegistryView,
        Result<int, Error>,
    ) {
        match self.package(package_id) {
            None => (self, Err(Error::NotFound)),
            Some(row) => if row.total_downloads_count >= MAX_ROWS {
                (self, Err(Error::StoreUnavailable))
            } else {
                (
                    RegistryView {
                        packages: self.packages.update(
                            package_id - 1,
                            Self::counted_package(row),
                        ),
                        versions: self.versions,
                    },
                    Ok(row.total_downloads_count + 1),
                )
            },
        }
    }
}

/// Whether `after` holds the rows of `before` with nothing changed but
/// download counters.
pub open spec fn same_but_counters(before: RegistryView, after: RegistryView) -> bool {
    &&& after.packages.len() == before.packages.len()
    &&& after.versions.len() == before.versions.len()
    &&& forall|i: int|
        0 <= i < before.packages.len() ==> (#[trigger] after.packages[i]) == (PackageView {
            total_downloads_count: after.packages[i].total_downloads_count,
            ..before.packages[i]
        })
    &&& forall|i: int|
        0 <= i < before.versions.len() ==> (#[trigger] after.versions[i]) == (PackageVersionView {
            downloads_count: after.versions[i].downloads_count,
            ..before.versions[i]
        })
}

/// Creating a package keeps the invariant and the versions. Where it
/// succeeds the new row is the last, bears the next identifier and is found
/// under its name; where it fails nothing changes.
pub proof fn lemma_create_package(
    s: RegistryView,
    new: NewPackageView,
    account_id: Option<int>,
    now: int,
)
    requires
        s.wf(),
    ensures
        ({
            let (next, result) = s.create_package(new, account_id, now);
            &&& next.wf()
            &&& next.versions == s.versions
            &&& match result {
                Ok(row) => {
                    &&& row == s.new_package_row(new, account_id, now)
                    &&& next.packages == s.packages.push(row)
                    &&& s.package_id_by_name(new.name) is None
                    &&& next.package_id_by_name(new.name) == Some(row.id)
                },
                Err(e) => next == s && (e == Error::DuplicateName || e == Error::StoreUnavailable),
            }
        }),
{
    let (next, result) = s.create_package(new, account_id, now);
    if result is Ok {
        let row = s.new_package_row(new, account_id, now);
        lemma_first_index(s.packages, has_name(new.name));
        crate::lookup::lemma_first_index_push(s.packages, has_name(new.name), row);
        assert forall|i: int, j: int| 0 <= i < j < next.packages.len() implies (
        #[trigger] next.packages[i]).name != (#[trigger] next.packages[j]).name by {
            if j == s.packages.len() {
                assert(!has_name(new.name)(s.packages[i]));
            }
        }
    }
}

/// Creating a version keeps the invariant and the packages. Where it
/// succeeds the new row is the last, bears the next identifier and is found
/// under its package and revision; where it fails nothing changes.
pub proof fn lemma_create_version(s: RegistryView, new: NewPackageVersionView, now: int)
    requires
        s.wf(),
    ensures
        ({
            let (next, result) = s.create_version(new, now);
            &&& next.wf()
            &&& next.packages == s.packages
            &&& match result {
                Ok(row) => {
                    &&& row == s.new_version_row(new, now)
                    &&& next.versions == s.versions.push(row)
                    &&& s.version_id_by_rev(new.package_id, new.rev) is None
                    &&& next.version_id_by_rev(new.package_id, new.rev) == Some(row.id)
                },
                Err(e) => next == s && (e == Error::NotFound || e == Error::DuplicateRevision || e
                    == Error::StoreUnavailable),
            }
        }),
{
    let (next, result) = s.create_version(new, now);
    if result is Ok {
        let row = s.new_version_row(new, now);
        lemma_first_index(s.versions, has_rev(new.package_id, new.rev));
        crate::lookup::lemma_first_index_push(
            s.versions,
            has_rev(new.package_id, new.rev),
            row,
        );
        assert forall|i: int, j: int| 0 <= i < j < next.versions.len() implies !({
            &&& (#[trigger] next.versions[i]).package_id == (#[trigger] next.versions[j]).package_id
            &&& next.versions[i].rev == next.versions[j].rev
        }) by {
            if j == s.versions.len() {
                assert(!has_rev(new.package_id, new.rev)(s.versions[i]));
            }
        }
    }
}

/// Counting a download of a version keeps the invariant and changes
/// nothing but that version's counter, which rises by one.
pub proof fn lemma_increment_version(s: RegistryView, version_id: int)
    requires
        s.wf(),
    ensures
        ({
            let (next, result) = s.increment_version_downloads(version_id);
            &&& next.wf()
            &&& same_but_counters(s, next)
            &&& next.packages == s.packages
            &&& match result {
                Ok(n) => {
                    &&& 1 <= version_id <= s.versions.len()
                    &&& n == s.versions[version_id - 1].downloads_count + 1
                    &&& next.versions[version_id - 1].downloads_count == n
                    &&& forall|i: int|
                        0 <= i < s.versions.len() && i != version_id - 1
                            ==> #[trigger] next.versions[i] == s.versions[i]
                },
                Err(_) => next == s,
            }
        }),
{
}

/// Counting a download of a package keeps the invariant and changes
/// nothing but that package's counter, which rises by one.
pub proof fn lemma_increment_package(s: RegistryView, package_id: int)
    requires
        s.wf(),
    ensures
        ({
            let (next, result) = s.increment_package_downloads(package_id);
            &&& next.wf()
            &&& same_but_counters(s, next)
            &&& next.versions == s.versions
            &&& match result {
                Ok(n) => {
                    &&& 1 <= package_id <= s.packages.len()
                    &&& n == s.packages[package_id - 1].total_downloads_count + 1
                    &&& next.packages[package_id - 1].total_downloads_count == n
                    &&& forall|i: int|
                        0 <= i < s.packages.len() && i != package_id - 1
                            ==> #[trigger] next.packages[i] == s.packages[i]
                },
                Err(_) => next == s,
            }
        }),
{
}

/// Rows that differ in counters only are found under the same names and
/// revisions.
pub proof fn lemma_lookups_ignore_counters(
    before: RegistryView,
    after: RegistryView,
    name: Seq<char>,
    package_id: int,
    rev: Seq<char>,
)
    requires
        same_but_counters(before, after),
    ensures
        after.package_id_by_name(name) == before.package_id_by_name(name),
        after.version_id_by_rev(package_id, rev) == before.version_id_by_rev(package_id, rev),
{
    crate::lookup::lemma_first_index_agree(
        before.packages,
        has_name(name),
        after.packages,
        has_name(name),
    );
    crate::lookup::lemma_first_index_agree(
        before.versions,
        has_rev(package_id, rev),
        after.versions,
        has_rev(package_id, rev),
    );
}

/// The view of a result that carries a package.
pub open spec fn package_result(result: Result<Package, Error>) -> Result<PackageView, Error> {
    match result {
        Ok(row) => Ok(row@),
        Err(e) => Err(e),
    }
}

/// The view of a result that carries a version.
pub open spec fn version_result(result: Result<PackageVersion, Error>) -> Result<
    PackageVersionView,
    Error,
> {
    match result {
        Ok(row) => Ok(row@),
        Err(e) => Err(e),
    }
}

/// The view of a result that carries a counter or an identifier.
pub open spec fn number_result(result: Result<i32, Error>) -> Result<int, Error> {
    match result {
        Ok(n) => Ok(n as int),
        Err(e) => Err(e),
    }
}

/// The view of an optional identifier.
pub open spec fn id_of(value: Option<i32>) -> Option<int> {
    number_of(value)
}

/// The views of a sequence of packages.
pub open spec fn package_views(rows: Seq<Package>) -> Seq<PackageView> {
    rows.map_values(|p: Package| p@)
}

/// The views of a sequence of versions.
pub open spec fn version_views(rows: Seq<PackageVersion>) -> Seq<PackageVersionView> {
    rows.map_values(|v: PackageVersion| v@)
}

/// The state of stores that hold the given rows.
pub open spec fn rows_view(packages: Seq<Package>, versions: Seq<PackageVersion>) -> RegistryView {
    RegistryView { packages: package_views(packages), versions: version_views(versions) }
}

/// The package store and the version store, held in memory.
pub struct Registry {
    packages: Vec<Package>,
    versions: Vec<PackageVersion>,
}

impl View for Registry {
    type V = RegistryView;

    closed spec fn view(&self) -> RegistryView {
        rows_view(self.packages@, self.versions@)
    }
}

impl Registry {
    /// Whether the stores meet their invariant.
    pub open spec fn wf(&self) -> bool {
        self@.wf()
    }

    /// Stores with no rows.
    pub fn new() -> (store: Registry)
        ensures
            store@ == RegistryView::empty(),
            store.wf(),
    {
        let store = Registry { packages: Vec::new(), versions: Vec::new() };
        assert(store@.packages =~= Seq::empty());
        assert(store@.versions =~= Seq::empty());
        store
    }

    /// Stores that hold the given rows, as they were read from a saved
    /// state. Fails with `StoreUnavailable` where the rows do not meet the
    /// invariant of the stores.
    pub fn from_rows(packages: Vec<Package>, versions: Vec<PackageVersion>) -> (result: Result<
        Registry,
        Error,
    >)
        ensures
            match result {
                Ok(store) => store.wf() && store@ == rows_view(packages@, versions@),
                Err(e) => e == Error::StoreUnavailable && !rows_view(packages@, versions@).wf(),
            },
    {
        let store = Registry { packages, versions };
        assert(store@ == rows_view(packages@, versions@));
        if store.meets_invariant() {
            Ok(store)
        } else {
            Err(Error::StoreUnavailable)
        }
    }

    /// Whether the rows meet the invariant of the stores.
    fn meets_invariant(&self) -> (valid: bool)
        ensures
            valid == self@.wf(),
    {
        let ghost s = self@;
        if self.packages.len() > MAX_ROWS as usize || self.versions.len() > MAX_ROWS as usize {
            return false;
        }
        let mut i: usize = 0;
        while i < self.packages.len()
            invariant
                s == self@,
                i <= self.packages.len() <= MAX_ROWS,
                forall|k: int|
                    0 <= k < i ==> {
                        &&& (#[trigger] s.packages[k]).id == k + 1
                        &&& 0 <= s.packages[k].total_downloads_count <= MAX_ROWS
                    },
                forall|k: int, j: int|
                    0 <= k < j < i ==> (#[trigger] s.packages[k]).name != (
                    #[trigger] s.packages[j]).name,
            decreases self.packages.len() - i,
        {
            let row = &self.packages[i];
            if row.id != (i + 1) as i32 || row.total_downloads_count < 0 {
                assert(!((s.packages[i as int]).id == i + 1 && 0
                    <= s.packages[i as int].total_downloads_count));
                return false;
            }
            let mut k: usize = 0;
            while k < i
                invariant
                    s == self@,
                    k <= i < self.packages.len(),
                    row@ == s.packages[i as int],
                    forall|m: int| 0 <= m < k ==> (#[trigger] s.packages[m]).name != row@.name,
                decreases i - k,
            {
                if self.packages[k].name == row.name {
                    assert(s.packages[k as int].name == s.packages[i as int].name);
                    return false;
                }
                k += 1;
            }
            i += 1;
        }
        let mut i: usize = 0;
        while i < self.versions.len()
            invariant
                s == self@,
                i <= self.versions.len() <= MAX_ROWS,
                self.packages.len() <= MAX_ROWS,
                forall|k: int|
                    0 <= k < i ==> {
                        &&& (#[trigger] s.versions[k]).id == k + 1
                        &&& 1 <= s.versions[k].package_id <= s.packages.len()
                        &&& 0 <= s.versions[k].downloads_count <= MAX_ROWS
                    },
                forall|k: int, j: int|
                    0 <= k < j < i ==> !({
                        &&& (#[trigger] s.versions[k]).package_id == (
                        #[trigger] s.versions[j]).package_id
                        &&& s.versions[k].rev == s.versions[j].rev
                    }),
            decreases self.versions.len() - i,
        {
            let row = &self.versions[i];
            if row.id != (i + 1) as i32 || row.downloads_count < 0 || row.package_id < 1
                || row.package_id as usize > self.packages.len() {
                assert(!({
                    &&& (s.versions[i as int]).id == i + 1
                    &&& 1 <= s.versions[i as int].package_id <= s.packages.len()
                    &&& 0 <= s.versions[i as int].downloads_count
                }));
                return false;
            }
            let mut k: usize = 0;
            while k < i
                invariant
                    s == self@,
                    k <= i < self.versions.len(),
                    row@ == s.versions[i as int],
                    forall|m: int|
                        0 <= m < k ==> !({
                            &&& (#[trigger] s.versions[m]).package_id == row@.package_id
                            &&& s.versions[m].rev == row@.rev
                        }),
                decreases i - k,
            {
                let other = &self.versions[k];
                let same_rev = match (&other.rev, &row.rev) {
                    (Some(a), Some(b)) => *a == *b,
                    (None, None) => true,
                    _ => false,
                };
                if other.package_id == row.package_id && same_rev {
                    assert(s.versions[k as int].package_id == s.versions[i as int].package_id
                        && s.versions[k as int].rev == s.versions[i as int].rev);
                    return false;
                }
                k += 1;
            }
            i += 1;
        }
        true
    }

    /// Copies of all packages, oldest first.
    pub fn packages(&self) -> (rows: Vec<Package>)
        ensures
            package_views(rows@) == self@.packages,
    {
        let mut rows: Vec<Package> = Vec::new();
        let mut i: usize = 0;
        while i < self.packages.len()
            invariant
                i <= self.packages.len(),
                rows@.len() == i,
                forall|k: int| 0 <= k < i ==> (#[trigger] rows@[k])@ == self@.packages[k],
            decreases self.packages.len() - i,
        {
            rows.push(self.packages[i].clone());
            i += 1;
        }
        assert(package_views(rows@) =~= self@.packages);
        rows
    }

    /// Copies of all versions, oldest first.
    pub fn versions(&self) -> (rows: Vec<PackageVersion>)
        ensures
            version_views(rows@) == self@.versions,
    {
        let mut rows: Vec<PackageVersion> = Vec::new();
        let mut i: usize = 0;
        while i < self.versions.len()
            invariant
                i <= self.versions.len(),
                rows@.len() == i,
                forall|k: int| 0 <= k < i ==> (#[trigger] rows@[k])@ == self@.versions[k],
            decreases self.versions.len() - i,
        {
            rows.push(self.versions[i].clone());
            i += 1;
        }
        assert(version_views(rows@) =~= self@.versions);
        rows
    }

    /// The number of packages.
    pub fn package_count(&self) -> (n: usize)
        ensures
            n == self@.packages.len(),
    {
        self.packages.len()
    }

    /// The number of versions, over all packages.
    pub fn version_count(&self) -> (n: usize)
        ensures
            n == self@.versions.len(),
    {
        self.versions.len()
    }

    /// The package with identifier `id`.
    pub fn package(&self, id: i32) -> (row: Option<&Package>)
        ensures
            match row {
                Some(p) => self@.package(id as int) == Some(p@),
                None => self@.package(id as int) is None,
            },
    {
        if id >= 1 && (id as usize) <= self.packages.len() {
            Some(&self.packages[(id - 1) as usize])
        } else {
            None
        }
    }

    /// The version with identifier `id`.
    pub fn version(&self, id: i32) -> (row: Option<&PackageVersion>)
        ensures
            match row {
                Some(v) => self@.version(id as int) == Some(v@),
                None => self@.version(id as int) is None,
            },
    {
        if id >= 1 && (id as usize) <= self.versions.len() {
            Some(&self.versions[(id - 1) as usize])
        } else {
            None
        }
    }

    /// The package at position `index` in insertion order.
    pub fn package_at(&self, index: usize) -> (row: &Package)
        requires
            index < self@.packages.len(),
        ensures
            row@ == self@.packages[index as int],
    {
        &self.packages[index]
    }

    /// The version at position `index` in insertion order.
    pub fn version_at(&self, index: usize) -> (row: &PackageVersion)
        requires
            index < self@.versions.len(),
        ensures
            row@ == self@.versions[index as int],
    {
        &self.versions[index]
    }

    /// The identifier of the package named `name`.
    pub fn package_id_by_name(&self, name: &String) -> (id: Option<i32>)
        requires
            self.wf(),
        ensures
            id_of(id) == self@.package_id_by_name(name@),
    {
        let mut i: usize = 0;
        while i < self.packages.len()
            invariant
                self.wf(),
                i <= self.packages.len(),
                forall|k: int| 0 <= k < i ==> !has_name(name@)(#[trigger] self@.packages[k]),
            decreases self.packages.len() - i,
        {
            if self.packages[i].name == *name {
                proof {
                    lemma_first_index_found(self@.packages, has_name(name@), i as int);
                }
                return Some((i + 1) as i32);
            }
            i += 1;
        }
        proof {
            lemma_first_index_absent(self@.packages, has_name(name@));
        }
        None
    }

    /// The identifier of the version of package `package_id` that carries
    /// revision `rev`.
    pub fn version_id_by_rev(&self, package_id: i32, rev: &String) -> (id: Option<i32>)
        requires
            self.wf(),
        ensures
            id_of(id) == self@.version_id_by_rev(package_id as int, rev@),
    {
        let mut i: usize = 0;
        while i < self.versions.len()
            invariant
                self.wf(),
                i <= self.versions.len(),
                forall|k: int|
                    0 <= k < i ==> !has_rev(package_id as int, rev@)(#[trigger] self@.versions[k]),
            decreases self.versions.len() - i,
        {
            let row = &self.versions[i];
            let same_rev = match &row.rev {
                Some(r) => *r == *rev,
                None => false,
            };
            if row.package_id == package_id && same_rev {
                proof {
                    lemma_first_index_found(
                        self@.versions,
                        has_rev(package_id as int, rev@),
                        i as int,
                    );
                }
                return Some((i + 1) as i32);
            }
            i += 1;
        }
        proof {
            lemma_first_index_absent(self@.versions, has_rev(package_id as int, rev@));
        }
        None
    }

    /// Adds a package. Fails with `DuplicateName` where a package of that
    /// name exists and with `StoreUnavailable` where the store is full;
    /// neither changes the store.
    pub fn create_package(&mut self, new: NewPackage, account_id: Option<i32>, now: i64) -> (result:
        Result<Package, Error>)
        requires
            old(self).wf(),
        ensures
            final(self).wf(),
            (final(self)@, package_result(result)) == old(self)@.create_package(
                new@,
                number_of(account_id),
                now as int,
            ),
    {
        if self.package_id_by_name(&new.name).is_some() {
            return Err(Error::DuplicateName);
        }
        if self.packages.len() >= MAX_ROWS as usize {
            return Err(Error::StoreUnavailable);
        }
        let row = Package {
            id: (self.packages.len() + 1) as i32,
            name: new.name,
            description: new.description,
            repository_url: new.repository_url,
            total_downloads_count: 0,
            account_id,
            created_at: now,
            updated_at: now,
        };
        let copy = row.clone();
        let ghost before = self@;
        self.packages.push(row);
        proof {
            assert(self@.packages =~= before.packages.push(row@));
            assert(self@.versions =~= before.versions);
            lemma_create_package(before, new@, number_of(account_id), now as int);
        }
        Ok(copy)
    }

    /// Adds a version. Fails with `NotFound` where the package does not
    /// exist, with `DuplicateRevision` where the package already holds the
    /// revision, and with `StoreUnavailable` where the store is full; none
    /// of them changes the store.
    pub fn create_version(&mut self, new: NewPackageVersion, now: i64) -> (result: Result<
        PackageVersion,
        Error,
    >)
        requires
            old(self).wf(),
        ensures
            final(self).wf(),
            (final(self)@, version_result(result)) == old(self)@.create_version(new@, now as int),
    {
        if self.package(new.package_id).is_none() {
            return Err(Error::NotFound);
        }
        if self.version_id_by_rev(new.package_id, &new.rev).is_some() {
            return Err(Error::DuplicateRevision);
        }
        if self.versions.len() >= MAX_ROWS as usize {
            return Err(Error::StoreUnavailable);
        }
        let row = PackageVersion {
            id: (self.versions.len() + 1) as i32,
            package_id: new.package_id,
            version: new.version,
            readme_content: Some(new.readme_content),
            license: None,
            downloads_count: 0,
            created_at: now,
            updated_at: now,
            rev: Some(new.rev),
            total_files: Some(new.total_files),
            total_size: Some(new.total_size),
        };
        let copy = row.clone();
        let ghost before = self@;
        self.versions.push(row);
        proof {
            assert(self@.versions =~= before.versions.push(row@));
            assert(self@.packages =~= before.packages);
            lemma_create_version(before, new@, now as int);
        }
        Ok(copy)
    }

    /// Counts one download of the version with identifier `version_id` and
    /// returns its new counter. Fails with `NotFound` where there is no such
    /// version and with `StoreUnavailable` where the counter is at its
    /// limit; neither changes the store.
    pub fn increment_version_downloads(&mut self, version_id: i32) -> (result: Result<i32, Error>)
        requires
            old(self).wf(),
        ensures
            final(self).wf(),
            (final(self)@, number_result(result)) == old(self)@.increment_version_downloads(
                version_id as int,
            ),
    {
        if version_id < 1 || (version_id as usize) > self.versions.len() {
            return Err(Error::NotFound);
        }
        let at = (version_id - 1) as usize;
        let count = self.versions[at].downloads_count;
        if count >= MAX_ROWS {
            return Err(Error::StoreUnavailable);
        }
        let ghost before = self@;
        self.versions[at].downloads_count = count + 1;
        proof {
            assert(self@.versions =~= before.versions.update(
                at as int,
                RegistryView::counted_version(before.versions[at as int]),
            ));
            assert(self@.packages =~= before.packages);
        }
        Ok(count + 1)
    }

    /// Counts one download of the package with identifier `package_id` and
    /// returns its new aggregate counter. Fails with `NotFound` where there
    /// is no such package and with `StoreUnavailable` where the counter is
    /// at its limit; neither changes the store.
    pub fn increment_package_downloads(&mut self, package_id: i32) -> (result: Result<i32, Error>)
        requires
            old(self).wf(),
        ensures
            final(self).wf(),
            (final(self)@, number_result(result)) == old(self)@.increment_package_downloads(
                package_id as int,
            ),
    {
        if package_id < 1 || (package_id as usize) > self.packages.len() {
            return Err(Error::NotFound);
        }
        let at = (package_id - 1) as usize;
        let count = self.packages[at].total_downloads_count;
        if count >= MAX_ROWS {
            return Err(Error::StoreUnavailable);
        }
        let ghost before = self@;
        self.packages[at].total_downloads_count = count + 1;
        proof {
            assert(self@.packages =~= before.packages.update(
                at as int,
                RegistryView::counted_package(before.packages[at as int]),
            ));
            assert(self@.versions =~= before.versions);
        }
        Ok(count + 1)
    }
}

} // verus!
