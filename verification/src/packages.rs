//! Ingestion: registering a repository as a package and recording a
//! revision as a version, both idempotent, and the lookups beside them.

use vstd::prelude::*;
use vstd::string::*;
use crate::error::Error;
use crate::models::{
    number_of, text_of, FetchRequest, FetchRequestView, GithubRepoData, GithubRepoDataView,
    NewPackage, NewPackageVersion, NewPackageVersionView, NewPackageView, Package, PackageVersion,
    PackageVersionView, PackageView,
};
use crate::lookup::lemma_first_index;
use crate::store::{
    has_name, has_rev, lemma_create_package, lemma_create_version, number_result, package_result,
    version_result, Registry, RegistryView,
};

verus! {

/// The view of what the metadata source answered.
pub open spec fn fetched_view(fetched: Result<GithubRepoData, Error>) -> Result<
    GithubRepoDataView,
    Error,
> {
    match fetched {
        Ok(data) => Ok(data@),
        Err(e) => Err(e),
    }
}

/// What a caller supplies to register a revision of a repository.
pub struct Registration {
    pub repository_url: Seq<char>,
    pub description: Seq<char>,
    pub rev: Seq<char>,
    pub total_files: int,
    pub total_size: int,
    pub account_id: Option<int>,
}

impl RegistryView {
    /// The package that holds the fetched name, created if there is none.
    /// An existing package is returned as it is: its description, its URL
    /// and its owning account stay those of the first registration.
    pub open spec fn ensure_package(
        self,
        reg: Registration,
        data: GithubRepoDataView,
        now: int,
    ) -> (RegistryView, Result<int, Error>) {
        match self.package_id_by_name(data.name) {
            Some(id) => (self, Ok(id)),
            None => {
                let (next, created) = self.create_package(
                    NewPackageView {
                        name: data.name,
                        description: reg.description,
                        repository_url: reg.repository_url,
                    },
                    reg.account_id,
                    now,
                );
                match created {
                    Ok(row) => (next, Ok(row.id)),
                    Err(e) => (next, Err(e)),
                }
            },
        }
    }

    /// The version of package `package_id` with revision `reg.rev`, created
    /// from the fetched metadata if there is none. The revision decides
    /// whether a version exists, not the version label.
    pub open spec fn ensure_version(
        self,
        package_id: int,
        reg: Registration,
        data: GithubRepoDataView,
        now: int,
    ) -> (RegistryView, Result<int, Error>) {
        match self.version_id_by_rev(package_id, reg.rev) {
            Some(id) => (self, Ok(id)),
            None => {
                let (next, created) = self.create_version(
                    NewPackageVersionView {
                        package_id,
                        version: data.version,
                        readme_content: data.readme_content,
                        rev: reg.rev,
                        total_files: reg.total_files,
                        total_size: reg.total_size,
                    },
                    now,
                );
                match created {
                    Ok(row) => (next, Ok(row.id)),
                    Err(e) => (next, Err(e)),
                }
            },
        }
    }

    /// The package and the version that a registration ends with, as
    /// `(package id, version id)`. A failed fetch changes nothing and is
    /// reported as `FetchFailed`. A package that was created stays even
    /// where the version could not be.
    pub open spec fn materialize(
        self,
        reg: Registration,
        fetched: Result<GithubRepoDataView, Error>,
        now: int,
    ) -> (RegistryView, Result<(int, int), Error>) {
        match fetched {
            Err(_) => (self, Err(Error::FetchFailed)),
            Ok(data) => {
                let (with_package, package) = self.ensure_package(reg, data, now);
                match package {
                    Err(e) => (with_package, Err(e)),
                    Ok(package_id) => {
                        let (with_version, version) = with_package.ensure_version(
                            package_id,
                            reg,
                            data,
                            now,
                        );
                        match version {
                            Err(e) => (with_version, Err(e)),
                            Ok(version_id) => (with_version, Ok((package_id, version_id))),
                        }
                    },
                }
            },
        }
    }

    /// Registering a revision of a repository: the state afterwards and the
    /// identifier of the package.
    pub open spec fn register(
        self,
        reg: Registration,
        fetched: Result<GithubRepoDataView, Error>,
        now: int,
    ) -> (RegistryView, Result<int, Error>) {
        let (next, ids) = self.materialize(reg, fetched, now);
        match ids {
            Ok((package_id, _)) => (next, Ok(package_id)),
            Err(e) => (next, Err(e)),
        }
    }

    /// Inserting a package under a given name together with its first
    /// version, without consulting the metadata source.
    pub open spec fn insert_with_version(
        self,
        new: NewPackageView,
        account_id: Option<int>,
        version: Seq<char>,
        readme_content: Seq<char>,
        rev: Seq<char>,
        total_files: int,
        total_size: int,
        now: int,
    ) -> (RegistryView, Result<int, Error>) {
        let (with_package, created) = self.create_package(new, account_id, now);
        match created {
            Err(e) => (with_package, Err(e)),
            Ok(row) => {
                let (with_version, added) = with_package.create_version(
                    NewPackageVersionView {
                        package_id: row.id,
                        version,
                        readme_content,
                        rev,
                        total_files,
                        total_size,
                    },
                    now,
                );
                match added {
                    Ok(_) => (with_version, Ok(row.id)),
                    Err(e) => (with_version, Err(e)),
                }
            },
        }
    }
}

/// Whether `after` holds every row of `before`, unchanged and in the same
/// place.
pub open spec fn extends(before: RegistryView, after: RegistryView) -> bool {
    &&& before.packages.len() <= after.packages.len()
    &&& before.versions.len() <= after.versions.len()
    &&& forall|i: int|
        0 <= i < before.packages.len() ==> #[trigger] after.packages[i] == before.packages[i]
    &&& forall|i: int|
        0 <= i < before.versions.len() ==> #[trigger] after.versions[i] == before.versions[i]
}

/// Finding or creating a package and a version keeps the invariant, keeps
/// every row that was there, and adds at most one package and one version.
/// Where it succeeds, the package is found under the fetched name and the
/// version under that package and the revision.
pub proof fn lemma_materialize(
    s: RegistryView,
    reg: Registration,
    fetched: Result<GithubRepoDataView, Error>,
    now: int,
)
    requires
        s.wf(),
    ensures
        ({
            let (next, ids) = s.materialize(reg, fetched, now);
            &&& next.wf()
            &&& extends(s, next)
            &&& next.packages.len() <= s.packages.len() + 1
            &&& next.versions.len() <= s.versions.len() + 1
            &&& match ids {
                Ok((package_id, version_id)) => {
                    &&& fetched matches Ok(data)
                    &&& next.package_id_by_name(data.name) == Some(package_id)
                    &&& next.version_id_by_rev(package_id, reg.rev) == Some(version_id)
                    &&& 1 <= package_id <= next.packages.len()
                    &&& 1 <= version_id <= next.versions.len()
                    &&& next.versions[version_id - 1].package_id == package_id
                    &&& next.versions[version_id - 1].rev == Some(reg.rev)
                    &&& next.packages[package_id - 1].name == data.name
                    &&& (next.versions.len() > s.versions.len() ==> version_id
                        == next.versions.len() && next.versions[version_id - 1].downloads_count
                        == 0)
                    &&& (next.packages.len() > s.packages.len() ==> package_id
                        == next.packages.len() && next.versions.len() > s.versions.len()
                        && next.packages[package_id - 1].repository_url == reg.repository_url)
                },
                Err(e) => {
                    &&& next.versions == s.versions
                    &&& e == Error::FetchFailed ==> next == s
                    &&& fetched is Err ==> e == Error::FetchFailed
                    &&& e == Error::FetchFailed || e == Error::StoreUnavailable
                },
            }
        }),
{
    match fetched {
        Err(_) => {},
        Ok(data) => {
            let new = NewPackageView {
                name: data.name,
                description: reg.description,
                repository_url: reg.repository_url,
            };
            let (with_package, package) = s.ensure_package(reg, data, now);
            lemma_create_package(s, new, reg.account_id, now);
            lemma_first_index(s.packages, has_name(data.name));
            lemma_first_index(with_package.packages, has_name(data.name));
            match package {
                Err(e) => {},
                Ok(package_id) => {
                    let version = NewPackageVersionView {
                        package_id,
                        version: data.version,
                        readme_content: data.readme_content,
                        rev: reg.rev,
                        total_files: reg.total_files,
                        total_size: reg.total_size,
                    };
                    let (with_version, added) = with_package.ensure_version(
                        package_id,
                        reg,
                        data,
                        now,
                    );
                    lemma_create_version(with_package, version, now);
                    lemma_first_index(with_package.versions, has_rev(package_id, reg.rev));
                    lemma_first_index(with_version.versions, has_rev(package_id, reg.rev));
                    if s.package_id_by_name(data.name) is None {
                        // a package that is new has no version yet
                        assert(package_id == s.packages.len() + 1);
                        assert forall|k: int| 0 <= k < with_package.versions.len() implies !has_rev(
                            package_id,
                            reg.rev,
                        )(#[trigger] with_package.versions[k]) by {
                            assert(s.versions[k].package_id <= s.packages.len());
                        }
                        crate::lookup::lemma_first_index_absent(
                            with_package.versions,
                            has_rev(package_id, reg.rev),
                        );
                    }
                },
            }
        },
    }
}

/// Registering is idempotent: once a revision of a repository is
/// registered, registering that revision again under the same fetched name
/// returns the same package and changes nothing, whoever asks and whatever
/// description, address or version label the second call brings.
pub proof fn lemma_register_idempotent(
    s: RegistryView,
    reg: Registration,
    data: GithubRepoDataView,
    now: int,
    again: Registration,
    data_again: GithubRepoDataView,
    later: int,
)
    requires
        s.wf(),
        s.register(reg, Ok(data), now).1 is Ok,
        again.rev == reg.rev,
        data_again.name == data.name,
    ensures
        s.register(reg, Ok(data), now).0.register(again, Ok(data_again), later) == s.register(
            reg,
            Ok(data),
            now,
        ),
        s.register(reg, Ok(data), now).0.wf(),
{
    lemma_materialize(s, reg, Ok(data), now);
}

/// The view of a result that carries a pair of identifiers.
pub open spec fn pair_result(result: Result<(i32, i32), Error>) -> Result<(int, int), Error> {
    match result {
        Ok((a, b)) => Ok((a as int, b as int)),
        Err(e) => Err(e),
    }
}

impl Package {
    /// What to ask the metadata source for before registering
    /// `repository_url`: the repository as it stands, in `subdir` if one is
    /// given.
    pub fn fetch_request(repository_url: &String, subdir: Option<String>) -> (request: FetchRequest)
        ensures
            request@ == (FetchRequestView {
                repository_url: repository_url@,
                rev: None,
                subdir: text_of(subdir),
            }),
    {
        FetchRequest { repository_url: repository_url.clone(), rev: None, subdir }
    }

    /// Finds or creates the package named by the fetched metadata and its
    /// version with revision `rev`, and returns both identifiers.
    pub fn materialize(
        repository_url: &String,
        description: &String,
        rev: &String,
        total_files: i32,
        total_size: i32,
        account_id: Option<i32>,
        fetched: Result<GithubRepoData, Error>,
        now: i64,
        store: &mut Registry,
    ) -> (result: Result<(i32, i32), Error>)
        requires
            old(store).wf(),
        ensures
            final(store).wf(),
            (final(store)@, pair_result(result)) == old(store)@.materialize(
                Registration {
                    repository_url: repository_url@,
                    description: description@,
                    rev: rev@,
                    total_files: total_files as int,
                    total_size: total_size as int,
                    account_id: number_of(account_id),
                },
                fetched_view(fetched),
                now as int,
            ),
    {
        let data = match fetched {
            Ok(data) => data,
            Err(_) => {
                return Err(Error::FetchFailed);
            },
        };
        let package_id = match store.package_id_by_name(&data.name) {
            Some(id) => id,
            None => {
                let new = NewPackage {
                    name: data.name,
                    description: description.clone(),
                    repository_url: repository_url.clone(),
                };
                match store.create_package(new, account_id, now) {
                    Ok(row) => row.id,
                    Err(e) => {
                        return Err(e);
                    },
                }
            },
        };
        let version_id = match store.version_id_by_rev(package_id, rev) {
            Some(id) => id,
            None => {
                let new = NewPackageVersion {
                    package_id,
                    version: data.version,
                    readme_content: data.readme_content,
                    rev: rev.clone(),
                    total_files,
                    total_size,
                };
                match store.create_version(new, now) {
                    Ok(row) => row.id,
                    Err(e) => {
                        return Err(e);
                    },
                }
            },
        };
        Ok((package_id, version_id))
    }

    /// Registers revision `version_rev` of the repository at `repo_url`,
    /// given what the metadata source answered, and returns the package's
    /// identifier.
    ///
    /// The package is the one that bears the fetched name; it is created
    /// with `package_description`, `repo_url` and `account_id` if there is
    /// none, and left as it is otherwise. A version is created only if the
    /// package holds none with revision `version_rev`. Fails with
    /// `FetchFailed` where the fetch failed and with `StoreUnavailable`
    /// where a store is full.
    pub fn create(
        repo_url: &String,
        package_description: &String,
        version_rev: &String,
        version_files: i32,
        version_size: i32,
        account_id: Option<i32>,
        fetched: Result<GithubRepoData, Error>,
        now: i64,
        store: &mut Registry,
    ) -> (result: Result<i32, Error>)
        requires
            old(store).wf(),
        ensures
            final(store).wf(),
            (final(store)@, number_result(result)) == old(store)@.register(
                Registration {
                    repository_url: repo_url@,
                    description: package_description@,
                    rev: version_rev@,
                    total_files: version_files as int,
                    total_size: version_size as int,
                    account_id: number_of(account_id),
                },
                fetched_view(fetched),
                now as int,
            ),
    {
        match Package::materialize(
            repo_url,
            package_description,
            version_rev,
            version_files,
            version_size,
            account_id,
            fetched,
            now,
            store,
        ) {
            Ok((package_id, _)) => Ok(package_id),
            Err(e) => Err(e),
        }
    }

    /// The package with identifier `uid`, or `NotFound`.
    pub fn get(uid: i32, store: &Registry) -> (result: Result<Package, Error>)
        ensures
            package_result(result) == match store@.package(uid as int) {
                Some(row) => Ok::<PackageView, Error>(row),
                None => Err(Error::NotFound),
            },
    {
        match store.package(uid) {
            Some(row) => Ok(row.clone()),
            None => Err(Error::NotFound),
        }
    }

    /// The package named `package_name`, or `NotFound`.
    pub fn get_by_name(package_name: &String, store: &Registry) -> (result: Result<Package, Error>)
        requires
            store.wf(),
        ensures
            package_result(result) == match store@.package_id_by_name(package_name@) {
                Some(id) => Ok::<PackageView, Error>(store@.packages[id - 1]),
                None => Err(Error::NotFound),
            },
            result matches Ok(row) ==> row@.name == package_name@,
    {
        proof {
            crate::lookup::lemma_first_index(store@.packages, crate::store::has_name(package_name@));
        }
        match store.package_id_by_name(package_name) {
            Some(id) => match store.package(id) {
                Some(row) => Ok(row.clone()),
                None => Err(Error::NotFound),
            },
            None => Err(Error::NotFound),
        }
    }

    /// The version of this package that carries revision `rev`, or
    /// `NotFound`.
    pub fn get_version(&self, rev: &String, store: &Registry) -> (result: Result<
        PackageVersion,
        Error,
    >)
        requires
            store.wf(),
        ensures
            version_result(result) == match store@.version_id_by_rev(self.id as int, rev@) {
                Some(id) => Ok::<PackageVersionView, Error>(store@.versions[id - 1]),
                None => Err(Error::NotFound),
            },
            result matches Ok(row) ==> row@.package_id == self.id && row@.rev == Some(rev@),
    {
        proof {
            crate::lookup::lemma_first_index(
                store@.versions,
                crate::store::has_rev(self.id as int, rev@),
            );
        }
        match store.version_id_by_rev(self.id, rev) {
            Some(id) => match store.version(id) {
                Some(row) => Ok(row.clone()),
                None => Err(Error::NotFound),
            },
            None => Err(Error::NotFound),
        }
    }

    /// The number of packages in the store.
    pub fn count(store: &Registry) -> (n: i64)
        requires
            store.wf(),
        ensures
            n == store@.packages.len(),
    {
        store.package_count() as i64
    }

    /// Inserts a package under `package_name` with one version, without
    /// consulting the metadata source, and returns the package's identifier.
    /// Fails with `DuplicateName` where the name is taken and with
    /// `StoreUnavailable` where a store is full.
    pub fn create_test_package(
        package_name: &String,
        repo_url: &String,
        package_description: &String,
        package_version: &String,
        package_readme_content: &String,
        version_rev: &String,
        version_files: i32,
        version_size: i32,
        account_id: Option<i32>,
        now: i64,
        store: &mut Registry,
    ) -> (result: Result<i32, Error>)
        requires
            old(store).wf(),
        ensures
            final(store).wf(),
            (final(store)@, number_result(result)) == old(store)@.insert_with_version(
                NewPackageView {
                    name: package_name@,
                    description: package_description@,
                    repository_url: repo_url@,
                },
                number_of(account_id),
                package_version@,
                package_readme_content@,
                version_rev@,
                version_files as int,
                version_size as int,
                now as int,
            ),
    {
        let new = NewPackage {
            name: package_name.clone(),
            description: package_description.clone(),
            repository_url: repo_url.clone(),
        };
        let row = match store.create_package(new, account_id, now) {
            Ok(row) => row,
            Err(e) => {
                return Err(e);
            },
        };
        let first = NewPackageVersion {
            package_id: row.id,
            version: package_version.clone(),
            readme_content: package_readme_content.clone(),
            rev: version_rev.clone(),
            total_files: version_files,
            total_size: version_size,
        };
        match store.create_version(first, now) {
            Ok(_) => Ok(row.id),
            Err(e) => Err(e),
        }
    }
}

impl PackageVersion {
    /// Adds a version to package `version_package_id`. Fails with
    /// `NotFound` where the package does not exist, with `DuplicateRevision`
    /// where it already holds `version_rev`, and with `StoreUnavailable`
    /// where the store is full.
    pub fn create(
        version_package_id: i32,
        version_name: String,
        version_readme_content: String,
        version_rev: String,
        version_files: i32,
        version_size: i32,
        now: i64,
        store: &mut Registry,
    ) -> (result: Result<PackageVersion, Error>)
        requires
            old(store).wf(),
        ensures
            final(store).wf(),
            (final(store)@, version_result(result)) == old(store)@.create_version(
                NewPackageVersionView {
                    package_id: version_package_id as int,
                    version: version_name@,
                    readme_content: version_readme_content@,
                    rev: version_rev@,
                    total_files: version_files as int,
                    total_size: version_size as int,
                },
                now as int,
            ),
    {
        let new = NewPackageVersion {
            package_id: version_package_id,
            version: version_name,
            readme_content: version_readme_content,
            rev: version_rev,
            total_files: version_files,
            total_size: version_size,
        };
        store.create_version(new, now)
    }

    /// The number of versions in the store, over all packages.
    pub fn count(store: &Registry) -> (n: i64)
        requires
            store.wf(),
        ensures
            n == store@.versions.len(),
    {
        store.version_count() as i64
    }
}

} // verus!
