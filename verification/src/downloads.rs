//! Download attribution: finding the version that a download of
//! `(address, revision)` belongs to, creating it from fetched metadata where
//! it is missing, and counting the download on the version and on its
//! package.

use vstd::prelude::*;
use vstd::string::*;
use crate::error::Error;
use crate::lookup::{
    first_index, lemma_first_index, lemma_first_index_absent, lemma_first_index_agree,
    lemma_first_index_found,
};
use crate::models::{
    FetchRequest, FetchRequestView, GithubRepoData, GithubRepoDataView, NewPackageView, Package,
    PackageVersionView,
};
use crate::packages::{fetched_view, lemma_materialize, Registration};
use crate::repo_url::{canonical_key, canonicalize, same_repository};
use crate::store::{
    id_of, lemma_create_package, lemma_increment_package, lemma_increment_version,
    lemma_lookups_ignore_counters, number_result, same_but_counters, Registry, RegistryView,
    MAX_ROWS,
};

verus! {

/// What a download request led to.
#[derive(Debug)]
pub enum DownloadOutcome {
    /// The download was counted; this is the version's new counter.
    Counted(i32),
    /// No version matches: the metadata source has to be asked first.
    FetchNeeded(FetchRequest),
}

/// What a [`DownloadOutcome`] is, mathematically.
pub enum DownloadOutcomeView {
    Counted(int),
    FetchNeeded(FetchRequestView),
}

impl View for DownloadOutcome {
    type V = DownloadOutcomeView;

    open spec fn view(&self) -> DownloadOutcomeView {
        match self {
            DownloadOutcome::Counted(n) => DownloadOutcomeView::Counted(*n as int),
            DownloadOutcome::FetchNeeded(request) => DownloadOutcomeView::FetchNeeded(request@),
        }
    }
}

/// The view of a result that carries a download outcome.
pub open spec fn outcome_result(result: Result<DownloadOutcome, Error>) -> Result<
    DownloadOutcomeView,
    Error,
> {
    match result {
        Ok(outcome) => Ok(outcome@),
        Err(e) => Err(e),
    }
}

/// The subdirectory of a request: none where the text is empty.
pub open spec fn subdir_of(subdir: Seq<char>) -> Option<Seq<char>> {
    if subdir.len() == 0 {
        None
    } else {
        Some(subdir)
    }
}

/// What a download asks the metadata source for: the address as the caller
/// wrote it, the revision, and the subdirectory if one was named.
pub open spec fn download_fetch_request(url: Seq<char>, rev: Seq<char>, subdir: Seq<char>)
    -> FetchRequestView {
    FetchRequestView { repository_url: url, rev: Some(rev), subdir: subdir_of(subdir) }
}

/// The registration that a download of an unknown revision amounts to: the
/// description and the size are those the metadata source reported, no
/// files are counted, and no account owns the package.
pub open spec fn download_registration(url: Seq<char>, rev: Seq<char>, data: GithubRepoDataView)
    -> Registration {
    Registration {
        repository_url: url,
        description: data.description,
        rev,
        total_files: 0,
        total_size: data.size,
        account_id: None,
    }
}

impl RegistryView {
    /// The condition on versions "carries revision `rev` and belongs to a
    /// package whose address has the key `key`".
    pub open spec fn is_download_target(self, key: Seq<char>, rev: Seq<char>) -> spec_fn(
        PackageVersionView,
    ) -> bool {
        |v: PackageVersionView|
            v.rev == Some(rev) && 1 <= v.package_id <= self.packages.len() && canonical_key(
                self.packages[v.package_id - 1].repository_url,
            ) == key
    }

    /// The identifier of the version that a download of `(url, rev)` is
    /// attributed to: the oldest version with that revision whose package
    /// was registered under an address with the same key as `url`.
    pub open spec fn download_target(self, url: Seq<char>, rev: Seq<char>) -> Option<int> {
        match first_index(self.versions, self.is_download_target(canonical_key(url), rev)) {
            Some(i) => Some(i + 1),
            None => None,
        }
    }

    /// Counting a download of version `version_id`: its counter rises by
    /// one, and so does the aggregate counter of its package. A version
    /// counter at its limit refuses the download with `StoreUnavailable`; an
    /// aggregate counter at its limit stays where it is and the download is
    /// counted on the version all the same.
    pub open spec fn count_download(self, version_id: int) -> (RegistryView, Result<int, Error>) {
        let (counted, result) = self.increment_version_downloads(version_id);
        match result {
            Err(e) => (self, Err(e)),
            Ok(n) => (
                counted.increment_package_downloads(self.versions[version_id - 1].package_id).0,
                Ok(n),
            ),
        }
    }

    /// A download request before any fetch: counted where a version
    /// matches, and otherwise answered with what to fetch, the stores
    /// unchanged.
    pub open spec fn request_download(self, url: Seq<char>, rev: Seq<char>, subdir: Seq<char>) -> (
        RegistryView,
        Result<DownloadOutcomeView, Error>,
    ) {
        match self.download_target(url, rev) {
            Some(version_id) => {
                let (next, counted) = self.count_download(version_id);
                match counted {
                    Ok(n) => (next, Ok(DownloadOutcomeView::Counted(n))),
                    Err(e) => (next, Err(e)),
                }
            },
            None => (
                self,
                Ok(DownloadOutcomeView::FetchNeeded(download_fetch_request(url, rev, subdir))),
            ),
        }
    }

    /// A download request after the fetch: the package and the version are
    /// found or created from the fetched metadata, then the download is
    /// counted. A failed fetch changes nothing and is reported as
    /// `FetchFailed`.
    pub open spec fn complete_download(
        self,
        url: Seq<char>,
        rev: Seq<char>,
        fetched: Result<GithubRepoDataView, Error>,
        now: int,
    ) -> (RegistryView, Result<int, Error>) {
        match fetched {
            Err(_) => (self, Err(Error::FetchFailed)),
            Ok(data) => {
                let (next, ids) = self.materialize(
                    download_registration(url, rev, data),
                    fetched,
                    now,
                );
                match ids {
                    Err(e) => (next, Err(e)),
                    Ok((_, version_id)) => next.count_download(version_id),
                }
            },
        }
    }

    /// A download of `(url, rev)` from request to count: counted at once
    /// where a version matches; otherwise completed with what the metadata
    /// source answered.
    pub open spec fn record_download(
        self,
        url: Seq<char>,
        rev: Seq<char>,
        fetched: Result<GithubRepoDataView, Error>,
        now: int,
    ) -> (RegistryView, Result<int, Error>) {
        match self.download_target(url, rev) {
            Some(version_id) => self.count_download(version_id),
            None => self.complete_download(url, rev, fetched, now),
        }
    }
}

/// Counting a download keeps the invariant and changes nothing but
/// counters. Where it succeeds, the version's counter has risen by one and
/// is the count returned, every other version is as it was, and the
/// aggregate counter of the version's package has risen by one unless it
/// stood at its limit.
pub proof fn lemma_count_download(s: RegistryView, version_id: int)
    requires
        s.wf(),
    ensures
        ({
            let (next, result) = s.count_download(version_id);
            &&& next.wf()
            &&& same_but_counters(s, next)
            &&& match result {
                Ok(n) => {
                    let package_id = s.versions[version_id - 1].package_id;
                    &&& 1 <= version_id <= s.versions.len()
                    &&& n == s.versions[version_id - 1].downloads_count + 1
                    &&& next.versions == s.versions.update(
                        version_id - 1,
                        RegistryView::counted_version(s.versions[version_id - 1]),
                    )
                    &&& next.packages[package_id - 1].total_downloads_count == if s.packages[package_id
                        - 1].total_downloads_count < MAX_ROWS {
                        s.packages[package_id - 1].total_downloads_count + 1
                    } else {
                        MAX_ROWS as int
                    }
                    &&& forall|i: int|
                        0 <= i < s.packages.len() && i != package_id - 1
                            ==> #[trigger] next.packages[i] == s.packages[i]
                },
                Err(e) => next == s && (e == Error::NotFound || e == Error::StoreUnavailable),
            }
        }),
{
    let (counted, result) = s.increment_version_downloads(version_id);
    lemma_increment_version(s, version_id);
    if result is Ok {
        lemma_increment_package(counted, s.versions[version_id - 1].package_id);
    }
}

/// Counters play no part in finding the version a download belongs to.
pub proof fn lemma_target_ignores_counters(
    before: RegistryView,
    after: RegistryView,
    url: Seq<char>,
    rev: Seq<char>,
)
    requires
        same_but_counters(before, after),
    ensures
        after.download_target(url, rev) == before.download_target(url, rev),
{
    let key = canonical_key(url);
    assert forall|k: int| 0 <= k < before.versions.len() implies before.is_download_target(
        key,
        rev,
    )(#[trigger] before.versions[k]) == after.is_download_target(key, rev)(after.versions[k]) by {
        let v = before.versions[k];
        if 1 <= v.package_id <= before.packages.len() {
            assert(after.packages[v.package_id - 1].repository_url == before.packages[v.package_id
                - 1].repository_url);
        }
    }
    lemma_first_index_agree(
        before.versions,
        before.is_download_target(key, rev),
        after.versions,
        after.is_download_target(key, rev),
    );
}

/// Downloads are attributed by repository, not by the way its address is
/// written: two addresses of one repository lead to the same version, and
/// where that version exists a download under either address has the same
/// effect and the same result.
pub proof fn lemma_download_by_any_address(
    s: RegistryView,
    url: Seq<char>,
    other_url: Seq<char>,
    rev: Seq<char>,
    fetched: Result<GithubRepoDataView, Error>,
    now: int,
)
    requires
        same_repository(url, other_url),
    ensures
        s.download_target(url, rev) == s.download_target(other_url, rev),
        s.download_target(url, rev) is Some ==> s.record_download(url, rev, fetched, now)
            == s.record_download(other_url, rev, fetched, now),
{
}

/// The stores after `n` downloads of `(url, rev)` in a row, each completed
/// with the same answer of the metadata source where one is needed.
pub open spec fn after_downloads(
    s: RegistryView,
    url: Seq<char>,
    rev: Seq<char>,
    fetched: Result<GithubRepoDataView, Error>,
    now: int,
    n: nat,
) -> RegistryView
    decreases n,
{
    if n == 0 {
        s
    } else {
        after_downloads(s, url, rev, fetched, now, (n - 1) as nat).record_download(
            url,
            rev,
            fetched,
            now,
        ).0
    }
}

/// What the `n`-th of `n` downloads of `(url, rev)` in a row returns.
pub open spec fn nth_download(
    s: RegistryView,
    url: Seq<char>,
    rev: Seq<char>,
    fetched: Result<GithubRepoDataView, Error>,
    now: int,
    n: nat,
) -> Result<int, Error>
    recommends
        n >= 1,
{
    after_downloads(s, url, rev, fetched, now, (n - 1) as nat).record_download(
        url,
        rev,
        fetched,
        now,
    ).1
}

/// Recording a download keeps the invariant.
pub proof fn lemma_download_keeps_invariant(
    s: RegistryView,
    url: Seq<char>,
    rev: Seq<char>,
    fetched: Result<GithubRepoDataView, Error>,
    now: int,
)
    requires
        s.wf(),
    ensures
        s.record_download(url, rev, fetched, now).0.wf(),
        s.complete_download(url, rev, fetched, now).0.wf(),
        forall|subdir: Seq<char>| (#[trigger] s.request_download(url, rev, subdir)).0.wf(),
{
    match s.download_target(url, rev) {
        Some(version_id) => {
            lemma_count_download(s, version_id);
        },
        None => {},
    }
    match fetched {
        Err(_) => {},
        Ok(data) => {
            let reg = download_registration(url, rev, data);
            lemma_materialize(s, reg, fetched, now);
            let (next, ids) = s.materialize(reg, fetched, now);
            match ids {
                Ok((_, version_id)) => {
                    lemma_count_download(next, version_id);
                },
                Err(_) => {},
            }
        },
    }
}

/// A download that follows a counted download of the same address and
/// revision is counted on the same version: it returns the next number.
/// Nothing is reset and no call is dropped as a repeat.
pub proof fn lemma_next_download_counts_up(
    s: RegistryView,
    url: Seq<char>,
    rev: Seq<char>,
    fetched: Result<GithubRepoDataView, Error>,
    now: int,
    later: int,
)
    requires
        s.wf(),
        s.record_download(url, rev, fetched, now).1 is Ok,
        s.record_download(url, rev, fetched, now).1->Ok_0 < MAX_ROWS,
    ensures
        s.record_download(url, rev, fetched, now).0.record_download(url, rev, fetched, later).1
            == Ok::<int, Error>(s.record_download(url, rev, fetched, now).1->Ok_0 + 1),
{
    let (next, result) = s.record_download(url, rev, fetched, now);
    let count = result->Ok_0;
    lemma_download_keeps_invariant(s, url, rev, fetched, now);
    match s.download_target(url, rev) {
        Some(version_id) => {
            lemma_count_download(s, version_id);
            lemma_target_ignores_counters(s, next, url, rev);
            lemma_count_download(next, version_id);
        },
        None => {
            let data = fetched->Ok_0;
            let reg = download_registration(url, rev, data);
            let (made, ids) = s.materialize(reg, fetched, now);
            lemma_materialize(s, reg, fetched, now);
            let package_id = ids->Ok_0.0;
            let version_id = ids->Ok_0.1;
            lemma_count_download(made, version_id);
            lemma_target_ignores_counters(made, next, url, rev);
            lemma_count_download(next, version_id);
            match made.download_target(url, rev) {
                Some(found) => {
                    // only a version that was created just now can match
                    let key = canonical_key(url);
                    lemma_first_index(s.versions, s.is_download_target(key, rev));
                    lemma_first_index(made.versions, made.is_download_target(key, rev));
                    if found - 1 < s.versions.len() {
                        let v = s.versions[found - 1];
                        assert(made.versions[found - 1] == v);
                        assert(made.packages[v.package_id - 1] == s.packages[v.package_id - 1]);
                        assert(!s.is_download_target(key, rev)(v));
                    }
                    assert(found == version_id);
                },
                None => {
                    lemma_lookups_ignore_counters(made, next, data.name, package_id, rev);
                    assert(next.materialize(reg, fetched, later) == (
                        next,
                        Ok::<(int, int), Error>((package_id, version_id)),
                    ));
                },
            }
        },
    }
}

/// Downloads count up: when the first of `n` downloads of one address and
/// revision in a row returns `count`, the `n`-th returns `count + n - 1`,
/// as long as the counter stays within its range.
pub proof fn lemma_downloads_count_up(
    s: RegistryView,
    url: Seq<char>,
    rev: Seq<char>,
    fetched: Result<GithubRepoDataView, Error>,
    now: int,
    n: nat,
)
    requires
        s.wf(),
        n >= 1,
        nth_download(s, url, rev, fetched, now, 1) is Ok,
        nth_download(s, url, rev, fetched, now, 1)->Ok_0 + n - 1 <= MAX_ROWS,
    ensures
        after_downloads(s, url, rev, fetched, now, n).wf(),
        nth_download(s, url, rev, fetched, now, n) == Ok::<int, Error>(
            nth_download(s, url, rev, fetched, now, 1)->Ok_0 + n - 1,
        ),
    decreases n,
{
    reveal_with_fuel(after_downloads, 2);
    if n == 1 {
        lemma_download_keeps_invariant(s, url, rev, fetched, now);
    } else {
        lemma_downloads_count_up(s, url, rev, fetched, now, (n - 1) as nat);
        let before = after_downloads(s, url, rev, fetched, now, (n - 2) as nat);
        assert(after_downloads(s, url, rev, fetched, now, (n - 1) as nat) == before.record_download(
            url,
            rev,
            fetched,
            now,
        ).0);
        lemma_downloads_keep_invariant(s, url, rev, fetched, now, (n - 2) as nat);
        lemma_next_download_counts_up(before, url, rev, fetched, now, now);
        lemma_download_keeps_invariant(
            after_downloads(s, url, rev, fetched, now, (n - 1) as nat),
            url,
            rev,
            fetched,
            now,
        );
    }
}

/// Any number of downloads in a row keeps the invariant.
pub proof fn lemma_downloads_keep_invariant(
    s: RegistryView,
    url: Seq<char>,
    rev: Seq<char>,
    fetched: Result<GithubRepoDataView, Error>,
    now: int,
    n: nat,
)
    requires
        s.wf(),
    ensures
        after_downloads(s, url, rev, fetched, now, n).wf(),
    decreases n,
{
    if n > 0 {
        lemma_downloads_keep_invariant(s, url, rev, fetched, now, (n - 1) as nat);
        lemma_download_keeps_invariant(
            after_downloads(s, url, rev, fetched, now, (n - 1) as nat),
            url,
            rev,
            fetched,
            now,
        );
    }
}

/// The first download of a revision that no version carries creates the
/// version and returns one; with [`lemma_downloads_count_up`], the `n`-th
/// download of it in a row returns `n`.
pub proof fn lemma_first_download_of_new_revision(
    s: RegistryView,
    url: Seq<char>,
    rev: Seq<char>,
    fetched: Result<GithubRepoDataView, Error>,
    now: int,
)
    requires
        s.wf(),
        forall|i: int| 0 <= i < s.versions.len() ==> (#[trigger] s.versions[i]).rev != Some(rev),
        s.record_download(url, rev, fetched, now).1 is Ok,
    ensures
        s.record_download(url, rev, fetched, now).1 == Ok::<int, Error>(1),
        s.record_download(url, rev, fetched, now).0.versions.len() == s.versions.len() + 1,
{
    let key = canonical_key(url);
    assert forall|k: int| 0 <= k < s.versions.len() implies !s.is_download_target(key, rev)(
        #[trigger] s.versions[k],
    ) by {}
    lemma_first_index_absent(s.versions, s.is_download_target(key, rev));
    let data = fetched->Ok_0;
    let reg = download_registration(url, rev, data);
    let (made, ids) = s.materialize(reg, fetched, now);
    lemma_materialize(s, reg, fetched, now);
    let version_id = ids->Ok_0.1;
    lemma_count_download(made, version_id);
    if made.versions.len() == s.versions.len() {
        assert(made.versions[version_id - 1] == s.versions[version_id - 1]);
    }
}

/// The downloads counted on the versions of package `package_id`, all
/// versions together.
pub open spec fn version_downloads(versions: Seq<PackageVersionView>, package_id: int) -> int
    decreases versions.len(),
{
    if versions.len() == 0 {
        0
    } else {
        version_downloads(versions.drop_last(), package_id) + if versions.last().package_id
            == package_id {
            versions.last().downloads_count
        } else {
            0
        }
    }
}

impl RegistryView {
    /// Whether the aggregate counter of every package is the sum of the
    /// counters of its versions.
    pub open spec fn aggregates_agree(self) -> bool {
        forall|i: int|
            0 <= i < self.packages.len() ==> (#[trigger] self.packages[i]).total_downloads_count
                == version_downloads(self.versions, i + 1)
    }
}

/// Raising the counter of one version by one raises the sum of its package
/// by one and leaves the sums of the other packages alone.
pub proof fn lemma_version_downloads_counted(
    versions: Seq<PackageVersionView>,
    at: int,
    package_id: int,
)
    requires
        0 <= at < versions.len(),
    ensures
        version_downloads(
            versions.update(at, RegistryView::counted_version(versions[at])),
            package_id,
        ) == version_downloads(versions, package_id) + if versions[at].package_id == package_id {
            1int
        } else {
            0int
        },
    decreases versions.len(),
{
    let counted = versions.update(at, RegistryView::counted_version(versions[at]));
    if at == versions.len() - 1 {
        assert(counted.drop_last() =~= versions.drop_last());
    } else {
        lemma_version_downloads_counted(versions.drop_last(), at, package_id);
        assert(counted.drop_last() =~= versions.drop_last().update(
            at,
            RegistryView::counted_version(versions[at]),
        ));
    }
}

/// No downloads are counted for a package that no version belongs to.
pub proof fn lemma_version_downloads_none(versions: Seq<PackageVersionView>, package_id: int)
    requires
        forall|i: int| 0 <= i < versions.len() ==> (#[trigger] versions[i]).package_id != package_id,
    ensures
        version_downloads(versions, package_id) == 0,
    decreases versions.len(),
{
    if versions.len() > 0 {
        assert forall|i: int| 0 <= i < versions.drop_last().len() implies (
        #[trigger] versions.drop_last()[i]).package_id != package_id by {
            assert(versions.drop_last()[i] == versions[i]);
        }
        lemma_version_downloads_none(versions.drop_last(), package_id);
    }
}

/// Finding or creating a package and a version leaves every aggregate
/// counter equal to the sum of its versions' counters.
pub proof fn lemma_materialize_keeps_aggregates(
    s: RegistryView,
    reg: Registration,
    fetched: Result<GithubRepoDataView, Error>,
    now: int,
)
    requires
        s.wf(),
        s.aggregates_agree(),
    ensures
        s.materialize(reg, fetched, now).0.aggregates_agree(),
        s.register(reg, fetched, now).0.aggregates_agree(),
{
    let (next, ids) = s.materialize(reg, fetched, now);
    lemma_materialize(s, reg, fetched, now);
    // a version that was added has counted nothing yet
    assert forall|package_id: int|
        version_downloads(next.versions, package_id) == version_downloads(
            s.versions,
            package_id,
        ) by {
        if next.versions.len() > s.versions.len() {
            assert(next.versions.drop_last() =~= s.versions);
        } else {
            assert(next.versions =~= s.versions);
        }
    }
    assert forall|i: int| 0 <= i < next.packages.len() implies (
    #[trigger] next.packages[i]).total_downloads_count == version_downloads(
        next.versions,
        i + 1,
    ) by {
        if i >= s.packages.len() {
            // the package is new: every earlier version belongs to another
            assert forall|k: int| 0 <= k < s.versions.len() implies (
            #[trigger] s.versions[k]).package_id != i + 1 by {}
            lemma_version_downloads_none(s.versions, i + 1);
            match fetched {
                Ok(data) => {
                    lemma_create_package(
                        s,
                        NewPackageView {
                            name: data.name,
                            description: reg.description,
                            repository_url: reg.repository_url,
                        },
                        reg.account_id,
                        now,
                    );
                },
                Err(_) => {},
            }
        } else {
            assert(next.packages[i] == s.packages[i]);
        }
    }
}

/// A counted download leaves every aggregate counter equal to the sum of
/// its versions' counters, as long as the aggregate counter of the
/// version's package is below its limit.
pub proof fn lemma_count_download_keeps_aggregates(s: RegistryView, version_id: int)
    requires
        s.wf(),
        s.aggregates_agree(),
        s.count_download(version_id).1 is Ok,
        s.packages[s.versions[version_id - 1].package_id - 1].total_downloads_count < MAX_ROWS,
    ensures
        s.count_download(version_id).0.aggregates_agree(),
{
    let (next, result) = s.count_download(version_id);
    lemma_count_download(s, version_id);
    assert forall|i: int| 0 <= i < next.packages.len() implies (
    #[trigger] next.packages[i]).total_downloads_count == version_downloads(
        next.versions,
        i + 1,
    ) by {
        lemma_version_downloads_counted(s.versions, version_id - 1, i + 1);
        if i != s.versions[version_id - 1].package_id - 1 {
            assert(next.packages[i] == s.packages[i]);
        }
    }
}

/// The aggregate counter of a package is the sum of the downloads counted
/// on its versions, and a recorded download keeps it so: it adds one to
/// the version and one to the package. This holds as long as no aggregate
/// counter stands at its limit.
pub proof fn lemma_record_download_keeps_aggregates(
    s: RegistryView,
    url: Seq<char>,
    rev: Seq<char>,
    fetched: Result<GithubRepoDataView, Error>,
    now: int,
)
    requires
        s.wf(),
        s.aggregates_agree(),
        forall|i: int|
            0 <= i < s.packages.len() ==> (#[trigger] s.packages[i]).total_downloads_count
                < MAX_ROWS,
    ensures
        s.record_download(url, rev, fetched, now).0.aggregates_agree(),
{
    match s.download_target(url, rev) {
        Some(version_id) => {
            lemma_count_download(s, version_id);
            if s.count_download(version_id).1 is Ok {
                lemma_count_download_keeps_aggregates(s, version_id);
            }
        },
        None => {
            match fetched {
                Err(_) => {},
                Ok(data) => {
                    let reg = download_registration(url, rev, data);
                    let (made, ids) = s.materialize(reg, fetched, now);
                    lemma_materialize(s, reg, fetched, now);
                    lemma_materialize_keeps_aggregates(s, reg, fetched, now);
                    match ids {
                        Ok((_, version_id)) => {
                            lemma_count_download(made, version_id);
                            let owner = made.versions[version_id - 1].package_id;
                            if owner - 1 >= s.packages.len() {
                                lemma_create_package(
                                    s,
                                    NewPackageView {
                                        name: data.name,
                                        description: reg.description,
                                        repository_url: reg.repository_url,
                                    },
                                    reg.account_id,
                                    now,
                                );
                            } else {
                                assert(made.packages[owner - 1] == s.packages[owner - 1]);
                            }
                            if made.count_download(version_id).1 is Ok {
                                lemma_count_download_keeps_aggregates(made, version_id);
                            }
                        },
                        Err(_) => {},
                    }
                },
            }
        },
    }
}

impl Registry {
    /// The identifier of the version that a download of `(url, rev)` is
    /// attributed to.
    pub fn download_target(&self, url: &String, rev: &String) -> (id: Option<i32>)
        requires
            self.wf(),
        ensures
            id_of(id) == self@.download_target(url@, rev@),
    {
        let key = canonicalize(url.as_str());
        let ghost wanted = self@.is_download_target(canonical_key(url@), rev@);
        let total = self.version_count();
        let mut i: usize = 0;
        while i < total
            invariant
                self.wf(),
                total == self@.versions.len(),
                i <= total,
                key@ == canonical_key(url@),
                wanted == self@.is_download_target(canonical_key(url@), rev@),
                forall|k: int| 0 <= k < i ==> !wanted(#[trigger] self@.versions[k]),
            decreases total - i,
        {
            let row = self.version_at(i);
            let same_rev = match &row.rev {
                Some(r) => *r == *rev,
                None => false,
            };
            if same_rev {
                let owner = self.package_at((row.package_id - 1) as usize);
                if canonicalize(owner.repository_url.as_str()).matches(&key) {
                    proof {
                        lemma_first_index_found(self@.versions, wanted, i as int);
                    }
                    return Some((i + 1) as i32);
                }
            }
            i += 1;
        }
        proof {
            lemma_first_index_absent(self@.versions, wanted);
        }
        None
    }

    /// Counts a download of version `version_id` on the version and on its
    /// package, and returns the version's new counter. Fails with
    /// `NotFound` where there is no such version and with
    /// `StoreUnavailable` where the version's counter is at its limit;
    /// neither changes the store.
    pub fn count_download(&mut self, version_id: i32) -> (result: Result<i32, Error>)
        requires
            old(self).wf(),
        ensures
            final(self).wf(),
            (final(self)@, number_result(result)) == old(self)@.count_download(version_id as int),
    {
        let package_id = match self.version(version_id) {
            Some(row) => row.package_id,
            None => {
                return Err(Error::NotFound);
            },
        };
        match self.increment_version_downloads(version_id) {
            Err(e) => Err(e),
            Ok(count) => {
                let _ = self.increment_package_downloads(package_id);
                Ok(count)
            },
        }
    }
}

impl Package {
    /// Takes a download of revision `rev_` of the repository at `url`.
    ///
    /// Where a version with that revision exists under a package whose
    /// address has the same key as `url`, the download is counted on the
    /// version and on the package, and the version's new counter is
    /// returned. Otherwise the stores stay as they are and the answer says
    /// what to fetch; hand the fetched metadata to
    /// [`Package::complete_download`]. Fails with `StoreUnavailable` where
    /// the version's counter is at its limit.
    pub fn increase_download_count(
        url: &String,
        rev_: &String,
        subdir: &String,
        store: &mut Registry,
    ) -> (result: Result<DownloadOutcome, Error>)
        requires
            old(store).wf(),
        ensures
            final(store).wf(),
            (final(store)@, outcome_result(result)) == old(store)@.request_download(
                url@,
                rev_@,
                subdir@,
            ),
    {
        match store.download_target(url, rev_) {
            Some(version_id) => match store.count_download(version_id) {
                Ok(count) => Ok(DownloadOutcome::Counted(count)),
                Err(e) => Err(e),
            },
            None => {
                let wanted_subdir = if subdir.as_str().unicode_len() == 0 {
                    None
                } else {
                    Some(subdir.clone())
                };
                Ok(
                    DownloadOutcome::FetchNeeded(
                        FetchRequest {
                            repository_url: url.clone(),
                            rev: Some(rev_.clone()),
                            subdir: wanted_subdir,
                        },
                    ),
                )
            },
        }
    }

    /// Records a download of revision `rev_` of the repository at `url`,
    /// given what the metadata source answers for it: counted at once where
    /// a version matches, and otherwise completed from `fetched` as
    /// [`Package::complete_download`] does. For a caller that holds the
    /// metadata already; one that would rather fetch only when needed asks
    /// [`Package::increase_download_count`] first.
    pub fn record_download(
        url: &String,
        rev_: &String,
        fetched: Result<GithubRepoData, Error>,
        now: i64,
        store: &mut Registry,
    ) -> (result: Result<i32, Error>)
        requires
            old(store).wf(),
        ensures
            final(store).wf(),
            (final(store)@, number_result(result)) == old(store)@.record_download(
                url@,
                rev_@,
                fetched_view(fetched),
                now as int,
            ),
    {
        match store.download_target(url, rev_) {
            Some(version_id) => store.count_download(version_id),
            None => Package::complete_download(url, rev_, fetched, now, store),
        }
    }

    /// Finishes a download of revision `rev_` of the repository at `url`
    /// with what the metadata source answered: the package that bears the
    /// fetched name and its version with revision `rev_` are found or
    /// created, the download is counted on both, and the version's new
    /// counter is returned. Fails with `FetchFailed` where the fetch failed,
    /// leaving the stores as they are, and with `StoreUnavailable` where a
    /// store is full or the version's counter is at its limit.
    pub fn complete_download(
        url: &String,
        rev_: &String,
        fetched: Result<GithubRepoData, Error>,
        now: i64,
        store: &mut Registry,
    ) -> (result: Result<i32, Error>)
        requires
            old(store).wf(),
        ensures
            final(store).wf(),
            (final(store)@, number_result(result)) == old(store)@.complete_download(
                url@,
                rev_@,
                fetched_view(fetched),
                now as int,
            ),
    {
        let data = match fetched {
            Ok(data) => data,
            Err(_) => {
                return Err(Error::FetchFailed);
            },
        };
        let description = data.description.clone();
        let size = data.size;
        match Package::materialize(url, &description, rev_, 0, size, None, Ok(data), now, store) {
            Ok((_, version_id)) => store.count_download(version_id),
            Err(e) => Err(e),
        }
    }
}

} // verus!
