//! The rows of the registry and the values that travel with them, each with
//! the mathematical view that contracts are stated over.

use vstd::prelude::*;
use vstd::string::*;

verus! {

/// The characters of an optional string, if it is present.
pub open spec fn text_of(value: Option<String>) -> Option<Seq<char>> {
    match value {
        Some(text) => Some(text@),
        None => None,
    }
}

/// An optional machine integer as an optional mathematical integer.
pub open spec fn number_of(value: Option<i32>) -> Option<int> {
    match value {
        Some(n) => Some(n as int),
        None => None,
    }
}

/// Copies an optional string.
pub fn clone_text(value: &Option<String>) -> (copy: Option<String>)
    ensures
        text_of(copy) == text_of(*value),
{
    match value {
        Some(text) => Some(text.clone()),
        None => None,
    }
}

/// A registry entry for one source repository.
#[derive(Debug)]
pub struct Package {
    pub id: i32,
    pub name: String,
    pub description: String,
    pub repository_url: String,
    pub total_downloads_count: i32,
    /// The account that first registered the package, if any.
    pub account_id: Option<i32>,
    /// Seconds since the epoch at which the row was created.
    pub created_at: i64,
    /// Seconds since the epoch at which the row was last rewritten.
    pub updated_at: i64,
}

/// What a [`Package`] is, mathematically.
pub struct PackageView {
    pub id: int,
    pub name: Seq<char>,
    pub description: Seq<char>,
    pub repository_url: Seq<char>,
    pub total_downloads_count: int,
    pub account_id: Option<int>,
    pub created_at: int,
    pub updated_at: int,
}

impl View for Package {
    type V = PackageView;

    open spec fn view(&self) -> PackageView {
        PackageView {
            id: self.id as int,
            name: self.name@,
            description: self.description@,
            repository_url: self.repository_url@,
            total_downloads_count: self.total_downloads_count as int,
            account_id: number_of(self.account_id),
            created_at: self.created_at as int,
            updated_at: self.updated_at as int,
        }
    }
}

impl Clone for Package {
    fn clone(&self) -> (copy: Package)
        ensures
            copy@ == self@,
    {
        Package {
            id: self.id,
            name: self.name.clone(),
            description: self.description.clone(),
            repository_url: self.repository_url.clone(),
            total_downloads_count: self.total_downloads_count,
            account_id: self.account_id,
            created_at: self.created_at,
            updated_at: self.updated_at,
        }
    }
}

/// The fields a caller supplies to create a package.
#[derive(Debug)]
pub struct NewPackage {
    pub name: String,
    pub description: String,
    pub repository_url: String,
}

/// What a [`NewPackage`] is, mathematically.
pub struct NewPackageView {
    pub name: Seq<char>,
    pub description: Seq<char>,
    pub repository_url: Seq<char>,
}

impl View for NewPackage {
    type V = NewPackageView;

    open spec fn view(&self) -> NewPackageView {
        NewPackageView {
            name: self.name@,
            description: self.description@,
            repository_url: self.repository_url@,
        }
    }
}

/// One ingested revision of a package, with its own download counter.
#[derive(Debug)]
pub struct PackageVersion {
    pub id: i32,
    pub package_id: i32,
    pub version: String,
    pub readme_content: Option<String>,
    pub license: Option<String>,
    pub downloads_count: i32,
    /// Seconds since the epoch at which the row was created.
    pub created_at: i64,
    /// Seconds since the epoch at which the row was last rewritten.
    pub updated_at: i64,
    pub rev: Option<String>,
    pub total_files: Option<i32>,
    pub total_size: Option<i32>,
}

/// What a [`PackageVersion`] is, mathematically.
pub struct PackageVersionView {
    pub id: int,
    pub package_id: int,
    pub version: Seq<char>,
    pub readme_content: Option<Seq<char>>,
    pub license: Option<Seq<char>>,
    pub downloads_count: int,
    pub created_at: int,
    pub updated_at: int,
    pub rev: Option<Seq<char>>,
    pub total_files: Option<int>,
    pub total_size: Option<int>,
}

impl View for PackageVersion {
    type V = PackageVersionView;

    open spec fn view(&self) -> PackageVersionView {
        PackageVersionView {
            id: self.id as int,
            package_id: self.package_id as int,
            version: self.version@,
            readme_content: text_of(self.readme_content),
            license: text_of(self.license),
            downloads_count: self.downloads_count as int,
            created_at: self.created_at as int,
            updated_at: self.updated_at as int,
            rev: text_of(self.rev),
            total_files: number_of(self.total_files),
            total_size: number_of(self.total_size),
        }
    }
}

impl Clone for PackageVersion {
    fn clone(&self) -> (copy: PackageVersion)
        ensures
            copy@ == self@,
    {
        PackageVersion {
            id: self.id,
            package_id: self.package_id,
            version: self.version.clone(),
            readme_content: clone_text(&self.readme_content),
            license: clone_text(&self.license),
            downloads_count: self.downloads_count,
            created_at: self.created_at,
            updated_at: self.updated_at,
            rev: clone_text(&self.rev),
            total_files: self.total_files,
            total_size: self.total_size,
        }
    }
}

/// The fields a caller supplies to create a version.
#[derive(Debug)]
pub struct NewPackageVersion {
    pub package_id: i32,
    pub version: String,
    pub readme_content: String,
    pub rev: String,
    pub total_files: i32,
    pub total_size: i32,
}

/// What a [`NewPackageVersion`] is, mathematically.
pub struct NewPackageVersionView {
    pub package_id: int,
    pub version: Seq<char>,
    pub readme_content: Seq<char>,
    pub rev: Seq<char>,
    pub total_files: int,
    pub total_size: int,
}

impl View for NewPackageVersion {
    type V = NewPackageVersionView;

    open spec fn view(&self) -> NewPackageVersionView {
        NewPackageVersionView {
            package_id: self.package_id as int,
            version: self.version@,
            readme_content: self.readme_content@,
            rev: self.rev@,
            total_files: self.total_files as int,
            total_size: self.total_size as int,
        }
    }
}

/// The order in which the versions of a package are listed.
#[derive(Clone, Copy, Debug, PartialEq, Eq, Structural)]
pub enum PackageVersionSort {
    /// Newest row first.
    Latest,
    /// Oldest row first.
    Oldest,
    /// Highest download counter first; equal counters keep insertion order.
    MostDownloads,
}

/// The field that orders a listing of packages.
#[derive(Clone, Copy, Debug, PartialEq, Eq, Structural)]
pub enum PackageSortField {
    /// How often the query's terms occur in the package's text.
    Relevance,
    Name,
    Description,
    MostDownloads,
    NewlyAdded,
}

/// The direction of a listing of packages.
#[derive(Clone, Copy, Debug, PartialEq, Eq, Structural)]
pub enum PackageSortOrder {
    Asc,
    Desc,
}

impl Default for PackageSortField {
    /// Listings are ordered by relevance unless the caller asks otherwise.
    fn default() -> (field: PackageSortField)
        ensures
            field == PackageSortField::Relevance,
    {
        PackageSortField::Relevance
    }
}

impl Default for PackageSortOrder {
    /// Listings run from the highest key down unless the caller asks
    /// otherwise.
    fn default() -> (order: PackageSortOrder)
        ensures
            order == PackageSortOrder::Desc,
    {
        PackageSortOrder::Desc
    }
}

/// One row of a search or a browse result.
#[derive(Debug)]
pub struct PackageSearchResult {
    pub id: i32,
    pub name: String,
    pub description: String,
    pub total_downloads_count: i32,
}

/// What a [`PackageSearchResult`] is, mathematically.
pub struct PackageSearchResultView {
    pub id: int,
    pub name: Seq<char>,
    pub description: Seq<char>,
    pub total_downloads_count: int,
}

impl View for PackageSearchResult {
    type V = PackageSearchResultView;

    open spec fn view(&self) -> PackageSearchResultView {
        PackageSearchResultView {
            id: self.id as int,
            name: self.name@,
            description: self.description@,
            total_downloads_count: self.total_downloads_count as int,
        }
    }
}

/// What the metadata source reports about a repository.
#[derive(Debug)]
pub struct GithubRepoData {
    pub name: String,
    pub version: String,
    pub readme_content: String,
    pub description: String,
    pub size: i32,
    pub url: String,
    pub rev: String,
}

/// What a [`GithubRepoData`] is, mathematically.
pub struct GithubRepoDataView {
    pub name: Seq<char>,
    pub version: Seq<char>,
    pub readme_content: Seq<char>,
    pub description: Seq<char>,
    pub size: int,
    pub url: Seq<char>,
    pub rev: Seq<char>,
}

impl View for GithubRepoData {
    type V = GithubRepoDataView;

    open spec fn view(&self) -> GithubRepoDataView {
        GithubRepoDataView {
            name: self.name@,
            version: self.version@,
            readme_content: self.readme_content@,
            description: self.description@,
            size: self.size as int,
            url: self.url@,
            rev: self.rev@,
        }
    }
}

/// What to ask the metadata source for.
#[derive(Debug)]
pub struct FetchRequest {
    pub repository_url: String,
    pub rev: Option<String>,
    pub subdir: Option<String>,
}

/// What a [`FetchRequest`] is, mathematically.
pub struct FetchRequestView {
    pub repository_url: Seq<char>,
    pub rev: Option<Seq<char>>,
    pub subdir: Option<Seq<char>>,
}

impl View for FetchRequest {
    type V = FetchRequestView;

    open spec fn view(&self) -> FetchRequestView {
        FetchRequestView {
            repository_url: self.repository_url@,
            rev: text_of(self.rev),
            subdir: text_of(self.subdir),
        }
    }
}

} // verus!
