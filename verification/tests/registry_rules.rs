use package_registry::downloads::DownloadOutcome;
use package_registry::error::Error;
use package_registry::forms::default_redirect_path;
use package_registry::models::{
    GithubRepoData, NewPackage, NewPackageVersion, Package, PackageSortField, PackageSortOrder,
    PackageVersion, PackageVersionSort,
};
use package_registry::paging::{page_bounds, resolve_request, total_pages, PACKAGES_PER_PAGE};
use package_registry::query::{count_occurrences, split_terms, term_occurs_at};
use package_registry::repo_url::{canonicalize, names_same_repository};
use package_registry::search::{add_capped, score, MAX_RELEVANCE};
use package_registry::sorting::{
    entry_comes_first, listing_order, same_text, sort_entries, text_precedes, SortEntry,
};
use package_registry::store::{Registry, MAX_ROWS};
use package_registry::text::{
    begins_with, finishes_with, holds_at, separates, to_chars, to_lower,
};

const NOW: i64 = 1_650_000_000;

fn chars(s: &str) -> Vec<char> {
    s.chars().collect()
}

fn text(v: &[char]) -> String {
    v.iter().collect()
}

fn data(name: &str, version: &str) -> GithubRepoData {
    GithubRepoData {
        name: name.to_string(),
        version: version.to_string(),
        readme_content: "readme".to_string(),
        description: "fetched description".to_string(),
        size: 77,
        url: "".to_string(),
        rev: "".to_string(),
    }
}

fn add(store: &mut Registry, name: &str, description: &str, now: i64) -> i32 {
    store
        .create_package(
            NewPackage {
                name: name.to_string(),
                description: description.to_string(),
                repository_url: format!("https://example.org/o/{}", name),
            },
            None,
            now,
        )
        .unwrap()
        .id
}

fn names(store: &Registry, field: PackageSortField, order: PackageSortOrder) -> Vec<String> {
    let (items, _, _) = Package::all_packages(&field, &order, Some(1), Some(100), store).unwrap();
    items.into_iter().map(|item| item.name).collect()
}

fn found(store: &Registry, query: &str) -> Vec<String> {
    let (items, _, _) = Package::search(
        query,
        &PackageSortField::Relevance,
        &PackageSortOrder::Desc,
        Some(1),
        Some(100),
        store,
    )
    .unwrap();
    items.into_iter().map(|item| item.name).collect()
}

fn download(url: &str, rev: &str, fetched: GithubRepoData, store: &mut Registry) -> Result<i32, Error> {
    let url = url.to_string();
    let rev = rev.to_string();
    match Package::increase_download_count(&url, &rev, &String::new(), store)? {
        DownloadOutcome::Counted(count) => Ok(count),
        DownloadOutcome::FetchNeeded(_) => {
            Package::complete_download(&url, &rev, Ok(fetched), NOW, store)
        }
    }
}

fn package_row(id: i32, name: &str, total: i32) -> Package {
    Package {
        id,
        name: name.to_string(),
        description: "".to_string(),
        repository_url: "https://example.org/o/r".to_string(),
        total_downloads_count: total,
        account_id: None,
        created_at: NOW,
        updated_at: NOW,
    }
}

fn version_row(id: i32, package_id: i32, rev: &str, downloads: i32) -> PackageVersion {
    PackageVersion {
        id,
        package_id,
        version: "1.0.0".to_string(),
        readme_content: None,
        license: None,
        downloads_count: downloads,
        created_at: NOW,
        updated_at: NOW,
        rev: Some(rev.to_string()),
        total_files: None,
        total_size: None,
    }
}

// ---- forms -----------------------------------------------------------------

#[test]
fn default_redirect_path_is_the_site_root() {
    assert_eq!(default_redirect_path(), "/");
}

// ---- repository addresses --------------------------------------------------

#[test]
fn canonical_key_of_each_address_form() {
    for url in [
        "https://github.com/owner/repo",
        "https://github.com/owner/repo.git",
        "http://github.com/owner/repo",
        "git@github.com:owner/repo.git",
        "git@github.com:owner/repo",
        "ssh://git@github.com/owner/repo.git",
        "git://github.com/owner/repo.git",
        "github.com/owner/repo",
    ] {
        assert_eq!(text(&canonicalize(url).chars), "github.com/owner/repo", "{}", url);
    }
}

#[test]
fn canonical_key_edge_cases() {
    assert_eq!(text(&canonicalize("").chars), "");
    assert_eq!(text(&canonicalize("https://").chars), "");
    assert_eq!(text(&canonicalize(".git").chars), "");
    assert_eq!(text(&canonicalize("git").chars), "git");
    // only the first colon of the SSH form parts host and path
    assert_eq!(text(&canonicalize("git@host:a:b.git").chars), "host/a:b");
    // a colon after a scheme belongs to the host and stays
    assert_eq!(text(&canonicalize("https://host:8080/o/r").chars), "host:8080/o/r");
    // only one suffix is dropped
    assert_eq!(text(&canonicalize("https://h/o/r.git.git").chars), "h/o/r.git");
    // non-ASCII text passes through
    assert_eq!(text(&canonicalize("https://h/ö/ü.git").chars), "h/ö/ü");
}

#[test]
fn addresses_of_one_repository_match() {
    assert!(names_same_repository(
        "https://github.com/eadungn/taohe",
        "git@github.com:eadungn/taohe.git"
    ));
    assert!(names_same_repository("https://h/o/r", "https://h/o/r.git"));
    assert!(!names_same_repository("https://h/o/r", "https://h/o/other"));
    assert!(!names_same_repository("https://h/o/r", "https://h/O/r"));
    let key = canonicalize("https://h/o/r");
    assert!(key.matches(&canonicalize("git@h:o/r.git")));
    assert!(!key.matches(&canonicalize("git@h:o/r2.git")));
}

// ---- text ------------------------------------------------------------------

#[test]
fn text_helpers() {
    assert_eq!(to_chars("aö!"), vec!['a', 'ö', '!']);
    assert_eq!(to_chars(""), Vec::<char>::new());
    assert_eq!(to_lower('A'), 'a');
    assert_eq!(to_lower('Z'), 'z');
    assert_eq!(to_lower('a'), 'a');
    assert_eq!(to_lower('@'), '@');
    assert_eq!(to_lower('['), '[');
    assert_eq!(to_lower('Ä'), 'Ä');
    for c in [' ', '\t', '\n', '\r', '\x0b', '\x0c'] {
        assert!(separates(c));
    }
    assert!(!separates('a') && !separates('_') && !separates('\u{a0}'));
    let s = chars("hello.git");
    assert!(begins_with(&s, &chars("hell")));
    assert!(begins_with(&s, &chars("")));
    assert!(!begins_with(&s, &chars("help")));
    assert!(!begins_with(&chars("he"), &chars("hell")));
    assert!(finishes_with(&s, &chars(".git")));
    assert!(!finishes_with(&s, &chars(".gi")));
    assert!(!finishes_with(&chars("git"), &chars(".git")));
    assert!(holds_at(&s, 2, &chars("llo")));
    assert!(!holds_at(&s, 7, &chars("git")));
    assert!(holds_at(&s, 9, &chars("")));
    assert!(!holds_at(&s, 10, &chars("")));
}

#[test]
fn query_is_split_at_spaces() {
    let terms = |q: &str| -> Vec<String> {
        split_terms(&chars(q)).iter().map(|t| text(t)).collect()
    };
    assert_eq!(terms("the package"), vec!["the", "package"]);
    assert_eq!(terms("  the \t package\n"), vec!["the", "package"]);
    assert_eq!(terms("one"), vec!["one"]);
    assert_eq!(terms(""), Vec::<String>::new());
    assert_eq!(terms(" \t "), Vec::<String>::new());
    assert_eq!(terms("a,b c"), vec!["a,b", "c"]);
}

#[test]
fn terms_match_whole_words_only() {
    let t = chars("The first package, the best");
    assert_eq!(count_occurrences(&t, &chars("the")), 2);
    assert_eq!(count_occurrences(&t, &chars("THE")), 2);
    assert_eq!(count_occurrences(&t, &chars("first")), 1);
    assert_eq!(count_occurrences(&t, &chars("best")), 1);
    assert_eq!(count_occurrences(&t, &chars("package")), 0);
    assert_eq!(count_occurrences(&t, &chars("package,")), 1);
    assert_eq!(count_occurrences(&t, &chars("pack")), 0);
    assert_eq!(count_occurrences(&t, &chars("irst")), 0);
    assert_eq!(count_occurrences(&t, &chars("")), 0);
    assert_eq!(count_occurrences(&chars(""), &chars("a")), 0);
    assert_eq!(count_occurrences(&chars("a a a"), &chars("a")), 3);
    assert!(term_occurs_at(&t, &chars("first"), 4));
    assert!(!term_occurs_at(&t, &chars("first"), 3));
    assert!(!term_occurs_at(&t, &chars("irst"), 5));
    assert!(!term_occurs_at(&t, &chars("fir"), 4));
    assert!(term_occurs_at(&t, &chars("best"), 23));
}

#[test]
fn score_counts_every_term() {
    let name = chars("json parser");
    let description = chars("A JSON parser for json files");
    let terms = |q: &str| split_terms(&chars(q));
    assert_eq!(score(&name, &description, &terms("json")), (true, 3));
    assert_eq!(score(&name, &description, &terms("json parser")), (true, 5));
    assert_eq!(score(&name, &description, &terms("json yaml")), (false, 3));
    assert_eq!(score(&name, &description, &terms("yaml")), (false, 0));
    assert_eq!(score(&name, &description, &terms("")), (false, 0));
    assert_eq!(add_capped(0, 0), 0);
    assert_eq!(add_capped(5, 7), 12);
    assert_eq!(add_capped(MAX_RELEVANCE, 1), MAX_RELEVANCE);
    assert_eq!(add_capped(MAX_RELEVANCE - 3, 3), MAX_RELEVANCE);
    assert_eq!(add_capped(MAX_RELEVANCE - 3, 4), MAX_RELEVANCE);
}

// ---- order -----------------------------------------------------------------

#[test]
fn dictionary_order_of_texts() {
    let before = |a: &str, b: &str| text_precedes(&chars(a), &chars(b));
    assert!(before("Charles Diya", "The first Diva"));
    assert!(before("The first Diva", "The first package"));
    assert!(before("", "a"));
    assert!(before("ab", "abc"));
    assert!(before("Z", "a"));
    assert!(!before("a", "a"));
    assert!(!before("abc", "ab"));
    assert!(!before("", ""));
    assert!(!before("b", "a"));
    assert!(same_text(&chars("abc"), &chars("abc")));
    assert!(same_text(&chars(""), &chars("")));
    assert!(!same_text(&chars("abc"), &chars("abd")));
    assert!(!same_text(&chars("abc"), &chars("ab")));
}

fn entry(number: i64, word: &str, index: usize) -> SortEntry {
    SortEntry { number, text: chars(word), index }
}

#[test]
fn entries_are_ordered_by_number_then_text_then_insertion() {
    assert!(entry_comes_first(&entry(1, "", 5), &entry(2, "", 0), false));
    assert!(!entry_comes_first(&entry(1, "", 5), &entry(2, "", 0), true));
    assert!(entry_comes_first(&entry(1, "a", 5), &entry(1, "b", 0), false));
    assert!(entry_comes_first(&entry(1, "b", 5), &entry(1, "a", 0), true));
    // equal keys: insertion order, whatever the direction
    assert!(entry_comes_first(&entry(1, "a", 0), &entry(1, "a", 5), false));
    assert!(entry_comes_first(&entry(1, "a", 0), &entry(1, "a", 5), true));
    assert!(!entry_comes_first(&entry(1, "a", 5), &entry(1, "a", 0), true));
    assert!(entry_comes_first(&entry(1, "a", 3), &entry(1, "a", 3), false));

    let make = || vec![entry(2, "", 0), entry(3, "", 1), entry(2, "", 2), entry(1, "", 3), entry(3, "", 4)];
    assert_eq!(listing_order(make(), false), vec![3, 0, 2, 1, 4]);
    assert_eq!(listing_order(make(), true), vec![1, 4, 0, 2, 3]);
    assert_eq!(listing_order(Vec::new(), true), Vec::<usize>::new());
    let sorted: Vec<i64> = sort_entries(make(), true).iter().map(|e| e.number).collect();
    assert_eq!(sorted, vec![3, 3, 2, 2, 1]);
}

// ---- pages -----------------------------------------------------------------

#[test]
fn total_pages_rounds_up() {
    assert_eq!(total_pages(0, 5), 0);
    assert_eq!(total_pages(-3, 5), 0);
    assert_eq!(total_pages(1, 5), 1);
    assert_eq!(total_pages(5, 5), 1);
    assert_eq!(total_pages(6, 5), 2);
    assert_eq!(total_pages(3, 2), 2);
    assert_eq!(total_pages(3, 1), 3);
    assert_eq!(total_pages(10, 10), 1);
    assert_eq!(total_pages(11, 10), 2);
    assert_eq!(total_pages(i64::MAX, 1), i64::MAX);
    assert_eq!(total_pages(i64::MAX, i64::MAX), 1);
    assert_eq!(total_pages(i64::MAX, 2), i64::MAX / 2 + 1);
}

#[test]
fn page_bounds_cut_the_listing() {
    assert_eq!(page_bounds(3, 1, 2), (0, 2));
    assert_eq!(page_bounds(3, 2, 2), (2, 3));
    assert_eq!(page_bounds(3, 3, 2), (3, 3));
    assert_eq!(page_bounds(0, 1, 10), (0, 0));
    assert_eq!(page_bounds(10, 1, 10), (0, 10));
    assert_eq!(page_bounds(10, 2, 10), (10, 10));
    assert_eq!(page_bounds(7, 1, i64::MAX), (0, 7));
    assert_eq!(page_bounds(7, i64::MAX, i64::MAX), (7, 7));
    assert_eq!(page_bounds(7, i64::MAX, 1), (7, 7));
}

#[test]
fn page_requests_get_defaults_and_are_checked() {
    assert_eq!(PACKAGES_PER_PAGE, 10);
    assert_eq!(resolve_request(None, None), Ok((1, 10)));
    assert_eq!(resolve_request(Some(3), None), Ok((3, 10)));
    assert_eq!(resolve_request(None, Some(25)), Ok((1, 25)));
    assert_eq!(resolve_request(Some(0), None), Err(Error::InvalidPage));
    assert_eq!(resolve_request(Some(-1), Some(5)), Err(Error::InvalidPage));
    assert_eq!(resolve_request(Some(1), Some(0)), Err(Error::InvalidPage));
    assert_eq!(resolve_request(None, Some(-5)), Err(Error::InvalidPage));
}

// ---- stores ----------------------------------------------------------------

#[test]
fn identifiers_count_rows_from_one() {
    let mut store = Registry::new();
    assert_eq!(store.package_count(), 0);
    assert_eq!(add(&mut store, "a", "", NOW), 1);
    assert_eq!(add(&mut store, "b", "", NOW), 2);
    let v = store
        .create_version(
            NewPackageVersion {
                package_id: 2,
                version: "0.1".to_string(),
                readme_content: "r".to_string(),
                rev: "abc".to_string(),
                total_files: 4,
                total_size: 9,
            },
            NOW + 5,
        )
        .unwrap();
    assert_eq!((v.id, v.package_id, v.downloads_count), (1, 2, 0));
    assert_eq!(v.readme_content.as_deref(), Some("r"));
    assert_eq!(v.rev.as_deref(), Some("abc"));
    assert_eq!(v.license, None);
    assert_eq!((v.total_files, v.total_size), (Some(4), Some(9)));
    assert_eq!((v.created_at, v.updated_at), (NOW + 5, NOW + 5));
    assert_eq!(store.version_count(), 1);
    assert_eq!(store.package(2).unwrap().name, "b");
    assert!(store.package(0).is_none() && store.package(3).is_none() && store.package(-1).is_none());
    assert_eq!(store.version(1).unwrap().version, "0.1");
    assert!(store.version(2).is_none() && store.version(0).is_none());
    assert_eq!(store.package_at(0).name, "a");
    assert_eq!(store.version_at(0).id, 1);
    assert_eq!(store.package_id_by_name(&"b".to_string()), Some(2));
    assert_eq!(store.package_id_by_name(&"c".to_string()), None);
    assert_eq!(store.version_id_by_rev(2, &"abc".to_string()), Some(1));
    assert_eq!(store.version_id_by_rev(1, &"abc".to_string()), None);
    assert_eq!(store.version_id_by_rev(2, &"abd".to_string()), None);
}

#[test]
fn lookups_that_miss_are_not_found() {
    let mut store = Registry::new();
    let id = add(&mut store, "a", "", NOW);
    assert_eq!(Package::get(0, &store).err(), Some(Error::NotFound));
    assert_eq!(Package::get(2, &store).err(), Some(Error::NotFound));
    assert_eq!(Package::get_by_name(&"b".to_string(), &store).err(), Some(Error::NotFound));
    let package = Package::get(id, &store).unwrap();
    assert_eq!(Package::get_by_name(&"a".to_string(), &store).unwrap().id, id);
    assert_eq!(package.get_version(&"r".to_string(), &store).err(), Some(Error::NotFound));
    assert_eq!(
        PackageVersion::create(9, "v".into(), "".into(), "r".into(), 0, 0, NOW, &mut store).err(),
        Some(Error::NotFound)
    );
    assert_eq!(store.increment_version_downloads(1), Err(Error::NotFound));
    assert_eq!(store.increment_package_downloads(2), Err(Error::NotFound));
    assert_eq!(store.increment_package_downloads(0), Err(Error::NotFound));
    assert_eq!(store.count_download(1), Err(Error::NotFound));
    assert_eq!(store.package_count(), 1);
    assert_eq!(store.version_count(), 0);
    PackageVersion::create(id, "v".into(), "".into(), "r".into(), 0, 0, NOW, &mut store).unwrap();
    assert_eq!(package.get_version(&"r".to_string(), &store).unwrap().version, "v");
    assert_eq!(
        PackageVersion::from_package_id(5, &PackageVersionSort::Latest, &store).unwrap().len(),
        0
    );
}

#[test]
fn a_name_is_taken_once() {
    let mut store = Registry::new();
    let args = |store: &mut Registry| {
        Package::create_test_package(
            &"name".to_string(),
            &"url".to_string(),
            &"d".to_string(),
            &"v".to_string(),
            &"".to_string(),
            &"r".to_string(),
            0,
            0,
            Some(3),
            NOW,
            store,
        )
    };
    assert_eq!(args(&mut store), Ok(1));
    assert_eq!(args(&mut store), Err(Error::DuplicateName));
    assert_eq!(Package::count(&store), 1);
    assert_eq!(PackageVersion::count(&store), 1);
    assert_eq!(Package::get(1, &store).unwrap().account_id, Some(3));
}

#[test]
fn a_revision_is_recorded_once_per_package() {
    let mut store = Registry::new();
    let a = add(&mut store, "a", "", NOW);
    let b = add(&mut store, "b", "", NOW);
    PackageVersion::create(a, "1".into(), "".into(), "rev".into(), 0, 0, NOW, &mut store).unwrap();
    assert_eq!(
        PackageVersion::create(a, "2".into(), "".into(), "rev".into(), 0, 0, NOW, &mut store).err(),
        Some(Error::DuplicateRevision)
    );
    // the same revision under another package is another version
    PackageVersion::create(b, "1".into(), "".into(), "rev".into(), 0, 0, NOW, &mut store).unwrap();
    // the same label under another revision is another version
    PackageVersion::create(a, "1".into(), "".into(), "rev2".into(), 0, 0, NOW, &mut store).unwrap();
    assert_eq!(PackageVersion::count(&store), 3);
}

#[test]
fn saved_rows_are_checked_when_loaded() {
    let ok = Registry::from_rows(
        vec![package_row(1, "a", 3), package_row(2, "b", 0)],
        vec![version_row(1, 1, "x", 1), version_row(2, 1, "y", 2)],
    )
    .unwrap();
    assert_eq!(ok.package_count(), 2);
    assert_eq!(ok.packages()[1].name, "b");
    assert_eq!(ok.versions()[1].downloads_count, 2);
    assert!(Registry::from_rows(Vec::new(), Vec::new()).is_ok());

    let bad = |packages, versions| {
        assert_eq!(Registry::from_rows(packages, versions).err(), Some(Error::StoreUnavailable));
    };
    bad(vec![package_row(2, "a", 0)], vec![]);
    bad(vec![package_row(1, "a", 0), package_row(2, "a", 0)], vec![]);
    bad(vec![package_row(1, "a", -1)], vec![]);
    bad(vec![package_row(1, "a", 0)], vec![version_row(1, 2, "x", 0)]);
    bad(vec![package_row(1, "a", 0)], vec![version_row(1, 0, "x", 0)]);
    bad(vec![package_row(1, "a", 0)], vec![version_row(2, 1, "x", 0)]);
    bad(vec![package_row(1, "a", 0)], vec![version_row(1, 1, "x", -1)]);
    bad(vec![package_row(1, "a", 0)], vec![version_row(1, 1, "x", 0), version_row(2, 1, "x", 0)]);
    bad(vec![], vec![version_row(1, 1, "x", 0)]);
}

#[test]
fn exported_rows_load_again() {
    let mut store = Registry::new();
    Package::create(&"u".into(), &"d".into(), &"1".into(), 1, 2, Some(4), Ok(data("n", "v")), NOW, &mut store)
        .unwrap();
    download("u", "1", data("n", "v"), &mut store).unwrap();
    let again = Registry::from_rows(store.packages(), store.versions()).unwrap();
    assert_eq!(again.package_count(), 1);
    assert_eq!(again.version(1).unwrap().downloads_count, 1);
    assert_eq!(again.package(1).unwrap().total_downloads_count, 1);
    assert_eq!(again.package(1).unwrap().account_id, Some(4));
}

#[test]
fn a_counter_at_its_limit_refuses() {
    let mut store = Registry::from_rows(
        vec![package_row(1, "a", MAX_ROWS), package_row(2, "b", MAX_ROWS - 1)],
        vec![
            version_row(1, 1, "full", MAX_ROWS),
            version_row(2, 1, "room", 5),
            version_row(3, 2, "last", MAX_ROWS - 1),
        ],
    )
    .unwrap();
    assert_eq!(store.increment_version_downloads(1), Err(Error::StoreUnavailable));
    assert_eq!(store.increment_package_downloads(1), Err(Error::StoreUnavailable));
    assert_eq!(store.count_download(1), Err(Error::StoreUnavailable));
    assert_eq!(download("https://example.org/o/r", "full", data("a", "v"), &mut store), Err(Error::StoreUnavailable));
    assert_eq!(store.version(1).unwrap().downloads_count, MAX_ROWS);
    // the aggregate is full, the version is not: the version still counts
    assert_eq!(store.count_download(2), Ok(6));
    assert_eq!(store.package(1).unwrap().total_downloads_count, MAX_ROWS);
    // the last step up to the limit
    assert_eq!(store.count_download(3), Ok(MAX_ROWS));
    assert_eq!(store.package(2).unwrap().total_downloads_count, MAX_ROWS);
    assert_eq!(store.count_download(3), Err(Error::StoreUnavailable));
}

// ---- registration ----------------------------------------------------------

#[test]
fn registering_twice_changes_nothing() {
    let mut store = Registry::new();
    let first = Package::create(
        &"https://h/o/r".into(),
        &"first description".into(),
        &"rev1".into(),
        2,
        100,
        Some(11),
        Ok(data("name", "1.0.0")),
        NOW,
        &mut store,
    )
    .unwrap();
    let second = Package::create(
        &"git@h:o/r.git".into(),
        &"second description".into(),
        &"rev1".into(),
        9,
        900,
        Some(22),
        Ok(data("name", "2.0.0")),
        NOW + 60,
        &mut store,
    )
    .unwrap();
    assert_eq!(first, second);
    assert_eq!(Package::count(&store), 1);
    assert_eq!(PackageVersion::count(&store), 1);
    let package = Package::get(first, &store).unwrap();
    assert_eq!(package.description, "first description");
    assert_eq!(package.repository_url, "https://h/o/r");
    assert_eq!(package.account_id, Some(11));
    assert_eq!(package.total_downloads_count, 0);
    assert_eq!((package.created_at, package.updated_at), (NOW, NOW));
    let version = package.get_version(&"rev1".to_string(), &store).unwrap();
    assert_eq!(version.version, "1.0.0");
    assert_eq!((version.total_files, version.total_size), (Some(2), Some(100)));
}

#[test]
fn a_new_revision_adds_a_version_to_the_same_package() {
    let mut store = Registry::new();
    let a = Package::create(&"u".into(), &"d".into(), &"1".into(), 0, 0, None, Ok(data("n", "v")), NOW, &mut store)
        .unwrap();
    // same label, other revision
    let b = Package::create(&"u".into(), &"d".into(), &"2".into(), 0, 0, None, Ok(data("n", "v")), NOW, &mut store)
        .unwrap();
    assert_eq!(a, b);
    assert_eq!(Package::count(&store), 1);
    assert_eq!(PackageVersion::count(&store), 2);
    assert_eq!(Package::materialize(&"u".into(), &"d".into(), &"2".into(), 0, 0, None, Ok(data("n", "v")), NOW, &mut store), Ok((1, 2)));
    assert_eq!(Package::materialize(&"u".into(), &"d".into(), &"3".into(), 0, 0, None, Ok(data("m", "v")), NOW, &mut store), Ok((2, 3)));
}

#[test]
fn a_failed_fetch_is_reported_and_changes_nothing() {
    let mut store = Registry::new();
    for cause in [Error::FetchFailed, Error::NotFound, Error::StoreUnavailable] {
        assert_eq!(
            Package::create(&"u".into(), &"d".into(), &"1".into(), 0, 0, None, Err(cause), NOW, &mut store),
            Err(Error::FetchFailed)
        );
        assert_eq!(
            Package::complete_download(&"u".into(), &"1".into(), Err(cause), NOW, &mut store),
            Err(Error::FetchFailed)
        );
    }
    assert_eq!(Package::count(&store), 0);
    assert_eq!(PackageVersion::count(&store), 0);
}

#[test]
fn fetch_requests_name_what_to_fetch() {
    let request = Package::fetch_request(&"https://h/o/r".to_string(), Some("sub/dir".to_string()));
    assert_eq!(request.repository_url, "https://h/o/r");
    assert_eq!(request.rev, None);
    assert_eq!(request.subdir.as_deref(), Some("sub/dir"));

    let mut store = Registry::new();
    let asked = Package::increase_download_count(
        &"git@h:o/r.git".to_string(),
        &"abc".to_string(),
        &"sub".to_string(),
        &mut store,
    )
    .unwrap();
    match asked {
        DownloadOutcome::FetchNeeded(request) => {
            assert_eq!(request.repository_url, "git@h:o/r.git");
            assert_eq!(request.rev.as_deref(), Some("abc"));
            assert_eq!(request.subdir.as_deref(), Some("sub"));
        }
        DownloadOutcome::Counted(_) => panic!("nothing to count yet"),
    }
    let asked = Package::increase_download_count(
        &"git@h:o/r.git".to_string(),
        &"abc".to_string(),
        &String::new(),
        &mut store,
    )
    .unwrap();
    match asked {
        DownloadOutcome::FetchNeeded(request) => assert_eq!(request.subdir, None),
        DownloadOutcome::Counted(_) => panic!("nothing to count yet"),
    }
    assert_eq!(Package::count(&store), 0);
}

// ---- downloads -------------------------------------------------------------

#[test]
fn downloads_count_up_one_by_one() {
    let mut store = Registry::new();
    for n in 1..=25 {
        assert_eq!(download("https://h/o/r", "rev", data("name", "v"), &mut store), Ok(n));
    }
    assert_eq!(Package::count(&store), 1);
    assert_eq!(PackageVersion::count(&store), 1);
    assert_eq!(store.version(1).unwrap().downloads_count, 25);
    assert_eq!(store.package(1).unwrap().total_downloads_count, 25);
}

#[test]
fn a_download_with_metadata_at_hand() {
    let mut store = Registry::new();
    let url = "https://h/o/r".to_string();
    let rev = "rev".to_string();
    assert_eq!(Package::record_download(&url, &rev, Err(Error::FetchFailed), NOW, &mut store), Err(Error::FetchFailed));
    assert_eq!(Package::count(&store), 0);
    assert_eq!(Package::record_download(&url, &rev, Ok(data("n", "v")), NOW, &mut store), Ok(1));
    // once the version is known the answer of the source no longer matters
    assert_eq!(Package::record_download(&url, &rev, Err(Error::FetchFailed), NOW, &mut store), Ok(2));
    assert_eq!(Package::record_download(&"git@h:o/r.git".to_string(), &rev, Ok(data("x", "v")), NOW, &mut store), Ok(3));
    assert_eq!((Package::count(&store), PackageVersion::count(&store)), (1, 1));
    assert_eq!(store.package(1).unwrap().total_downloads_count, 3);
}

#[test]
fn a_download_of_an_unknown_revision_creates_it_from_the_fetch() {
    let mut store = Registry::new();
    assert_eq!(download("https://h/o/r", "rev", data("name", "9.9"), &mut store), Ok(1));
    let package = Package::get(1, &store).unwrap();
    assert_eq!(package.name, "name");
    assert_eq!(package.description, "fetched description");
    assert_eq!(package.repository_url, "https://h/o/r");
    assert_eq!(package.account_id, None);
    let version = store.version(1).unwrap();
    assert_eq!(version.version, "9.9");
    assert_eq!(version.rev.as_deref(), Some("rev"));
    assert_eq!((version.total_files, version.total_size), (Some(0), Some(77)));
}

#[test]
fn either_address_counts_on_the_same_package() {
    let mut store = Registry::new();
    Package::create_test_package(
        &"p".into(),
        &"https://host/o/r".into(),
        &"".into(),
        &"1".into(),
        &"".into(),
        &"rev".into(),
        0,
        0,
        None,
        NOW,
        &mut store,
    )
    .unwrap();
    assert_eq!(download("https://host/o/r", "rev", data("other", "v"), &mut store), Ok(1));
    assert_eq!(download("git@host:o/r.git", "rev", data("other", "v"), &mut store), Ok(2));
    assert_eq!(download("https://host/o/r.git", "rev", data("other", "v"), &mut store), Ok(3));
    assert_eq!(Package::count(&store), 1);
    assert_eq!(Package::get(1, &store).unwrap().total_downloads_count, 3);
}

#[test]
fn the_oldest_matching_version_takes_the_download() {
    let mut store = Registry::new();
    // two packages of one repository, both with the revision
    for name in ["a", "b"] {
        Package::create_test_package(
            &name.into(),
            &"https://host/o/r".into(),
            &"".into(),
            &"1".into(),
            &"".into(),
            &"rev".into(),
            0,
            0,
            None,
            NOW,
            &mut store,
        )
        .unwrap();
    }
    assert_eq!(store.download_target(&"git@host:o/r.git".to_string(), &"rev".to_string()), Some(1));
    assert_eq!(store.download_target(&"git@host:o/r.git".to_string(), &"other".to_string()), None);
    assert_eq!(store.download_target(&"git@host:o/x.git".to_string(), &"rev".to_string()), None);
    assert_eq!(download("https://host/o/r", "rev", data("zzz", "v"), &mut store), Ok(1));
    assert_eq!(store.version(1).unwrap().downloads_count, 1);
    assert_eq!(store.version(2).unwrap().downloads_count, 0);
}

#[test]
fn ingest_then_download_scenario() {
    let mut store = Registry::new();
    let url = "https://github.com/o/r".to_string();
    let id = Package::create(&url, &"d".into(), &"1".into(), 1, 1, None, Ok(data("name", "v1")), NOW, &mut store)
        .unwrap();
    assert_eq!(download(&url, "1", data("name", "v1"), &mut store), Ok(1));
    assert_eq!(download(&url, "1", data("name", "v1"), &mut store), Ok(2));
    let package = Package::get(id, &store).unwrap();
    assert_eq!(package.get_version(&"1".to_string(), &store).unwrap().downloads_count, 2);
    assert_eq!(package.total_downloads_count, 2);

    let again = Package::create(&url, &"d".into(), &"2".into(), 1, 1, None, Ok(data("name", "v2")), NOW, &mut store)
        .unwrap();
    assert_eq!(again, id);
    assert_eq!(download(&url, "2", data("name", "v2"), &mut store), Ok(1));
    let package = Package::get(id, &store).unwrap();
    assert_eq!(package.get_version(&"2".to_string(), &store).unwrap().downloads_count, 1);
    assert_eq!(package.get_version(&"1".to_string(), &store).unwrap().downloads_count, 2);
    assert_eq!(package.total_downloads_count, 3);
}

// ---- version listings ------------------------------------------------------

#[test]
fn versions_are_listed_in_the_order_asked_for() {
    let mut store = Registry::new();
    let a = add(&mut store, "a", "", NOW);
    let b = add(&mut store, "b", "", NOW);
    for (package, rev) in [(a, "r1"), (b, "x"), (a, "r2"), (a, "r3"), (a, "r4")] {
        PackageVersion::create(package, rev.into(), "".into(), rev.into(), 0, 0, NOW, &mut store).unwrap();
    }
    // r1: 2 downloads, r2: 5, r3: 2, r4: 0
    for (version, times) in [(1, 2), (3, 5), (4, 2)] {
        for _ in 0..times {
            store.count_download(version).unwrap();
        }
    }
    let list = |sort| -> Vec<String> {
        PackageVersion::from_package_id(a, &sort, &store)
            .unwrap()
            .into_iter()
            .map(|v| v.version)
            .collect()
    };
    assert_eq!(list(PackageVersionSort::Latest), vec!["r4", "r3", "r2", "r1"]);
    assert_eq!(list(PackageVersionSort::Oldest), vec!["r1", "r2", "r3", "r4"]);
    // equal counters keep insertion order
    assert_eq!(list(PackageVersionSort::MostDownloads), vec!["r2", "r1", "r3", "r4"]);
    let counts: Vec<i32> = PackageVersion::from_package_id(a, &PackageVersionSort::MostDownloads, &store)
        .unwrap()
        .iter()
        .map(|v| v.downloads_count)
        .collect();
    assert!(counts.windows(2).all(|pair| pair[0] >= pair[1]));
    assert_eq!(store.package(a).unwrap().total_downloads_count, 9);
    assert_eq!(PackageVersion::from_package_id(b, &PackageVersionSort::Latest, &store).unwrap().len(), 1);
}

// ---- search ----------------------------------------------------------------

fn library() -> Registry {
    let mut store = Registry::new();
    add(&mut store, "The first package", "description 1", NOW + 3);
    add(&mut store, "The first Diva", "randomly picked, and changes some", NOW + 1);
    add(&mut store, "Charles Diya", "randomly picked, and changes some", NOW + 2);
    add(&mut store, "first first", "the first of the first", NOW + 4);
    store
}

#[test]
fn every_term_must_occur() {
    let store = library();
    assert_eq!(found(&store, "the package"), vec!["The first package"]);
    assert_eq!(found(&store, "package the"), vec!["The first package"]);
    assert_eq!(found(&store, "THE PACKAGE"), vec!["The first package"]);
    assert_eq!(found(&store, "randomly diya"), vec!["Charles Diya"]);
    assert_eq!(found(&store, "the nothing"), Vec::<String>::new());
    assert_eq!(found(&store, "pack"), Vec::<String>::new());
    assert_eq!(found(&store, "picked"), Vec::<String>::new());
    assert_eq!(found(&store, "picked,").len(), 2);
}

#[test]
fn matches_are_ranked_by_relevance() {
    let store = library();
    // "first" occurs four times, once, once
    assert_eq!(found(&store, "first"), vec!["first first", "The first package", "The first Diva"]);
    let (items, total, pages) = Package::search(
        "first",
        &PackageSortField::default(),
        &PackageSortOrder::default(),
        None,
        None,
        &store,
    )
    .unwrap();
    assert_eq!((items.len(), total, pages), (3, 3, 1));
    assert_eq!(items[0].name, "first first");
    assert_eq!((items[0].id, items[0].description.as_str()), (4, "the first of the first"));
    let (items, _, _) = Package::search(
        "first",
        &PackageSortField::Relevance,
        &PackageSortOrder::Asc,
        None,
        None,
        &store,
    )
    .unwrap();
    let order: Vec<&str> = items.iter().map(|i| i.name.as_str()).collect();
    assert_eq!(order, vec!["The first package", "The first Diva", "first first"]);
}

#[test]
fn an_empty_query_matches_nothing() {
    let store = library();
    for query in ["", "   ", "\t\n"] {
        let (items, total, pages) = Package::search(
            query,
            &PackageSortField::Name,
            &PackageSortOrder::Asc,
            None,
            None,
            &store,
        )
        .unwrap();
        assert_eq!((items.len(), total, pages), (0, 0, 0));
    }
    let (items, total, pages) = Package::search(
        "absent",
        &PackageSortField::Name,
        &PackageSortOrder::Asc,
        Some(4),
        Some(2),
        &store,
    )
    .unwrap();
    assert_eq!((items.len(), total, pages), (0, 0, 0));
    let empty = Registry::new();
    let (items, total, pages) =
        Package::all_packages(&PackageSortField::Name, &PackageSortOrder::Asc, None, None, &empty).unwrap();
    assert_eq!((items.len(), total, pages), (0, 0, 0));
}

#[test]
fn three_matches_on_pages_of_two() {
    let store = library();
    let page = |number: i64| {
        Package::search(
            "first",
            &PackageSortField::Name,
            &PackageSortOrder::Asc,
            Some(number),
            Some(2),
            &store,
        )
        .unwrap()
    };
    let (items, total, pages) = page(1);
    assert_eq!((items.len(), total, pages), (2, 3, 2));
    assert_eq!((items[0].name.as_str(), items[1].name.as_str()), ("The first Diva", "The first package"));
    let (items, total, pages) = page(2);
    assert_eq!((items.len(), total, pages), (1, 3, 2));
    assert_eq!(items[0].name, "first first");
    // behind the last page: no rows, no error, same counts
    for number in [3, 4, 1_000_000, i64::MAX] {
        let (items, total, pages) = page(number);
        assert_eq!((items.len(), total, pages), (0, 3, 2));
    }
}

#[test]
fn pages_below_one_are_refused() {
    let store = library();
    for (page, size) in [(Some(0), None), (Some(-1), Some(2)), (Some(1), Some(0)), (None, Some(-2))] {
        assert_eq!(
            Package::search("first", &PackageSortField::Name, &PackageSortOrder::Asc, page, size, &store).err(),
            Some(Error::InvalidPage)
        );
        assert_eq!(
            Package::all_packages(&PackageSortField::Name, &PackageSortOrder::Asc, page, size, &store).err(),
            Some(Error::InvalidPage)
        );
    }
}

#[test]
fn the_default_page_holds_ten_rows() {
    let mut store = Registry::new();
    for n in 0..23 {
        add(&mut store, &format!("package {:02}", n), "", NOW);
    }
    let (items, total, pages) =
        Package::all_packages(&PackageSortField::Name, &PackageSortOrder::Asc, None, None, &store).unwrap();
    assert_eq!((items.len(), total, pages), (10, 23, 3));
    assert_eq!(items[0].name, "package 00");
    assert_eq!(items[9].name, "package 09");
    let (items, _, _) =
        Package::all_packages(&PackageSortField::Name, &PackageSortOrder::Asc, Some(3), None, &store).unwrap();
    assert_eq!(items.len(), 3);
    assert_eq!(items[2].name, "package 22");
    let (items, total, pages) = Package::search(
        "package",
        &PackageSortField::Name,
        &PackageSortOrder::Desc,
        Some(2),
        Some(7),
        &store,
    )
    .unwrap();
    assert_eq!((items.len(), total, pages), (7, 23, 4));
    assert_eq!(items[0].name, "package 15");
}

#[test]
fn listings_follow_the_sort_field() {
    let mut store = library();
    store
        .create_version(
            NewPackageVersion {
                package_id: 3,
                version: "1".into(),
                readme_content: "".into(),
                rev: "r".into(),
                total_files: 0,
                total_size: 0,
            },
            NOW,
        )
        .unwrap();
    store.count_download(1).unwrap();
    assert_eq!(
        names(&store, PackageSortField::Name, PackageSortOrder::Asc),
        vec!["Charles Diya", "The first Diva", "The first package", "first first"]
    );
    assert_eq!(
        names(&store, PackageSortField::Name, PackageSortOrder::Desc),
        vec!["first first", "The first package", "The first Diva", "Charles Diya"]
    );
    // equal descriptions keep insertion order in both directions
    assert_eq!(
        names(&store, PackageSortField::Description, PackageSortOrder::Asc),
        vec!["The first package", "The first Diva", "Charles Diya", "first first"]
    );
    assert_eq!(
        names(&store, PackageSortField::Description, PackageSortOrder::Desc),
        vec!["first first", "The first Diva", "Charles Diya", "The first package"]
    );
    assert_eq!(
        names(&store, PackageSortField::MostDownloads, PackageSortOrder::Desc),
        vec!["Charles Diya", "The first package", "The first Diva", "first first"]
    );
    assert_eq!(
        names(&store, PackageSortField::MostDownloads, PackageSortOrder::Asc),
        vec!["The first package", "The first Diva", "first first", "Charles Diya"]
    );
    assert_eq!(
        names(&store, PackageSortField::NewlyAdded, PackageSortOrder::Desc),
        vec!["first first", "The first package", "Charles Diya", "The first Diva"]
    );
    assert_eq!(
        names(&store, PackageSortField::NewlyAdded, PackageSortOrder::Asc),
        vec!["The first Diva", "Charles Diya", "The first package", "first first"]
    );
    // without a query nothing is more relevant than anything else
    assert_eq!(
        names(&store, PackageSortField::Relevance, PackageSortOrder::Desc),
        vec!["The first package", "The first Diva", "Charles Diya", "first first"]
    );
    assert_eq!(names(&store, PackageSortField::Relevance, PackageSortOrder::Asc), names(&store, PackageSortField::Relevance, PackageSortOrder::Desc));
}

#[test]
fn sort_defaults() {
    assert_eq!(PackageSortField::default(), PackageSortField::Relevance);
    assert_eq!(PackageSortOrder::default(), PackageSortOrder::Desc);
}

// ---- errors ----------------------------------------------------------------

#[test]
fn every_error_has_its_message() {
    assert_eq!(Error::NotFound.message(), "record not found");
    assert_eq!(Error::DuplicateName.message(), "package name already exists");
    assert_eq!(Error::DuplicateRevision.message(), "revision already exists for this package");
    assert_eq!(Error::FetchFailed.message(), "repository metadata could not be fetched");
    assert_eq!(Error::StoreUnavailable.message(), "store unavailable");
    assert_eq!(Error::InvalidPage.message(), "page and page size must be at least 1");
}
