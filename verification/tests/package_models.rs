use package_registry::downloads::DownloadOutcome;
use package_registry::error::Error;
use package_registry::models::{
    GithubRepoData, Package, PackageSortField, PackageSortOrder, PackageVersion,
    PackageVersionSort,
};
use package_registry::store::Registry;

const NOW: i64 = 1_650_000_000;

fn repo_data(name: &str, version: &str, readme_content: &str) -> GithubRepoData {
    GithubRepoData {
        name: name.to_string(),
        version: version.to_string(),
        readme_content: readme_content.to_string(),
        description: "".to_string(),
        size: 0,
        url: "".to_string(),
        rev: "".to_string(),
    }
}

fn setup(store: &mut Registry) -> Result<(), Error> {
    Package::create_test_package(
        &"The first package".to_string(),
        &"".to_string(),
        &"description 1".to_string(),
        &"1.0.0".to_string(),
        &"".to_string(),
        &"".to_string(),
        0,
        0,
        None,
        NOW,
        store,
    )?;
    Package::create_test_package(
        &"The first Diva".to_string(),
        &"".to_string(),
        &"randomly picked, and changes some".to_string(),
        &"1.0.0".to_string(),
        &"".to_string(),
        &"".to_string(),
        0,
        0,
        None,
        NOW,
        store,
    )?;
    Package::create_test_package(
        &"Charles Diya".to_string(),
        &"".to_string(),
        &"randomly picked, and changes some".to_string(),
        &"1.0.0".to_string(),
        &"".to_string(),
        &"".to_string(),
        0,
        0,
        None,
        NOW,
        store,
    )?;
    Ok(())
}

fn setup_numbered(store: &mut Registry) -> Result<(), Error> {
    Package::create_test_package(
        &"The first package 1".to_string(),
        &"".to_string(),
        &"description 1".to_string(),
        &"1.0.0".to_string(),
        &"".to_string(),
        &"".to_string(),
        0,
        0,
        None,
        NOW,
        store,
    )?;
    Package::create_test_package(
        &"The first Diva".to_string(),
        &"".to_string(),
        &"randomly picked, and changes some".to_string(),
        &"1.0.0".to_string(),
        &"".to_string(),
        &"".to_string(),
        0,
        0,
        None,
        NOW,
        store,
    )?;
    Package::create_test_package(
        &"Charles Diya".to_string(),
        &"".to_string(),
        &"randomly picked, and changes some".to_string(),
        &"1.0.0".to_string(),
        &"".to_string(),
        &"".to_string(),
        0,
        0,
        None,
        NOW,
        store,
    )?;
    Ok(())
}

/// Takes a download as a service would: asks the store, and fetches only
/// where the store says so.
fn record_download(
    url: &String,
    rev: &String,
    subdir: &String,
    fetched: GithubRepoData,
    store: &mut Registry,
) -> Result<i32, Error> {
    match Package::increase_download_count(url, rev, subdir, store)? {
        DownloadOutcome::Counted(count) => Ok(count),
        DownloadOutcome::FetchNeeded(_) => {
            Package::complete_download(url, rev, Ok(fetched), NOW, store)
        }
    }
}

#[test]
fn models_search_by_single_word_works() {
    let mut store = Registry::new();
    setup_numbered(&mut store).unwrap();
    let search_query = "package";
    let (search_result, _total_count, _total_pages) = Package::search(
        search_query,
        &PackageSortField::Relevance,
        &PackageSortOrder::Desc,
        None,
        None,
        &store,
    )
    .unwrap();
    assert_eq!(search_result.len(), 1);
    let mut is_found = false;
    for package in search_result.iter() {
        if package.name == "The first package 1" {
            is_found = true;
        }
        if package.name == "Charles Diya" {
            panic!()
        }
    }
    assert!(is_found)
}

#[test]
fn models_search_by_multiple_words_works() {
    let mut store = Registry::new();
    setup_numbered(&mut store).unwrap();
    let search_query = "the package";
    let (search_result, _total_count, _total_pages) = Package::search(
        search_query,
        &PackageSortField::Relevance,
        &PackageSortOrder::Desc,
        None,
        None,
        &store,
    )
    .unwrap();
    assert_eq!(search_result.len(), 1);
    let mut is_found = false;
    for package in search_result.iter() {
        if package.name == "The first package 1" {
            is_found = true;
        }
        if package.name == "Charles Diya" {
            panic!()
        }
    }
    assert!(is_found)
}

#[test]
fn models_search_return_multiple_result() {
    let mut store = Registry::new();
    setup_numbered(&mut store).unwrap();
    let search_query = "first";
    let (search_result, _total_count, _total_pages) = Package::search(
        search_query,
        &PackageSortField::Relevance,
        &PackageSortOrder::Desc,
        None,
        None,
        &store,
    )
    .unwrap();
    assert_eq!(search_result.len(), 2);
    for package in search_result.iter() {
        if package.name != "The first package 1" && package.name != "The first Diva" {
            panic!()
        }
        if package.name == "Charles Diya" {
            panic!()
        }
    }
}

#[test]
fn models_create_package_works() {
    let mut store = Registry::new();
    let uid = Package::create(
        &"repo_url".to_string(),
        &"package_description".to_string(),
        &"1".to_string(),
        2,
        100,
        None,
        Ok(repo_data("name", "version", "readme_content")),
        NOW,
        &mut store,
    )
    .unwrap();

    let package = Package::get(uid, &store).unwrap();
    assert_eq!(package.name, "name");
    assert_eq!(package.description, "package_description");

    let package_version =
        &PackageVersion::from_package_id(uid, &PackageVersionSort::Latest, &store).unwrap()[0];
    assert_eq!(package_version.version, "version");
    match &package_version.readme_content {
        Some(content) => {
            assert_eq!(content, "readme_content");
        }
        None => {
            panic!("readme content is wrong")
        }
    }
}

#[test]
fn models_get_versions_by_latest() {
    let mut store = Registry::new();
    let uid = Package::create(
        &"repo_url".to_string(),
        &"package_description".to_string(),
        &"1".to_string(),
        2,
        100,
        None,
        Ok(repo_data("name", "first_version", "first_readme_content")),
        NOW,
        &mut store,
    )
    .unwrap();

    PackageVersion::create(
        uid,
        "second_version".to_string(),
        "second_readme_content".to_string(),
        "2".to_string(),
        2,
        100,
        NOW,
        &mut store,
    )
    .unwrap();

    let versions =
        PackageVersion::from_package_id(uid, &PackageVersionSort::Latest, &store).unwrap();

    assert_eq!(versions.len(), 2);
    assert_eq!(versions[0].version, "second_version");
    assert_eq!(versions[1].version, "first_version");
}

#[test]
fn models_get_versions_by_oldest() {
    let mut store = Registry::new();
    let uid = Package::create(
        &"repo_url".to_string(),
        &"package_description".to_string(),
        &"1".to_string(),
        2,
        3,
        None,
        Ok(repo_data("name", "first_version", "first_readme_content")),
        NOW,
        &mut store,
    )
    .unwrap();

    PackageVersion::create(
        uid,
        "second_version".to_string(),
        "second_readme_content".to_string(),
        "2".to_string(),
        2,
        3,
        NOW,
        &mut store,
    )
    .unwrap();

    let versions =
        PackageVersion::from_package_id(uid, &PackageVersionSort::Oldest, &store).unwrap();

    assert_eq!(versions.len(), 2);
    assert_eq!(versions[0].version, "first_version");
    assert_eq!(versions[1].version, "second_version");
}

#[test]
fn models_get_versions_by_most_downloads() {
    let mut store = Registry::new();
    let uid = Package::create(
        &"repo_url".to_string(),
        &"package_description".to_string(),
        &"1".to_string(),
        2,
        3,
        None,
        Ok(repo_data("name", "first_version", "first_readme_content")),
        NOW,
        &mut store,
    )
    .unwrap();

    let version_2 = PackageVersion::create(
        uid,
        "second_version".to_string(),
        "second_readme_content".to_string(),
        "5".to_string(),
        2,
        3,
        NOW,
        &mut store,
    )
    .unwrap();
    for _ in 0..5 {
        store.increment_version_downloads(version_2.id).unwrap();
    }

    let versions =
        PackageVersion::from_package_id(uid, &PackageVersionSort::MostDownloads, &store).unwrap();

    assert_eq!(versions.len(), 2);
    assert_eq!(versions[0].version, "second_version");
    assert_eq!(versions[1].version, "first_version");
}

#[test]
fn tests_search_by_single_word_works() {
    let mut store = Registry::new();
    setup(&mut store).unwrap();
    let search_query = "package";
    let (search_result, total_count, total_pages) = Package::search(
        search_query,
        &PackageSortField::Name,
        &PackageSortOrder::Desc,
        Some(1),
        None,
        &store,
    )
    .unwrap();
    assert_eq!(total_count, 1);
    assert_eq!(total_pages, 1);
    assert_eq!(search_result[0].name, "The first package");
}

#[test]
fn tests_search_by_multiple_words_works() {
    let mut store = Registry::new();
    setup(&mut store).unwrap();
    let search_query = "the package";
    let (search_result, total_count, total_pages) = Package::search(
        search_query,
        &PackageSortField::Name,
        &PackageSortOrder::Desc,
        Some(1),
        None,
        &store,
    )
    .unwrap();
    assert_eq!(total_count, 1);
    assert_eq!(total_pages, 1);
    assert_eq!(search_result[0].name, "The first package");
}

#[test]
fn tests_search_return_multiple_result() {
    let mut store = Registry::new();
    setup(&mut store).unwrap();
    let search_query = "first";
    let (search_result, total_count, total_pages) = Package::search(
        search_query,
        &PackageSortField::Name,
        &PackageSortOrder::Desc,
        Some(1),
        Some(1),
        &store,
    )
    .unwrap();
    assert_eq!(total_count, 2);
    assert_eq!(total_pages, 2);

    assert_eq!(search_result.len(), 1);
    assert_eq!(search_result[0].name, "The first package");

    let (search_result, _total_count, _total_pages) = Package::search(
        search_query,
        &PackageSortField::Name,
        &PackageSortOrder::Desc,
        Some(2),
        Some(1),
        &store,
    )
    .unwrap();
    assert_eq!(search_result.len(), 1);
    assert_eq!(search_result[0].name, "The first Diva");
}

#[test]
fn all_packages_with_pagination() {
    let mut store = Registry::new();
    setup(&mut store).unwrap();
    let (search_result, total_count, total_pages) = Package::all_packages(
        &PackageSortField::Name,
        &PackageSortOrder::Desc,
        Some(1),
        Some(2),
        &store,
    )
    .unwrap();
    assert_eq!(total_count, 3);
    assert_eq!(total_pages, 2);

    assert_eq!(search_result.len(), 2);
    assert_eq!(search_result[0].name, "The first package");
    assert_eq!(search_result[1].name, "The first Diva");

    let (search_result, _total_count, _total_pages) = Package::all_packages(
        &PackageSortField::Name,
        &PackageSortOrder::Desc,
        Some(2),
        Some(2),
        &store,
    )
    .unwrap();
    assert_eq!(search_result.len(), 1);
    assert_eq!(search_result[0].name, "Charles Diya");
}

#[test]
fn tests_create_package_works() {
    let mut store = Registry::new();
    let account = 7;

    let fetch = Package::fetch_request(&"repo_url".to_string(), None);
    assert_eq!(fetch.repository_url, "repo_url");
    assert!(fetch.rev.is_none() && fetch.subdir.is_none());

    let uid = Package::create(
        &"repo_url".to_string(),
        &"package_description".to_string(),
        &"1".to_string(),
        2,
        100,
        Some(account),
        Ok(repo_data("name", "version", "readme_content")),
        NOW,
        &mut store,
    )
    .unwrap();

    let package = Package::get(uid, &store).unwrap();
    assert_eq!(package.name, "name");
    assert_eq!(package.description, "package_description");

    let package_version =
        &PackageVersion::from_package_id(uid, &PackageVersionSort::Latest, &store).unwrap()[0];
    assert_eq!(package_version.version, "version");
    match &package_version.readme_content {
        Some(content) => {
            assert_eq!(content, "readme_content");
        }
        None => {
            panic!("readme content is wrong")
        }
    }

    // No new version is created when another account registers the revision again.
    let uid = Package::create(
        &"repo_url".to_string(),
        &"package_description".to_string(),
        &"1".to_string(),
        2,
        100,
        None,
        Ok(repo_data("name", "version_2", "readme_content")),
        NOW,
        &mut store,
    )
    .unwrap();

    assert_eq!(package.id, uid);
    let versions =
        PackageVersion::from_package_id(uid, &PackageVersionSort::Latest, &store).unwrap();

    assert_eq!(versions.len(), 1);
    assert_eq!(Package::get(uid, &store).unwrap().account_id, Some(account));
}

#[test]
fn tests_get_versions_by_latest() {
    let mut store = Registry::new();
    let uid = Package::create(
        &"repo_url".to_string(),
        &"package_description".to_string(),
        &"1".to_string(),
        2,
        100,
        None,
        Ok(repo_data("name", "first_version", "first_readme_content")),
        NOW,
        &mut store,
    )
    .unwrap();

    PackageVersion::create(
        uid,
        "second_version".to_string(),
        "second_readme_content".to_string(),
        "2".to_string(),
        2,
        100,
        NOW,
        &mut store,
    )
    .unwrap();

    let versions =
        PackageVersion::from_package_id(uid, &PackageVersionSort::Latest, &store).unwrap();

    assert_eq!(versions.len(), 2);
    assert_eq!(versions[0].version, "second_version");
    assert_eq!(versions[1].version, "first_version");
}

#[test]
fn tests_get_versions_by_oldest() {
    let mut store = Registry::new();
    let uid = Package::create(
        &"repo_url".to_string(),
        &"package_description".to_string(),
        &"1".to_string(),
        2,
        3,
        None,
        Ok(repo_data("name", "first_version", "first_readme_content")),
        NOW,
        &mut store,
    )
    .unwrap();

    PackageVersion::create(
        uid,
        "second_version".to_string(),
        "second_readme_content".to_string(),
        "2".to_string(),
        2,
        3,
        NOW,
        &mut store,
    )
    .unwrap();

    let versions =
        PackageVersion::from_package_id(uid, &PackageVersionSort::Oldest, &store).unwrap();

    assert_eq!(versions.len(), 2);
    assert_eq!(versions[0].version, "first_version");
    assert_eq!(versions[1].version, "second_version");
}

#[test]
fn tests_get_versions_by_most_downloads() {
    let mut store = Registry::new();
    let uid = Package::create(
        &"repo_url".to_string(),
        &"package_description".to_string(),
        &"1".to_string(),
        2,
        3,
        None,
        Ok(repo_data("name", "first_version", "first_readme_content")),
        NOW,
        &mut store,
    )
    .unwrap();

    let version_2 = PackageVersion::create(
        uid,
        "second_version".to_string(),
        "second_readme_content".to_string(),
        "5".to_string(),
        2,
        3,
        NOW,
        &mut store,
    )
    .unwrap();
    for _ in 0..5 {
        store.increment_version_downloads(version_2.id).unwrap();
    }

    let versions =
        PackageVersion::from_package_id(uid, &PackageVersionSort::MostDownloads, &store).unwrap();

    assert_eq!(versions.len(), 2);
    assert_eq!(versions[0].version, "second_version");
    assert_eq!(versions[0].downloads_count, 5);
    assert_eq!(versions[1].version, "first_version");
}

#[test]
fn count_package_works() {
    let mut store = Registry::new();

    assert_eq!(Package::count(&store), 0);
    assert_eq!(PackageVersion::count(&store), 0);
    setup(&mut store).unwrap();

    assert_eq!(Package::count(&store), 3);
    assert_eq!(PackageVersion::count(&store), 3);

    PackageVersion::create(
        1,
        "second_version".to_string(),
        "second_readme_content".to_string(),
        "rev_2".to_string(),
        2,
        100,
        NOW,
        &mut store,
    )
    .unwrap();
    assert_eq!(PackageVersion::count(&store), 4);
}

#[test]
fn increase_download_count_works() {
    let mut store = Registry::new();

    let url = &"https://github.com/eadungn/taohe".to_string();
    let rev_ = &"30d4792b29330cf701af04b493a38a82102ed4fd".to_string();
    let package_id_ = Package::create_test_package(
        &"Test package".to_string(),
        url,
        &"".to_string(),
        &"1.0.0".to_string(),
        &"".to_string(),
        rev_,
        20,
        100,
        None,
        NOW,
        &mut store,
    )
    .unwrap();

    let package_versions_before =
        PackageVersion::from_package_id(package_id_, &PackageVersionSort::Latest, &store)
            .unwrap();
    let package_version_before = package_versions_before.first().unwrap();
    assert_eq!(package_version_before.downloads_count, 0);

    let fetched = || repo_data("name", "1.0.0", "first_readme_content");

    record_download(url, rev_, &String::new(), fetched(), &mut store).unwrap();
    record_download(url, rev_, &String::new(), fetched(), &mut store).unwrap();
    let package_versions_after =
        PackageVersion::from_package_id(package_id_, &PackageVersionSort::Latest, &store)
            .unwrap();
    let package_version_after = package_versions_after.first().unwrap();
    assert_eq!(package_version_after.downloads_count, 2);

    let _ = record_download(
        &"git@github.com:eadungn/taohe.git".to_string(),
        rev_,
        &String::new(),
        fetched(),
        &mut store,
    );
    let package_versions_after =
        PackageVersion::from_package_id(package_id_, &PackageVersionSort::Latest, &store)
            .unwrap();
    let package_version_after = package_versions_after.first().unwrap();
    assert_eq!(package_version_after.downloads_count, 3);
}

#[test]
fn increase_download_count_for_nonexistent_package() {
    let mut store = Registry::new();

    let url = &"https://github.com/eadungn/taohe".to_string();
    let rev_ = &"30d4792b29330cf701af04b493a38a82102ed4fd".to_string();

    let fetched = || repo_data("name", "first_version", "first_readme_content");

    let rev_not_existed = PackageVersion::from_package_id(1, &PackageVersionSort::Latest, &store)
        .unwrap()
        .iter()
        .filter(|version| version.rev.as_ref() == Some(rev_))
        .count();
    assert_eq!(rev_not_existed, 0);

    let package_before = Package::count(&store);
    let package_version_before = PackageVersion::count(&store);
    assert_eq!(package_before, 0);
    assert_eq!(package_version_before, 0);

    record_download(url, rev_, &String::new(), fetched(), &mut store).unwrap();
    record_download(url, rev_, &String::new(), fetched(), &mut store).unwrap();

    let package_after = Package::count(&store);
    let package_version_after = PackageVersion::count(&store);
    assert_eq!(package_after, 1);
    assert_eq!(package_version_after, 1);

    let rev_existed = PackageVersion::from_package_id(1, &PackageVersionSort::Latest, &store)
        .unwrap()
        .iter()
        .filter(|version| version.rev.as_ref() == Some(rev_))
        .count();
    assert_eq!(rev_existed, 1);
}

#[test]
fn increase_download_count_for_multiple_versions() {
    let mut store = Registry::new();

    let url = "https://github.com/eadungn/taohe".to_string();
    let rev1 = "30d4792b29330cf701af04b493a38a82102ed4fd".to_string();
    let rev2 = "fe66d6c60a3765c322edbcfa9b63650593971a28".to_string();
    let package_id_ = Package::create_test_package(
        &"Test package".to_string(),
        &url,
        &"".to_string(),
        &"1.0.0".to_string(),
        &"".to_string(),
        &rev1,
        20,
        100,
        None,
        NOW,
        &mut store,
    )
    .unwrap();
    PackageVersion::create(
        package_id_,
        String::from("1.0.0"),
        String::from(""),
        rev2.clone(),
        40,
        200,
        NOW,
        &mut store,
    )
    .unwrap();

    let fetched = || repo_data("name", "1.0.0", "first_readme_content");

    let package_versions_before =
        PackageVersion::from_package_id(package_id_, &PackageVersionSort::Latest, &store)
            .unwrap();
    for package_version_before in package_versions_before {
        assert_eq!(package_version_before.downloads_count, 0);
    }
    record_download(&url, &rev1, &String::new(), fetched(), &mut store).unwrap();
    record_download(&url, &rev2, &String::new(), fetched(), &mut store).unwrap();
    let package_versions_after =
        PackageVersion::from_package_id(package_id_, &PackageVersionSort::Latest, &store)
            .unwrap();
    for package_version_after in package_versions_after {
        assert_eq!(package_version_after.downloads_count, 1);
    }
    let package_total_downloads = Package::get(package_id_, &store)
        .unwrap()
        .total_downloads_count;
    assert_eq!(package_total_downloads, 2);

    record_download(
        &"git@github.com:eadungn/taohe.git".to_string(),
        &rev2,
        &String::new(),
        fetched(),
        &mut store,
    )
    .unwrap();
    let package_versions_after =
        PackageVersion::from_package_id(package_id_, &PackageVersionSort::Latest, &store)
            .unwrap();
    let first_package_version_after = package_versions_after.first().unwrap();
    assert_eq!(first_package_version_after.downloads_count, 2);
    let second_package_version_after = package_versions_after.last().unwrap();
    assert_eq!(second_package_version_after.downloads_count, 1);
    let package_total_downloads = Package::get(1, &store).unwrap().total_downloads_count;
    assert_eq!(package_total_downloads, 3);
}
