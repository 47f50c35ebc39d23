use xupg::api::resolve;
use xupg::api::Platform;
use xupg::api::ReleaseInfo;
use xupg::api::Releases;
use xupg::api::ToolVersions;
use xupg::commands::column_widths;
use xupg::commands::get_app;
use xupg::commands::get_app_list;
use xupg::commands::platform_from_os;
use xupg::commands::sort_rows_desc;
use xupg::commands::xampp_php_path;
use xupg::file::download_dir_under;
use xupg::package::SupportedPackages;
use xupg::package::Version;

fn sample_catalog() -> Releases {
    let mut tool = ToolVersions::new();
    tool.insert(
        "8.1.0".to_string(),
        ReleaseInfo::new("https://example.test/php-8.1.0.zip".to_string(), "2021-11-25".to_string()),
    );
    tool.insert(
        "8.2.1".to_string(),
        ReleaseInfo::new("https://example.test/php-8.2.1.zip".to_string(), "2023-01-05".to_string()),
    );
    tool.insert(
        "7.4.33".to_string(),
        ReleaseInfo::new("https://example.test/php-7.4.33.zip".to_string(), "2022-11-03".to_string()),
    );
    let mut platform = Platform::new();
    platform.insert("php".to_string(), tool);
    let mut releases = Releases::new();
    releases.insert("linux".to_string(), platform);
    releases
}

#[test]
fn resolve_finds_the_release() {
    let c = sample_catalog();
    let info = resolve(&c, "linux", "php", "8.2.1").unwrap();
    assert_eq!(info.url, "https://example.test/php-8.2.1.zip");
    assert_eq!(info.release_date, "2023-01-05");
}

#[test]
fn resolve_misses_are_none_not_errors() {
    let c = sample_catalog();
    assert!(resolve(&c, "windows", "php", "8.2.1").is_none());
    assert!(resolve(&c, "linux", "mysql", "8.2.1").is_none());
    assert!(resolve(&c, "linux", "php", "9.9.9").is_none());
}

#[test]
fn platform_classification() {
    assert_eq!(platform_from_os("linux"), Some("linux".to_string()));
    assert_eq!(platform_from_os("windows"), Some("windows".to_string()));
    assert_eq!(platform_from_os("macos"), Some("macos".to_string()));
    assert_eq!(platform_from_os("freebsd"), None);
    assert_eq!(platform_from_os(""), None);
}

#[test]
fn sorting_is_descending_and_repeatable() {
    let rows = vec![
        ("8.1.0".to_string(), "a".to_string()),
        ("8.2.1".to_string(), "b".to_string()),
        ("7.4.33".to_string(), "c".to_string()),
    ];
    let once = sort_rows_desc(&rows);
    assert_eq!(once[0].0, "8.2.1");
    assert_eq!(once[1].0, "8.1.0");
    assert_eq!(once[2].0, "7.4.33");
    let twice = sort_rows_desc(&once);
    assert_eq!(once, twice);
}

#[test]
fn sorting_keeps_equal_keys_in_order() {
    let rows = vec![
        ("1.0".to_string(), "first".to_string()),
        ("2.0".to_string(), "top".to_string()),
        ("1.0".to_string(), "second".to_string()),
    ];
    let sorted = sort_rows_desc(&rows);
    assert_eq!(sorted[0].1, "top");
    assert_eq!(sorted[1].1, "first");
    assert_eq!(sorted[2].1, "second");
}

#[test]
fn online_listing_is_sorted_newest_first() {
    let c = sample_catalog();
    let local: Vec<Version> = Vec::new();
    let (headers, rows) = get_app_list(
        &SupportedPackages::PHP,
        true,
        Some("linux"),
        Some(&c),
        &local,
    )
    .unwrap();
    assert_eq!(headers.0, "Version");
    assert_eq!(headers.1, "Release Date");
    assert_eq!(rows.len(), 3);
    assert_eq!(rows[0], ("8.2.1".to_string(), "2023-01-05".to_string()));
    assert_eq!(rows[1], ("8.1.0".to_string(), "2021-11-25".to_string()));
    assert_eq!(rows[2], ("7.4.33".to_string(), "2022-11-03".to_string()));
}

#[test]
fn offline_listing_shows_locations() {
    let local = vec![
        Version::new_local(
            "PHP".to_string(),
            "8.2.1".to_string(),
            "/d/php-8.2.1.zip".to_string(),
            12 * 1024 * 1024,
        ),
    ];
    let (headers, rows) = get_app_list(&SupportedPackages::PHP, false, Some("linux"), None, &local)
        .unwrap();
    assert_eq!(headers.0, "Version");
    assert_eq!(headers.1, "Location");
    assert_eq!(rows, vec![("8.2.1".to_string(), "/d/php-8.2.1.zip".to_string())]);
}

#[test]
fn listing_errors_name_their_cause() {
    let c = sample_catalog();
    let local: Vec<Version> = Vec::new();
    assert_eq!(
        get_app_list(&SupportedPackages::PHP, true, None, Some(&c), &local).unwrap_err(),
        "Platform not supported"
    );
    assert_eq!(
        get_app_list(&SupportedPackages::PHP, true, Some("linux"), None, &local).unwrap_err(),
        "Failed to fetch data"
    );
    assert_eq!(
        get_app_list(&SupportedPackages::PHP, true, Some("macos"), Some(&c), &local).unwrap_err(),
        "Platform not supported"
    );
    assert_eq!(
        get_app_list(&SupportedPackages::MySQL, true, Some("linux"), Some(&c), &local)
            .unwrap_err(),
        "MYSQL not available for this platform"
    );
}

#[test]
fn download_planning_builds_one_task_per_version() {
    let c = sample_catalog();
    let versions = vec!["8.2.1".to_string(), "7.4.33".to_string()];
    let outcomes = get_app(
        &SupportedPackages::PHP,
        &versions,
        Some("linux"),
        Some(&c),
        Some("/nonexistent-home-for-tests"),
    )
    .unwrap();
    assert_eq!(outcomes.len(), 2);
    let first = outcomes[0].as_ref().unwrap();
    assert_eq!(first.url, "https://example.test/php-8.2.1.zip");
    assert_eq!(
        first.dest,
        "/nonexistent-home-for-tests/.xupg/module/downloads/php/php-8.2.1.zip"
    );
    let second = outcomes[1].as_ref().unwrap();
    assert_eq!(second.url, "https://example.test/php-7.4.33.zip");
    assert_eq!(
        second.dest,
        "/nonexistent-home-for-tests/.xupg/module/downloads/php/php-7.4.33.zip"
    );
}

#[test]
fn download_planning_is_best_effort_per_version() {
    let c = sample_catalog();
    let versions = vec!["9.9.9".to_string(), "8.2.1".to_string(), "8.8.8".to_string()];
    let outcomes = get_app(
        &SupportedPackages::PHP,
        &versions,
        Some("linux"),
        Some(&c),
        Some("/nonexistent-home-for-tests"),
    )
    .unwrap();
    assert_eq!(outcomes.len(), 3);
    assert_eq!(outcomes[0].as_ref().unwrap_err(), "Version not available 9.9.9");
    let task = outcomes[1].as_ref().unwrap();
    assert_eq!(task.url, "https://example.test/php-8.2.1.zip");
    assert_eq!(outcomes[2].as_ref().unwrap_err(), "Version not available 8.8.8");
}

#[test]
fn download_planning_errors_name_their_cause() {
    let c = sample_catalog();
    let versions = vec!["9.9.9".to_string()];
    let outcomes = get_app(&SupportedPackages::PHP, &versions, Some("linux"), Some(&c), Some("/h"))
        .unwrap();
    assert_eq!(outcomes.len(), 1);
    assert_eq!(outcomes[0].as_ref().unwrap_err(), "Version not available 9.9.9");
    let none: Vec<String> = Vec::new();
    assert_eq!(
        get_app(&SupportedPackages::PHP, &none, Some("linux"), Some(&c), Some("/h")).unwrap_err(),
        "No files to download"
    );
    assert_eq!(
        get_app(&SupportedPackages::PHP, &none, Some("linux"), Some(&c), None).unwrap_err(),
        "Could not determine home directory"
    );
    assert_eq!(
        get_app(&SupportedPackages::PHP, &none, None, Some(&c), Some("/h")).unwrap_err(),
        "Platform not supported"
    );
}

#[test]
fn download_planning_refuses_addresses_without_extension() {
    let mut tool = ToolVersions::new();
    tool.insert(
        "1.0".to_string(),
        ReleaseInfo::new("https://example.test/noext".to_string(), "2020-01-01".to_string()),
    );
    let mut platform = Platform::new();
    platform.insert("php".to_string(), tool);
    let mut releases = Releases::new();
    releases.insert("linux".to_string(), platform);
    let versions = vec!["1.0".to_string()];
    let outcomes = get_app(
        &SupportedPackages::PHP,
        &versions,
        Some("linux"),
        Some(&releases),
        Some("/h"),
    )
    .unwrap();
    assert_eq!(
        outcomes[0].as_ref().unwrap_err(),
        "Invalid download URL https://example.test/noext"
    );
}

#[test]
fn xampp_default_target_sits_under_the_root() {
    assert_eq!(xampp_php_path("/home/u"), "//xampp/php");
    assert_eq!(xampp_php_path("relative/home"), "/xampp/php");
    assert_eq!(xampp_php_path(""), "/xampp/php");
}

#[test]
fn download_dir_layout() {
    assert_eq!(
        download_dir_under("/home/u", "php"),
        "/home/u/.xupg/module/downloads/php"
    );
}

#[test]
fn column_widths_track_the_longest_cell() {
    let headers = ("Version".to_string(), "Release Date".to_string());
    let rows = vec![
        ("8.2.1".to_string(), "2023-01-05".to_string()),
        ("10.11.12".to_string(), "2024-02-03".to_string()),
    ];
    let (w0, w1) = column_widths(&headers, &rows);
    assert_eq!(w0, 8);
    assert_eq!(w1, 12);
    let empty: Vec<(String, String)> = Vec::new();
    assert_eq!(column_widths(&headers, &empty), (7, 12));
}
