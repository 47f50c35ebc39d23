use xupg::package::AppInstallError;
use xupg::package::LocalFile;
use xupg::package::Package;
use xupg::package::SupportedPackages;
use xupg::package::Version;
use xupg::package::local_versions_from;
use xupg::package::parse_version_filename;
use xupg::text::u64_to_dec;

#[test]
fn package_starts_empty() {
    let p = Package::new(SupportedPackages::PHP);
    assert_eq!(p.get_name(), "PHP");
    assert!(!p.has_version("8.2.1"));
    assert!(p.get_version("8.2.1").is_none());
    assert_eq!(p.iter().len(), 0);
    assert_eq!(p.vec().len(), 0);
}

#[test]
fn add_version_then_lookup() {
    let mut p = Package::new(SupportedPackages::PHP);
    p.add_version(Version::new_local(
        "PHP".to_string(),
        "8.2.1".to_string(),
        "/d/php-8.2.1.zip".to_string(),
        12 * 1024 * 1024,
    ));
    assert!(p.has_version("8.2.1"));
    let v = p.get_version("8.2.1").unwrap();
    assert_eq!(v.get_name(), "PHP");
    assert_eq!(v.get_version(), "8.2.1");
    assert_eq!(v.get_location(), "/d/php-8.2.1.zip");
    assert_eq!(v.get_size(), "12 MB");
    assert!(v.is_offline());
    assert!(!p.has_version("8.2.2"));
}

#[test]
fn add_version_replaces_existing_key() {
    let mut p = Package::new(SupportedPackages::PHP);
    p.add_version(Version::new_online(
        "PHP".to_string(),
        "8.2.1".to_string(),
        "https://example.test/php-8.2.1.zip".to_string(),
        None,
    ));
    p.add_version(Version::new_local(
        "PHP".to_string(),
        "8.2.1".to_string(),
        "/d/php-8.2.1.zip".to_string(),
        3 * 1024 * 1024,
    ));
    assert_eq!(p.iter().len(), 1);
    let v = p.get_version("8.2.1").unwrap();
    assert!(v.is_offline());
    assert_eq!(v.get_location(), "/d/php-8.2.1.zip");
}

#[test]
fn remove_version_deletes_entry() {
    let mut p = Package::new(SupportedPackages::MySQL);
    p.add_version(Version::new_online(
        "MySQL".to_string(),
        "5.7".to_string(),
        "https://example.test/mysql-5.7.zip".to_string(),
        Some("10 MB".to_string()),
    ));
    assert!(p.has_version("5.7"));
    p.remove_version("5.7");
    assert!(!p.has_version("5.7"));
    p.remove_version("5.7");
    assert!(!p.has_version("5.7"));
}

#[test]
fn new_online_without_size_is_unknown() {
    let v = Version::new_online(
        "PHP".to_string(),
        "8.0.0".to_string(),
        "https://example.test/php-8.0.0.zip".to_string(),
        None,
    );
    assert_eq!(v.get_size(), "Unknown");
    assert!(!v.is_offline());
}

#[test]
fn local_size_uses_whole_megabytes() {
    let v = Version::new_local(
        "PHP".to_string(),
        "8.0.0".to_string(),
        "/d/php-8.0.0.zip".to_string(),
        12 * 1024 * 1024 + 700,
    );
    assert_eq!(v.get_size(), "12 MB");
    let small = Version::new_local(
        "PHP".to_string(),
        "8.0.1".to_string(),
        "/d/php-8.0.1.zip".to_string(),
        5,
    );
    assert_eq!(small.get_size(), "0 MB");
}

#[test]
fn decimal_rendering() {
    assert_eq!(u64_to_dec(0), "0");
    assert_eq!(u64_to_dec(7), "7");
    assert_eq!(u64_to_dec(10), "10");
    assert_eq!(u64_to_dec(1234567), "1234567");
    assert_eq!(u64_to_dec(u64::MAX), "18446744073709551615");
}

#[test]
fn filename_version_plain() {
    assert_eq!(parse_version_filename("php-8.2.1.zip"), Some("8.2.1".to_string()));
}

#[test]
fn filename_version_with_directory() {
    assert_eq!(
        parse_version_filename("/home/u/.xupg/module/downloads/php/php-8.2.1.zip"),
        Some("8.2.1".to_string())
    );
}

#[test]
fn filename_version_second_token_only() {
    assert_eq!(parse_version_filename("php-8-win.zip"), Some("8".to_string()));
}

#[test]
fn filename_without_hyphen_is_unrecognized() {
    assert_eq!(parse_version_filename("archive.zip"), None);
}

#[test]
fn filename_without_extension_is_unrecognized() {
    assert_eq!(parse_version_filename("php-8"), None);
    assert_eq!(parse_version_filename(".zip"), None);
}

#[test]
fn scan_splits_recognized_and_unrecognized() {
    let files = vec![
        LocalFile { path: "/d/php-8.2.1.zip".to_string(), size_bytes: 12 * 1024 * 1024 },
        LocalFile { path: "/d/notes.txt".to_string(), size_bytes: 10 },
        LocalFile { path: "/d/php-7.4.33.zip".to_string(), size_bytes: 9 * 1024 * 1024 },
    ];
    let scan = local_versions_from("PHP", &files);
    assert_eq!(scan.versions.len(), 2);
    assert_eq!(scan.versions[0].get_version(), "8.2.1");
    assert_eq!(scan.versions[0].get_location(), "/d/php-8.2.1.zip");
    assert_eq!(scan.versions[0].get_size(), "12 MB");
    assert!(scan.versions[0].is_offline());
    assert_eq!(scan.versions[1].get_version(), "7.4.33");
    assert_eq!(scan.unrecognized, vec!["/d/notes.txt".to_string()]);
}

#[test]
fn loading_same_scan_twice_changes_nothing() {
    let files = vec![
        LocalFile { path: "/d/php-8.2.1.zip".to_string(), size_bytes: 12 * 1024 * 1024 },
        LocalFile { path: "/d/php-7.4.33.zip".to_string(), size_bytes: 9 * 1024 * 1024 },
    ];
    let mut once = Package::new(SupportedPackages::PHP);
    once.add_versions(local_versions_from("PHP", &files).versions);
    let mut twice = Package::new(SupportedPackages::PHP);
    twice.add_versions(local_versions_from("PHP", &files).versions);
    twice.add_versions(local_versions_from("PHP", &files).versions);
    assert_eq!(once.iter().len(), twice.iter().len());
    for (version, record) in once.iter() {
        let other = twice.get_version(version.as_str()).unwrap();
        assert_eq!(other.get_version(), record.get_version());
        assert_eq!(other.get_location(), record.get_location());
        assert_eq!(other.get_size(), record.get_size());
        assert_eq!(other.is_offline(), record.is_offline());
    }
}

#[test]
fn error_messages() {
    assert_eq!(
        AppInstallError::PathDoesNotExist("/tmp/x".to_string()).message(),
        "Path /tmp/x does not exist"
    );
    assert_eq!(
        AppInstallError::VersionNotAvailable("9.9.9".to_string()).message(),
        "Version 9.9.9 is not available"
    );
    assert_eq!(
        AppInstallError::UnAvailableOffline.message(),
        "Version is not available offline"
    );
    assert_eq!(AppInstallError::InstallFailed.message(), "Installation failed");
}

#[test]
fn supported_packages_names() {
    assert_eq!(SupportedPackages::PHP.get_name(), "PHP");
    assert_eq!(SupportedPackages::MySQL.get_name(), "MySQL");
    assert_eq!(SupportedPackages::PHPMyAdmin.get_name(), "PHPMyAdmin");
    assert_eq!(SupportedPackages::PHP.get_name_lower(), "php");
    assert_eq!(SupportedPackages::PHPMyAdmin.get_name_lower(), "phpmyadmin");
    assert_eq!(SupportedPackages::MySQL.get_name_upper(), "MYSQL");
    assert_eq!(SupportedPackages::iter().len(), 3);
}
