use xupg::package::AppInstallError;
use xupg::package::Package;
use xupg::package::SupportedPackages;
use xupg::package::Version;

fn registry_with_local_821() -> Package {
    let mut p = Package::new(SupportedPackages::PHP);
    p.add_version(Version::new_local(
        "PHP".to_string(),
        "8.2.1".to_string(),
        "php-8.2.1.zip".to_string(),
        12 * 1024 * 1024,
    ));
    p
}

#[test]
fn unknown_version_is_refused() {
    let p = registry_with_local_821();
    let r = p.install_version("9.9.9", "/tmp/out", false);
    match r {
        Err(AppInstallError::VersionNotAvailable(v)) => assert_eq!(v, "9.9.9"),
        _ => panic!("expected the version to be refused"),
    }
}

#[test]
fn version_check_comes_before_path_check() {
    let p = registry_with_local_821();
    let r = p.install_version("9.9.9", "/surely/not/a/real/path/anywhere", false);
    assert!(matches!(r, Err(AppInstallError::VersionNotAvailable(_))));
    assert!(!matches!(r, Err(AppInstallError::PathDoesNotExist(_))));
}

#[test]
fn missing_target_path_is_refused() {
    let p = registry_with_local_821();
    let r = p.install_version("8.2.1", "/surely/not/a/real/path/anywhere", false);
    match r {
        Err(AppInstallError::PathDoesNotExist(path)) => {
            assert_eq!(path, "/surely/not/a/real/path/anywhere");
        },
        _ => panic!("expected the path to be refused"),
    }
}

#[test]
fn local_version_with_existing_target_yields_job() {
    let p = registry_with_local_821();
    let r = p.install_version("8.2.1", ".", false);
    match r {
        Ok(job) => {
            assert_eq!(job.archive, "php-8.2.1.zip");
            assert_eq!(job.target, ".");
            assert!(!job.with_progress);
        },
        Err(_) => panic!("expected a job"),
    }
}

#[test]
fn progress_flag_is_kept() {
    let p = registry_with_local_821();
    let job = p.install_version("8.2.1", ".", true).unwrap();
    assert!(job.with_progress);
}

#[test]
fn remote_version_is_unavailable_offline() {
    let mut p = Package::new(SupportedPackages::PHP);
    p.add_version(Version::new_online(
        "PHP".to_string(),
        "8.3.0".to_string(),
        "https://example.test/php-8.3.0.zip".to_string(),
        None,
    ));
    let r = p.install_version("8.3.0", ".", false);
    assert!(matches!(r, Err(AppInstallError::UnAvailableOffline)));
}

#[test]
fn install_plan_orders_its_checks() {
    let p = registry_with_local_821();
    assert!(matches!(
        p.install_plan("9.9.9", "/tmp/out", false, false),
        Err(AppInstallError::VersionNotAvailable(_))
    ));
    assert!(matches!(
        p.install_plan("8.2.1", "/tmp/out", false, false),
        Err(AppInstallError::PathDoesNotExist(_))
    ));
    let job = p.install_plan("8.2.1", "/tmp/out", true, true).unwrap();
    assert_eq!(job.archive, "php-8.2.1.zip");
    assert_eq!(job.target, "/tmp/out");
    assert!(job.with_progress);
}
