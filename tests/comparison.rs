use cargo_stale::outdated::is_version_outdated;

#[test]
fn test_is_version_outdated() {
    assert!(is_version_outdated("0.7.1", "0.7.2"));
    assert!(!is_version_outdated("0.7.1", "0.7.0"));
    assert!(!is_version_outdated("0.7.1", "0.5.92"));
    assert!(is_version_outdated("4.0.0-rc.3", "4.0.0"));
    assert!(!is_version_outdated("4.0.0", "4.0.0+build.123"));
    assert!(!is_version_outdated("=0.7.3", "0.7.3"));
}

#[test]
fn wildcard_is_never_outdated() {
    assert!(!is_version_outdated("*", "1.0.0"));
    assert!(!is_version_outdated(" * ", "not a version"));
    assert!(!is_version_outdated("*", ""));
}

#[test]
fn caret_requirements() {
    assert!(is_version_outdated("^0.7.1", "0.7.2"));
    assert!(!is_version_outdated("^0.7.1", "0.7.0"));
    assert!(!is_version_outdated("^0.7.1", "0.5.92"));
    assert!(is_version_outdated("^1.2", "2.0.0"));
    assert!(!is_version_outdated("^1.2", "1.2.9"));
}

#[test]
fn prerelease_requirement_against_its_release() {
    assert!(is_version_outdated("^4.0.0-rc.3", "4.0.0"));
}

#[test]
fn exact_requirements() {
    assert!(!is_version_outdated("=4.0.0", "4.0.0+build.123"));
    assert!(!is_version_outdated("=0.7.3", "0.7.3"));
    assert!(is_version_outdated("=0.7.3", "0.7.4"));
    assert!(is_version_outdated("=0.7.3", "0.7.2"));
}

#[test]
fn tilde_requirements() {
    assert!(!is_version_outdated("~1.2.3", "1.2.9"));
    assert!(is_version_outdated("~1.2.3", "1.3.0"));
    assert!(is_version_outdated("~1.2.3", "2.2.0"));
}

#[test]
fn range_requirements_are_never_outdated() {
    assert!(!is_version_outdated(">=1.0", "9.0.0"));
    assert!(!is_version_outdated("<2", "3.0.0"));
    assert!(!is_version_outdated("<=0.1", "0.5.0"));
    assert!(!is_version_outdated(">0.1.0", "0.1.0"));
}

#[test]
fn unparseable_versions_compare_as_text() {
    assert!(is_version_outdated("1.x", "1.2.0"));
    assert!(!is_version_outdated("git-head", "git-head"));
    assert!(is_version_outdated("1.0.0", "latest"));
    assert!(!is_version_outdated("^abc", "abc"));
}
