use cmux_axi::error::CmuxError;
use cmux_axi::version::{is_yes, semver_cmp, update_available, version_from_manifest, version_update_surface, UpdateStep, VERSION};
use std::cmp::Ordering;

#[test]
fn offline_fetch_is_not_fatal() {
    let err = CmuxError::operational("could not reach the version source", "UPDATE_CHECK");
    assert!(matches!(version_update_surface(false, Err(err)), UpdateStep::Nothing));
}

#[test]
fn no_update_surface_when_not_greater() {
    assert!(matches!(version_update_surface(false, Ok(VERSION.to_string())), UpdateStep::Nothing));
    assert!(matches!(version_update_surface(false, Ok("0.0.1".to_string())), UpdateStep::Nothing));
}

#[test]
fn a_newer_version_is_offered_or_installed() {
    match version_update_surface(false, Ok("0.10.0".to_string())) {
        UpdateStep::Offer(v) => assert_eq!(v, "0.10.0"),
        _ => panic!("not offered"),
    }
    match version_update_surface(true, Ok("1.0.0".to_string())) {
        UpdateStep::Upgrade(v) => assert_eq!(v, "1.0.0"),
        _ => panic!("not upgraded"),
    }
    assert!(update_available("0.3.1"));
    assert!(!update_available("0.3"));
}

#[test]
fn versions_compare_numerically_part_by_part() {
    assert_eq!(semver_cmp("0.2.0", "0.10.1"), Ordering::Less);
    assert_eq!(semver_cmp("0.10.1", "0.2.0"), Ordering::Greater);
    assert_eq!(semver_cmp("1.0", "1.0.0"), Ordering::Equal);
    assert_eq!(semver_cmp("1.x", "1.0"), Ordering::Equal);
    assert_eq!(semver_cmp("1.0.1", "1"), Ordering::Greater);
}

#[test]
fn the_manifest_version_is_the_first_version_line() {
    let text = "[package]\nname = \"cmux-axi\"\n  version = \"0.4.2\"  \nversion = \"9\"\n";
    assert_eq!(version_from_manifest(text).unwrap(), "0.4.2");
    let e = version_from_manifest("[package]\nname = \"x\"\n").unwrap_err();
    assert_eq!(e.message, "version not found in remote Cargo.toml");
    assert_eq!(e.code, "UPDATE_CHECK");
}

#[test]
fn only_yes_answers_accept() {
    assert!(is_yes(" y\n"));
    assert!(is_yes("YES"));
    assert!(!is_yes("Yes"));
    assert!(!is_yes(""));
}
