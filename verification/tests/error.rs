use cmux_axi::error::CmuxError;

#[test]
fn exit_codes_follow_the_error_kind() {
    let u = CmuxError::usage("bad flag");
    assert_eq!(u.code, "VALIDATION_ERROR");
    assert_eq!(u.exit_code(), 2);
    let o = CmuxError::operational("no cmux", "CMUX_NOT_FOUND").with_suggestions(vec!["install it".into()]);
    assert_eq!(o.exit_code(), 1);
    assert_eq!(o.message, "no cmux");
    assert_eq!(o.suggestions, vec!["install it".to_string()]);
}

#[test]
fn crew_records_live_under_crews() {
    assert_eq!(cmux_axi::crew::path("/state", "demo"), "/state/crews/demo.json");
}
