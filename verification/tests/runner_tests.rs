use repoctl::runner::redact_secret_like_values;

#[test]
fn test_should_redact_secret_marker_values() {
    let redacted = redact_secret_like_values(
        "curl -H Authorization: Bearer abc123 --token def456 --cookie session=ghi",
    );
    assert!(!redacted.contains("abc123"));
    assert!(!redacted.contains("def456"));
    assert!(!redacted.contains("session=ghi"));
}
