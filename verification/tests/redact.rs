use clank::redact::{extract_flag_values, scrub_literals};

#[test]
fn extract_values_in_both_forms() {
    let values = extract_flag_values("cmd --key=abc --token xyz --other v", &vec!["--key", "--token"]);
    assert_eq!(values, vec!["abc".to_owned(), "xyz".to_owned()]);
}

#[test]
fn extract_skips_empty_and_dash_values() {
    let values = extract_flag_values("cmd --key= --token --verbose --token", &vec!["--key", "--token"]);
    assert!(values.is_empty(), "got {values:?}");
}

#[test]
fn extract_handles_whitespace_runs() {
    let values = extract_flag_values("  cmd\t--token   s3cret  ", &vec!["--token"]);
    assert_eq!(values, vec!["s3cret".to_owned()]);
}

#[test]
fn extract_with_no_rules_is_empty() {
    assert!(extract_flag_values("cmd --token x", &vec![]).is_empty());
}

#[test]
fn scrub_replaces_every_occurrence() {
    let out = scrub_literals("curl --token abc http://abc/", &["abc"]);
    assert_eq!(out, "curl --token [REDACTED] http://[REDACTED]/");
}

#[test]
fn scrub_is_left_to_right_without_overlap() {
    assert_eq!(scrub_literals("aaaa", &["aa"]), "[REDACTED][REDACTED]");
    assert_eq!(scrub_literals("aaa", &["aa"]), "[REDACTED]a");
}

#[test]
fn scrub_skips_empty_literals_and_applies_in_turn() {
    assert_eq!(scrub_literals("x y", &[""]), "x y");
    assert_eq!(scrub_literals("ab cd", &["ab", "cd"]), "[REDACTED] [REDACTED]");
    assert_eq!(scrub_literals("no secret", &[]), "no secret");
}

#[test]
fn scrub_then_extract_round_trip() {
    let cmd = "deploy --token=t0k --key k3y";
    let rules = vec!["--token", "--key"];
    let values = extract_flag_values(cmd, &rules);
    let refs: Vec<&str> = values.iter().map(String::as_str).collect();
    let out = scrub_literals(cmd, &refs);
    assert_eq!(out, "deploy --token=[REDACTED] --key [REDACTED]");
    assert!(!out.contains("t0k") && !out.contains("k3y"));
}
