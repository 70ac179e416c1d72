use keylogger::device::device_name_matches;

#[test]
fn exact_name_matches() {
    assert!(device_name_matches(Some("AT Translated Set 2 keyboard"), "AT Translated Set 2 keyboard"));
    assert!(device_name_matches(Some(""), ""));
}

#[test]
fn match_is_case_sensitive_and_exact() {
    assert!(!device_name_matches(Some("at translated set 2 keyboard"), "AT Translated Set 2 keyboard"));
    assert!(!device_name_matches(Some("keyboard"), "keyboard "));
    assert!(!device_name_matches(Some("keyboard2"), "keyboard"));
    assert!(!device_name_matches(Some("keyboar"), "keyboard"));
}

#[test]
fn candidate_without_a_name_never_matches() {
    assert!(!device_name_matches(None, "keyboard"));
    assert!(!device_name_matches(None, ""));
}
