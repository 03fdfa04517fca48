use dut_fleet::error::DutError;
use dut_fleet::failure::classify_failure;
use dut_fleet::failure::contains_text;
use dut_fleet::failure::TRANSPORT_FAILED;

#[test]
fn contains_text_finds_a_pattern_anywhere() {
    assert!(contains_text("Permission denied (publickey).", "Permission denied"));
    assert!(contains_text("root@h: Permission denied", "Permission denied"));
    assert!(contains_text("abc", "abc"));
    assert!(contains_text("abc", "c"));
    assert!(contains_text("abc", ""));
    assert!(contains_text("", ""));
    assert!(contains_text("aab", "ab"));
    assert!(contains_text("h\u{e9}llo", "\u{e9}l"));
}

#[test]
fn contains_text_misses_what_is_not_there() {
    assert!(!contains_text("", "a"));
    assert!(!contains_text("ab", "abc"));
    assert!(!contains_text("permission denied", "Permission denied"));
    assert!(!contains_text("Permission  denied", "Permission denied"));
    assert!(!contains_text("abab", "aba b"));
}

#[test]
fn contains_text_agrees_with_str_contains() {
    let texts = ["", "a", "ab", "aab", "abab", "ssh: connect to host h port 22: timed out"];
    let patterns = ["", "a", "b", "ab", "ba", "aba", "timed", "port 22:", "x"];
    for text in texts {
        for pattern in patterns {
            assert_eq!(contains_text(text, pattern), text.contains(pattern));
        }
    }
}

#[test]
fn a_failed_command_is_a_failed_resolution() {
    assert_eq!(
        classify_failure("10.0.0.1", "crossystem hwid", Some(1), ""),
        DutError::Resolution("crossystem hwid".to_string())
    );
    assert_eq!(
        classify_failure("10.0.0.1", "vpd", Some(127), "Permission denied"),
        DutError::Resolution("vpd".to_string())
    );
    assert_eq!(
        classify_failure("10.0.0.1", "vpd", None, "killed"),
        DutError::Resolution("vpd".to_string())
    );
    assert_eq!(
        classify_failure("10.0.0.1", "vpd", Some(0), ""),
        DutError::Resolution("vpd".to_string())
    );
}

#[test]
fn a_refused_login_is_an_authentication_failure() {
    assert_eq!(TRANSPORT_FAILED, 255);
    assert_eq!(
        classify_failure("lab", "true", Some(255), "root@lab: Permission denied (publickey)."),
        DutError::Authentication("lab".to_string())
    );
}

#[test]
fn an_unreachable_host_is_a_connectivity_failure() {
    assert_eq!(
        classify_failure("lab", "true", Some(255), "ssh: connect to host lab port 22: timed out"),
        DutError::Connectivity("lab".to_string())
    );
    assert_eq!(
        classify_failure("lab", "true", Some(255), ""),
        DutError::Connectivity("lab".to_string())
    );
}
