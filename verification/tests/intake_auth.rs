use sb_agent_core::intake_auth::{constant_time_eq, generate_token, to_hex_lower, token_from_file_text, token_path};

#[test]
fn constant_time_eq_matches_equal_strings() {
    assert!(constant_time_eq("abc123", "abc123"));
}

#[test]
fn constant_time_eq_rejects_different_strings() {
    assert!(!constant_time_eq("abc123", "abc124"));
    assert!(!constant_time_eq("short", "muchlongerstring"));
}

#[test]
fn constant_time_eq_handles_empty_and_unicode() {
    assert!(constant_time_eq("", ""));
    assert!(!constant_time_eq("", "a"));
    assert!(constant_time_eq("ñandú", "ñandú"));
    assert!(!constant_time_eq("ñandú", "nandu"));
}

#[test]
fn token_path_is_under_etc() {
    assert_eq!(token_path(), "/etc/sb-agent/intake.token");
}

#[test]
fn hex_encoding_is_lowercase_two_digits_per_byte() {
    assert_eq!(to_hex_lower(&[0x00, 0x0f, 0xa5, 0xff]), "000fa5ff");
    assert_eq!(to_hex_lower(&[]), "");
}

#[test]
fn generated_tokens_are_64_hex_digits_and_differ() {
    let a = generate_token();
    let b = generate_token();
    assert_eq!(a.len(), 64);
    assert!(a.chars().all(|c| c.is_ascii_hexdigit() && !c.is_ascii_uppercase()));
    assert_ne!(a, b);
}

#[test]
fn token_file_text_is_trimmed() {
    assert_eq!(token_from_file_text("  abc\n"), Some("abc".to_string()));
    assert_eq!(token_from_file_text(" \n\t "), None);
    assert_eq!(token_from_file_text(""), None);
}

#[test]
fn token_trimming_matches_std_whitespace() {
    for code in (0u32..0x3100).chain([0xfeff, 0x10ffff]) {
        let Some(c) = char::from_u32(code) else { continue };
        let padded = format!("{c}a{c}");
        let expected = padded.trim().to_string();
        assert_eq!(token_from_file_text(&padded), Some(expected), "code point {code:#x}");
    }
}
