use sb_agent_core::config::{
    default_config_path, io_error_message, parse_error_message, sync_bool_text, sync_string_text, sync_version_text,
    ConfigError,
};
use std::path::PathBuf;

#[test]
fn sync_version_field_adds_missing_line() {
    let contents = sync_version_text(Some("endpoint = \"https://x\"\n"), "1.2.3").unwrap();
    assert!(contents.lines().next().unwrap() == "version = \"1.2.3\"");
    assert_eq!(contents, "version = \"1.2.3\"\nendpoint = \"https://x\"\n");
}

#[test]
fn sync_version_field_replaces_existing_line() {
    let contents = sync_version_text(Some("version = \"0.9.0\"\nendpoint = \"https://x\"\n"), "1.2.3").unwrap();
    assert!(contents.contains("version = \"1.2.3\""));
    assert!(!contents.contains("0.9.0"));
    assert_eq!(contents, "version = \"1.2.3\"\nendpoint = \"https://x\"");
}

#[test]
fn sync_version_field_noop_on_missing_file() {
    assert_eq!(sync_version_text(None, "1.2.3"), None);
}

#[test]
fn sync_version_field_noop_when_current() {
    assert_eq!(sync_version_text(Some("# c\n  version = \"1.2.3\"\n"), "1.2.3"), None);
}

#[test]
fn sync_bool_field_adds_missing_line() {
    let contents = sync_bool_text("endpoint = \"https://x\"\n", "allow_remote_os_upgrade", true).unwrap();
    assert!(contents.contains("allow_remote_os_upgrade = true"));
    assert!(contents.contains("endpoint = \"https://x\""));
}

#[test]
fn sync_bool_field_replaces_existing_line() {
    let contents =
        sync_bool_text("allow_remote_os_upgrade = false\nendpoint = \"https://x\"\n", "allow_remote_os_upgrade", true)
            .unwrap();
    assert!(contents.contains("allow_remote_os_upgrade = true"));
    assert!(!contents.contains("allow_remote_os_upgrade = false"));
}

#[test]
fn sync_bool_field_is_noop_when_already_current() {
    assert_eq!(sync_bool_text("allow_remote_os_upgrade = true\n", "allow_remote_os_upgrade", true), None);
}

#[test]
fn sync_bool_field_handles_missing_trailing_newline() {
    let contents = sync_bool_text("endpoint = \"https://x\"", "allow_remote_os_upgrade", true).unwrap();
    assert!(contents.contains("endpoint = \"https://x\"\nallow_remote_os_upgrade = true\n"));
    toml::from_str::<toml::Value>(&contents).expect("resulting file must still be valid TOML");
}

#[test]
fn sync_bool_field_creates_file_when_missing() {
    let contents = sync_bool_text("", "allow_remote_os_upgrade", true).unwrap();
    assert_eq!(contents, "allow_remote_os_upgrade = true\n");
}

#[test]
fn sync_bool_field_twice_writes_once() {
    let first = sync_bool_text("a = 1\r\nflag = false\r\n# end", "flag", true).unwrap();
    assert_eq!(first, "a = 1\nflag = true\n# end\n");
    assert_eq!(sync_bool_text(&first, "flag", true), None);
    let back = sync_bool_text(&first, "flag", false).unwrap();
    assert_eq!(back, "a = 1\nflag = false\n# end\n");
}

#[test]
fn sync_string_field_escapes_and_settles() {
    let first = sync_string_text("token = \"old\"\n", "token", "a\"b\\c").unwrap();
    assert_eq!(first, "token = \"a\\\"b\\\\c\"\n");
    assert_eq!(sync_string_text(&first, "token", "a\"b\\c"), None);
    let parsed: toml::Value = toml::from_str(&first).unwrap();
    assert_eq!(parsed.get("token").and_then(|v| v.as_str()), Some("a\"b\\c"));
}

#[test]
fn sync_string_field_appends_after_trimmed_text() {
    let first = sync_string_text("endpoint = \"x\"\n\n  \n", "token", "t").unwrap();
    assert_eq!(first, "endpoint = \"x\"\ntoken = \"t\"\n");
}

#[test]
fn config_error_messages() {
    assert_eq!(ConfigError::Parse("bad".to_string()).message(), "config parse error: bad");
    let io = ConfigError::Io(std::io::Error::new(std::io::ErrorKind::Other, "boom"));
    assert_eq!(io.message(), "config io error: boom");
}

#[test]
fn config_error_texts_compose() {
    assert_eq!(io_error_message("boom"), "config io error: boom");
    assert_eq!(parse_error_message("bad key"), "config parse error: bad key");
}

#[test]
fn default_config_path_joins_like_paths() {
    for name in ["oxipulse", "", "a/", "/opt/agent", "/", "nested/agent"] {
        let expected = PathBuf::from("/etc").join(name).join("config.toml");
        assert_eq!(PathBuf::from(default_config_path(name)), expected, "agent name {name:?}");
        assert_eq!(default_config_path(name), expected.to_str().unwrap(), "agent name {name:?}");
    }
}
