use lager::config_file::{config_error_location, digits, lock_file_name, seahash, unknown_key_warnings, ConfigKeys};

#[test]
fn digits_render_in_the_requested_base() {
    assert_eq!(digits(0, 10), "0");
    assert_eq!(digits(255, 16), "ff");
    assert_eq!(digits(1234567890, 10), "1234567890");
}

#[test]
fn the_lock_hash_is_fnv1a() {
    assert_eq!(seahash(b""), 0xcbf29ce484222325);
    assert_eq!(seahash(b"a"), 0xaf63dc4c8601ec8c);
    assert_eq!(lock_file_name(b"a"), "config-af63dc4c8601ec8c.lock");
}

#[test]
fn parse_errors_are_located_without_quoting_values() {
    assert_eq!(
        config_error_location("invalid TOML syntax", Some("root = 1\nbad")),
        "invalid TOML syntax at line 2, column 4 (values omitted)"
    );
    assert_eq!(config_error_location("invalid TOML configuration", None), "invalid TOML configuration (values omitted)");
}

#[test]
fn unknown_keys_are_warned_about_in_file_order() {
    let keys = ConfigKeys {
        top: vec!["root".to_owned(), "extra".to_owned()],
        providers: vec![("github.com".to_owned(), vec!["preset".to_owned(), "tokn".to_owned()])],
        repositories: vec![vec!["url".to_owned(), "hook".to_owned()]],
    };
    assert_eq!(
        unknown_key_warnings(&keys),
        [
            "lager: warning: unknown config key `extra`",
            "lager: warning: unknown provider key `github.com.tokn`",
            "lager: warning: unknown repository key `repositories[0].hook`"
        ]
    );
}
