use secret_registry::error::SecretError;
use secret_registry::key::{is_internal, validate_key};
use secret_registry::secret_map::SecretMap;
use secret_registry::text::{
    concat2, concat3, first_line, is_whitespace, join, same_text, starts_with, strip_prefix,
    text_before, to_uppercase, trim,
};

fn strings(items: &[&str]) -> Vec<String> {
    items.iter().map(|s| s.to_string()).collect()
}

#[test]
fn validate_key_accepts_valid() {
    assert!(validate_key("GMAIL_KEY").is_ok());
    assert!(validate_key("my_key_123").is_ok());
    assert!(validate_key("A").is_ok());
    assert!(validate_key("__INTERNAL").is_ok());
}

#[test]
fn validate_key_rejects_invalid() {
    assert!(validate_key("").is_err());
    assert!(validate_key("key@store").is_err());
    assert!(validate_key("key:value").is_err());
    assert!(validate_key("has space").is_err());
    assert!(validate_key("has-dash").is_err());
}

#[test]
fn invalid_keys_name_the_first_bad_character() {
    assert_eq!(validate_key(""), Err(SecretError::EmptyKey));
    assert_eq!(
        validate_key("a-b c"),
        Err(SecretError::InvalidKey { key: "a-b c".to_string(), found: '-' })
    );
    assert_eq!(
        validate_key("größe"),
        Err(SecretError::InvalidKey { key: "größe".to_string(), found: 'ö' })
    );
}

#[test]
fn key_characters_are_ascii_alphanumeric_and_underscore() {
    for code in 0..0x3000u32 {
        if let Some(c) = char::from_u32(code) {
            let expected = c.is_ascii_alphanumeric() || c == '_';
            assert_eq!(validate_key(&c.to_string()).is_ok(), expected, "{code:x}");
        }
    }
}

#[test]
fn messages_say_what_went_wrong() {
    let cases: Vec<(SecretError, &str)> = vec![
        (SecretError::NotFound { key: "K".to_string() }, "secret not found: K"),
        (SecretError::UnknownStore { name: "s".to_string() }, "unknown secret store: s"),
        (SecretError::NoStores, "no secret stores configured"),
        (SecretError::EmptyKey, "secret key cannot be empty"),
        (
            SecretError::InvalidKey { key: "a-b".to_string(), found: '-' },
            "invalid secret key 'a-b': only alphanumeric and underscores allowed (got '-')",
        ),
        (
            SecretError::InvalidToken { token: "secrets".to_string() },
            "invalid secret token: {{secrets}}",
        ),
        (
            SecretError::MissingColon { token: "secret@s".to_string() },
            "invalid secret token: missing ':' in {{secret@s}}",
        ),
        (SecretError::NoConfigDir, "config path must have a parent directory"),
        (
            SecretError::UnknownBackend { backend: "vault".to_string() },
            "unknown secret store backend: vault",
        ),
        (
            SecretError::MissingProvider { store: "bw".to_string() },
            "secret store 'bw': external backend requires provider_binary",
        ),
        (
            SecretError::MissingBlobPrefix,
            "invalid .secrets file: missing 'secrets1:' prefix",
        ),
        (SecretError::BadSecrets, "failed to parse secrets JSON"),
        (SecretError::Unserializable, "failed to serialize secrets"),
        (SecretError::NotEncrypted, "encryption did not produce enc2: prefix"),
        (SecretError::NothingToRotate, "no secrets to rotate — store is empty"),
        (
            SecretError::ProviderExit {
                status: "exit status: 1".to_string(),
                stderr: "boom".to_string(),
            },
            "provider binary exited with exit status: 1: boom",
        ),
        (SecretError::ProviderNotText, "provider binary output is not valid UTF-8"),
        (SecretError::ProviderSilent, "provider binary produced no output"),
        (SecretError::ProviderRefused { reason: "locked".to_string() }, "provider error: locked"),
        (
            SecretError::ProviderNoValue { key: "K".to_string() },
            "provider returned ok but no value for key: K",
        ),
        (SecretError::MissingParameter { name: "key".to_string() }, "Missing 'key' parameter"),
        (SecretError::Backend { message: "disk full".to_string() }, "disk full"),
    ];
    for (error, message) in cases {
        assert_eq!(error.message(), message);
    }
}

#[test]
fn internal_keys_begin_with_two_underscores() {
    assert!(is_internal("__API_KEY"));
    assert!(is_internal("__"));
    assert!(!is_internal("_API_KEY"));
    assert!(!is_internal("A__"));
    assert!(!is_internal(""));
}

#[test]
fn white_space_is_that_of_the_standard_library() {
    for code in 0..=0x10ffffu32 {
        if let Some(c) = char::from_u32(code) {
            assert_eq!(is_whitespace(c), c.is_whitespace(), "{code:x}");
        }
    }
}

#[test]
fn trimming_and_lines_agree_with_the_standard_library() {
    for text in [
        "", " ", "\n", "\r\n", "a", " a ", "\t a b\u{3000}", "a\nb", "a\r\nb", "\nb", "a\r", "a\r\r\nb",
        "\r\nb", "ä\u{a0}",
    ] {
        assert_eq!(trim(text), text.trim(), "{text:?}");
        assert_eq!(first_line(text).as_deref(), text.lines().next(), "{text:?}");
    }
}

#[test]
fn capitals_of_ascii_letters_only() {
    assert_eq!(to_uppercase("gmail_Key9"), "GMAIL_KEY9");
    assert_eq!(to_uppercase("äß"), "äß");
}

#[test]
fn prefixes_and_concatenation() {
    assert!(starts_with("secrets1:ab", "secrets1:"));
    assert!(!starts_with("secrets", "secrets1:"));
    assert_eq!(strip_prefix("enc2:ff", "enc2:"), Some("ff".to_string()));
    assert_eq!(strip_prefix("enc2", "enc2:"), None);
    assert!(same_text("ä", "ä"));
    assert!(!same_text("a", "ab"));
    assert_eq!(concat2("a", "b"), "ab");
    assert_eq!(concat3("a", "b", "c"), "abc");
    assert_eq!(join(&strings(&[]), "\n"), "");
    assert_eq!(join(&strings(&["a"]), "\n"), "a");
    assert_eq!(join(&strings(&["a", "b", "c"]), ", "), "a, b, c");
}

#[test]
fn order_of_texts_is_that_of_strings() {
    let all = ["", "A", "AB", "B", "_", "a", "ä", "\u{ffff}", "\u{10000}"];
    for a in all {
        for b in all {
            assert_eq!(text_before(a, b), a < b, "{a:?} {b:?}");
        }
    }
}

#[test]
fn secrets_stay_in_order_and_unique() {
    let mut map = SecretMap::new();
    assert!(map.is_empty());
    for (key, value) in [("b", "2"), ("a", "1"), ("c", "3"), ("b", "4")] {
        map.insert(key.to_string(), value.to_string());
    }
    assert_eq!(map.keys(), strings(&["a", "b", "c"]));
    assert_eq!(map.get("b"), Some(&"4".to_string()));
    assert!(map.remove("a"));
    assert!(!map.remove("a"));
    assert_eq!(map.get("a"), None);
    assert_eq!(map.keys(), strings(&["b", "c"]));
}
