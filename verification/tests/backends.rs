use std::cell::Cell;

use secret_registry::error::SecretError;
use secret_registry::external::{
    finish_call, ExternalSecretStore, ProviderOutput, Request, Response,
};
use secret_registry::local::{open_blob, seal_blob, LocalSecretStore};

fn hex(bytes: &[u8]) -> String {
    bytes.iter().map(|b| format!("{b:02x}")).collect()
}

fn bytes(hex: &str) -> Vec<u8> {
    (0..hex.len() / 2).map(|i| u8::from_str_radix(&hex[2 * i..2 * i + 2], 16).unwrap()).collect()
}

fn decrypt(value: &str) -> Result<String, SecretError> {
    let body = value.strip_prefix("enc2:").unwrap();
    match body.split_once('.') {
        Some((_, text)) => Ok(String::from_utf8(bytes(text)).unwrap()),
        None => Err(SecretError::Backend { message: "wrong key".to_string() }),
    }
}

fn encrypt(nonce: &Cell<u32>, text: &str) -> Result<String, SecretError> {
    nonce.set(nonce.get() + 1);
    Ok(format!("enc2:{}.{}", nonce.get(), hex(text.as_bytes())))
}

struct File {
    contents: Option<String>,
    nonce: Cell<u32>,
}

impl File {
    fn new() -> Self {
        File { contents: None, nonce: Cell::new(0) }
    }

    fn get(&self, key: &str) -> Result<String, SecretError> {
        LocalSecretStore::new(decrypt, |t: &str| encrypt(&self.nonce, t))
            .get(self.contents.as_deref(), key)
    }

    fn list(&self) -> Result<Vec<String>, SecretError> {
        LocalSecretStore::new(decrypt, |t: &str| encrypt(&self.nonce, t))
            .list(self.contents.as_deref())
    }

    fn set(&mut self, key: &str, value: &str) -> Result<(), SecretError> {
        let contents = LocalSecretStore::new(decrypt, |t: &str| encrypt(&self.nonce, t))
            .set(self.contents.as_deref(), key, value)?;
        self.contents = Some(contents);
        Ok(())
    }

    fn delete(&mut self, key: &str) -> Result<(), SecretError> {
        let contents = LocalSecretStore::new(decrypt, |t: &str| encrypt(&self.nonce, t))
            .delete(self.contents.as_deref(), key)?;
        self.contents = Some(contents);
        Ok(())
    }

    fn rotate_key(&mut self) -> Result<(), SecretError> {
        let contents = LocalSecretStore::new(decrypt, |t: &str| encrypt(&self.nonce, t))
            .rotate_key(self.contents.as_deref())?;
        self.contents = Some(contents);
        Ok(())
    }
}

#[test]
fn set_get_roundtrip() {
    let mut store = File::new();
    store.set("API_KEY", "sk-test123").unwrap();
    let value = store.get("API_KEY").unwrap();
    assert_eq!(value, "sk-test123");
}

#[test]
fn get_missing_key_fails() {
    let store = File::new();
    assert!(store.get("MISSING").is_err());
}

#[test]
fn list_keys() {
    let mut store = File::new();
    store.set("KEY_A", "a").unwrap();
    store.set("KEY_B", "b").unwrap();
    let mut keys = store.list().unwrap();
    keys.sort();
    assert_eq!(keys, vec!["KEY_A", "KEY_B"]);
}

#[test]
fn delete_key() {
    let mut store = File::new();
    store.set("TO_DELETE", "value").unwrap();
    store.delete("TO_DELETE").unwrap();
    assert!(store.get("TO_DELETE").is_err());
}

#[test]
fn delete_missing_key_fails() {
    let mut store = File::new();
    assert!(store.delete("MISSING").is_err());
}

#[test]
fn persistence_across_instances() {
    let mut first = File::new();
    first.set("PERSIST", "value").unwrap();
    let second = File { contents: first.contents.clone(), nonce: Cell::new(0) };
    assert_eq!(second.get("PERSIST").unwrap(), "value");
}

#[test]
fn rotate_key_re_encrypts() {
    let mut store = File::new();
    store.set("KEY", "value").unwrap();
    let before = store.contents.clone().unwrap();
    store.rotate_key().unwrap();
    let after = store.contents.clone().unwrap();
    assert_ne!(before, after);
    assert_eq!(store.get("KEY").unwrap(), "value");
}

#[test]
fn the_file_is_one_versioned_blob() {
    let mut store = File::new();
    store.set("B", "2\n").unwrap();
    store.set("A", "1").unwrap();
    let text = "{\"A\":\"1\",\"B\":\"2\\n\"}";
    assert_eq!(store.contents.clone().unwrap(), format!("secrets1:2.{}", hex(text.as_bytes())));
    assert_eq!(store.list().unwrap(), vec!["A".to_string(), "B".to_string()]);
}

#[test]
fn overwriting_keeps_the_other_secrets() {
    let mut store = File::new();
    store.set("A", "1").unwrap();
    store.set("B", "2").unwrap();
    store.set("A", "3").unwrap();
    assert_eq!(store.get("A").unwrap(), "3");
    assert_eq!(store.get("B").unwrap(), "2");
    store.delete("A").unwrap();
    assert_eq!(store.get("B").unwrap(), "2");
    assert_eq!(store.list().unwrap(), vec!["B".to_string()]);
}

#[test]
fn blank_files_hold_no_secrets() {
    for contents in ["", " ", "\n\t \n"] {
        let mut store = File { contents: Some(contents.to_string()), nonce: Cell::new(0) };
        assert_eq!(store.list(), Ok(vec![]));
        assert_eq!(store.get("K"), Err(SecretError::NotFound { key: "K".to_string() }));
        assert_eq!(store.rotate_key(), Err(SecretError::NothingToRotate));
        store.set("K", "v").unwrap();
        assert_eq!(store.get("K").unwrap(), "v");
    }
    assert_eq!(File::new().rotate_key(), Err(SecretError::NothingToRotate));
}

#[test]
fn white_space_around_the_blob_does_not_count() {
    let mut store = File::new();
    store.set("K", "v").unwrap();
    store.contents = Some(format!("  {}\n", store.contents.clone().unwrap()));
    assert_eq!(store.get("K").unwrap(), "v");
}

#[test]
fn deleting_the_last_secret_leaves_an_empty_object() {
    let mut store = File::new();
    store.set("K", "v").unwrap();
    store.delete("K").unwrap();
    assert_eq!(store.contents.clone().unwrap(), format!("secrets1:2.{}", hex(b"{}")));
    assert_eq!(store.rotate_key(), Err(SecretError::NothingToRotate));
}

#[test]
fn files_that_can_not_be_read_are_kept() {
    let cases = vec![
        ("plain text".to_string(), SecretError::MissingBlobPrefix),
        ("secrets2:00".to_string(), SecretError::MissingBlobPrefix),
        (
            "secrets1:nodot".to_string(),
            SecretError::Backend { message: "wrong key".to_string() },
        ),
        (format!("secrets1:1.{}", hex(b"[]")), SecretError::BadSecrets),
        (format!("secrets1:1.{}", hex(b"{\"A\":1}")), SecretError::BadSecrets),
        (format!("secrets1:1.{}", hex(b"{\"A\":")), SecretError::BadSecrets),
    ];
    for (contents, error) in cases {
        let mut store = File { contents: Some(contents.clone()), nonce: Cell::new(0) };
        assert_eq!(store.get("K").as_ref(), Err(&error));
        assert_eq!(store.list().as_ref(), Err(&error));
        assert_eq!(store.set("K", "v").as_ref(), Err(&error));
        assert_eq!(store.delete("K").as_ref(), Err(&error));
        assert_eq!(store.rotate_key().as_ref(), Err(&error));
        assert_eq!(store.contents, Some(contents));
    }
}

#[test]
fn ciphers_must_encrypt() {
    let store = LocalSecretStore::new(decrypt, |t: &str| -> Result<String, SecretError> {
        Ok(t.to_string())
    });
    assert_eq!(store.set(None, "K", "v"), Err(SecretError::NotEncrypted));
    let store = LocalSecretStore::new(decrypt, |_t: &str| -> Result<String, SecretError> {
        Err(SecretError::Backend { message: "no key".to_string() })
    });
    assert_eq!(
        store.set(None, "K", "v"),
        Err(SecretError::Backend { message: "no key".to_string() })
    );
}

#[test]
fn blobs_carry_the_encrypted_value() {
    assert_eq!(seal_blob("enc2:00ff"), Ok("secrets1:00ff".to_string()));
    assert_eq!(open_blob(Some("secrets1:00ff")), Ok(Some("enc2:00ff".to_string())));
    assert_eq!(open_blob(None), Ok(None));
    assert_eq!(seal_blob("enc:00"), Err(SecretError::NotEncrypted));
}

#[test]
fn requests_are_single_lines_of_json() {
    assert_eq!(
        Request::get("GMAIL_KEY").line().unwrap(),
        "{\"action\":\"get\",\"key\":\"GMAIL_KEY\"}\n"
    );
    assert_eq!(
        Request::set("GMAIL_KEY", "a\nb\"").line().unwrap(),
        "{\"action\":\"set\",\"key\":\"GMAIL_KEY\",\"value\":\"a\\nb\\\"\"}\n"
    );
    assert_eq!(Request::list().line().unwrap(), "{\"action\":\"list\"}\n");
    assert_eq!(Request::delete("K").line().unwrap(), "{\"action\":\"delete\",\"key\":\"K\"}\n");
}

fn output(success: bool, stdout: &[u8], stderr: &[u8]) -> ProviderOutput {
    ProviderOutput {
        success,
        status: if success { "exit status: 0" } else { "exit status: 2" }.to_string(),
        stdout: stdout.to_vec(),
        stderr: stderr.to_vec(),
    }
}

fn granted() -> Response {
    Response { ok: true, value: None, keys: None, error: None }
}

#[test]
fn the_first_line_of_the_output_counts() {
    assert_eq!(output(true, b"one\ntwo\n", b"noise").line(), Ok("one".to_string()));
    assert_eq!(output(true, b"one\r\ntwo", b"").line(), Ok("one".to_string()));
    assert_eq!(output(true, "ä".as_bytes(), b"").line(), Ok("ä".to_string()));
    assert_eq!(output(true, b"\n", b"").line(), Ok(String::new()));
    assert_eq!(output(true, b"", b"").line(), Err(SecretError::ProviderSilent));
    assert_eq!(output(true, &[0xff, 0x0a], b"").line(), Err(SecretError::ProviderNotText));
}

#[test]
fn programs_that_fail_are_quoted() {
    assert_eq!(
        output(false, b"{\"ok\":true}\n", b"  no vault \n").line(),
        Err(SecretError::ProviderExit {
            status: "exit status: 2".to_string(),
            stderr: "no vault".to_string(),
        })
    );
    assert_eq!(
        output(false, b"", &[0x61, 0xff, 0x62]).line(),
        Err(SecretError::ProviderExit {
            status: "exit status: 2".to_string(),
            stderr: "a\u{fffd}b".to_string(),
        })
    );
}

#[test]
fn refusals_give_the_reason() {
    let refused = Response { ok: false, error: Some("locked".to_string()), ..granted() };
    assert_eq!(
        refused.accept().err(),
        Some(SecretError::ProviderRefused { reason: "locked".to_string() })
    );
    let silent = Response { ok: false, value: Some("v".to_string()), ..granted() };
    assert_eq!(
        silent.accept().err(),
        Some(SecretError::ProviderRefused { reason: "unknown error".to_string() })
    );
    assert!(granted().accept().is_ok());
}

#[test]
fn granted_requests_give_values_and_keys() {
    let value = Response { value: Some("v".to_string()), ..granted() };
    assert_eq!(value.into_value("K"), Ok("v".to_string()));
    assert_eq!(
        granted().into_value("K"),
        Err(SecretError::ProviderNoValue { key: "K".to_string() })
    );
    let keys = Response { keys: Some(vec!["A".to_string()]), ..granted() };
    assert_eq!(keys.into_keys(), vec!["A".to_string()]);
    assert!(granted().into_keys().is_empty());
}

#[test]
fn calls_succeed_if_every_stage_does() {
    let parse = |line: &str| match line {
        "yes" => Ok(Response { value: Some("v".to_string()), ..granted() }),
        "no" => Ok(Response { ok: false, ..granted() }),
        _ => Err(SecretError::Backend { message: "failed to parse provider response".to_string() }),
    };
    assert_eq!(
        finish_call(output(true, b"yes\n", b""), parse).ok().unwrap().into_value("K"),
        Ok("v".to_string())
    );
    assert_eq!(
        finish_call(output(true, b"no\n", b""), parse).err().unwrap().message(),
        "provider error: unknown error"
    );
    assert_eq!(
        finish_call(output(true, b"maybe\n", b""), parse).err().unwrap().message(),
        "failed to parse provider response"
    );
    assert_eq!(
        finish_call(output(false, b"yes\n", b""), parse).err().unwrap().message(),
        "provider binary exited with exit status: 2: "
    );
    assert_eq!(
        finish_call(output(true, b"", b""), parse).err(),
        Some(SecretError::ProviderSilent)
    );
}

#[test]
fn external_stores_know_their_program() {
    assert_eq!(ExternalSecretStore::new("/bin/vault".to_string()).binary_path(), "/bin/vault");
}
