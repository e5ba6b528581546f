use std::cell::RefCell;
use std::collections::BTreeMap;

use secret_registry::error::SecretError;
use secret_registry::inject::InjectStep;
use secret_registry::listing::ListStep;
use secret_registry::read::ReadStep;
use secret_registry::registry::{Backend, SecretRegistry, SecretStore};
use secret_registry::template::{parse_template, parse_token, Piece};

struct InMemStore {
    secrets: RefCell<BTreeMap<String, String>>,
    listing: Option<Vec<String>>,
    asked: RefCell<Vec<String>>,
    broken: bool,
}

impl InMemStore {
    fn new(secrets: &[(&str, &str)]) -> Self {
        InMemStore {
            secrets: RefCell::new(
                secrets.iter().map(|(k, v)| (k.to_string(), v.to_string())).collect(),
            ),
            listing: None,
            asked: RefCell::new(Vec::new()),
            broken: false,
        }
    }

    fn broken() -> Self {
        InMemStore { broken: true, ..InMemStore::new(&[]) }
    }

    fn listing(keys: &[&str]) -> Self {
        InMemStore {
            listing: Some(keys.iter().map(|k| k.to_string()).collect()),
            ..InMemStore::new(&[])
        }
    }

    fn check(&self) -> Result<(), SecretError> {
        if self.broken {
            Err(SecretError::Backend { message: "out of order".to_string() })
        } else {
            Ok(())
        }
    }
}

impl SecretStore for InMemStore {
    fn get(&self, key: &str) -> Result<String, SecretError> {
        self.asked.borrow_mut().push(key.to_string());
        self.check()?;
        self.secrets
            .borrow()
            .get(key)
            .cloned()
            .ok_or_else(|| SecretError::Backend { message: format!("not found: {key}") })
    }

    fn set(&self, key: &str, value: &str) -> Result<(), SecretError> {
        self.check()?;
        self.secrets.borrow_mut().insert(key.to_string(), value.to_string());
        Ok(())
    }

    fn list(&self) -> Result<Vec<String>, SecretError> {
        self.check()?;
        match &self.listing {
            Some(keys) => Ok(keys.clone()),
            None => Ok(self.secrets.borrow().keys().cloned().collect()),
        }
    }

    fn delete(&self, key: &str) -> Result<(), SecretError> {
        self.check()?;
        match self.secrets.borrow_mut().remove(key) {
            Some(_) => Ok(()),
            None => Err(SecretError::NotFound { key: key.to_string() }),
        }
    }
}

impl Backend for InMemStore {
    fn backend(&self) -> &str {
        if self.broken {
            "broken"
        } else {
            "memory"
        }
    }
}

fn registry(stores: Vec<(&str, InMemStore)>) -> SecretRegistry<InMemStore> {
    SecretRegistry::new(stores.into_iter().map(|(n, s)| (n.to_string(), s)).collect())
}

fn two_stores() -> SecretRegistry<InMemStore> {
    registry(vec![
        ("first", InMemStore::new(&[("KEY_A", "from_store1")])),
        ("second", InMemStore::new(&[("KEY_A", "from_store2"), ("KEY_B", "only_in_store2")])),
    ])
}

fn strings(items: &[&str]) -> Vec<String> {
    items.iter().map(|s| s.to_string()).collect()
}

fn not_found(key: &str) -> SecretError {
    SecretError::NotFound { key: key.to_string() }
}

fn unknown(name: &str) -> SecretError {
    SecretError::UnknownStore { name: name.to_string() }
}

#[test]
fn registry_cascade_read() {
    let registry = two_stores();
    assert_eq!(registry.get("KEY_A", None).unwrap(), "from_store1");
    assert_eq!(registry.get("KEY_B", None).unwrap(), "only_in_store2");
    assert_eq!(registry.get("KEY_A", Some("second")).unwrap(), "from_store2");
}

#[test]
fn reads_stop_at_the_first_hit() {
    let registry = two_stores();
    assert_eq!(registry.get("KEY_A", None).unwrap(), "from_store1");
    assert!(registry.store_at(1).asked.borrow().is_empty());
    assert_eq!(registry.get("KEY_A", Some("second")).unwrap(), "from_store2");
    assert_eq!(registry.store_at(0).asked.borrow().len(), 1);
}

#[test]
fn reads_pass_over_stores_that_fail() {
    let registry = registry(vec![
        ("broken", InMemStore::broken()),
        ("works", InMemStore::new(&[("K", "v")])),
    ]);
    assert_eq!(registry.get("K", None).unwrap(), "v");
    assert_eq!(registry.get("L", None), Err(not_found("L")));
    assert_eq!(
        registry.get("K", Some("broken")),
        Err(SecretError::Backend { message: "out of order".to_string() })
    );
    assert_eq!(registry.get("K", Some("nowhere")), Err(unknown("nowhere")));
}

#[test]
fn reads_use_the_key_as_it_is_written() {
    let registry = registry(vec![("s", InMemStore::new(&[("KEY", "v")]))]);
    assert_eq!(registry.get("key", None), Err(not_found("key")));
}

#[test]
fn a_registry_without_stores_finds_nothing() {
    let registry = registry(vec![]);
    assert_eq!(registry.get("K", None), Err(not_found("K")));
    assert_eq!(registry.set("K", "v", None), Err(SecretError::NoStores));
    assert_eq!(registry.delete("K", None), Err(SecretError::NoStores));
    assert_eq!(registry.list(None, true), Ok(vec![]));
    assert_eq!(registry.list(Some("s"), true), Err(unknown("s")));
    assert_eq!(registry.inject("plain", None).unwrap(), "plain");
    assert!(registry.store_info().is_empty());
}

#[test]
fn writes_go_to_the_first_store_in_capitals() {
    let registry = two_stores();
    registry.set("new_key", "v1", None).unwrap();
    assert_eq!(registry.get("NEW_KEY", Some("first")).unwrap(), "v1");
    assert!(registry.get("NEW_KEY", Some("second")).is_err());
    registry.set("NEW_KEY", "v2", Some("second")).unwrap();
    assert_eq!(registry.get("NEW_KEY", None).unwrap(), "v1");
    assert_eq!(registry.get("NEW_KEY", Some("second")).unwrap(), "v2");
    assert_eq!(registry.set("K", "v", Some("third")), Err(unknown("third")));
}

#[test]
fn invalid_keys_are_refused_before_the_store_is_looked_for() {
    let registry = two_stores();
    assert_eq!(registry.set("", "v", Some("third")), Err(SecretError::EmptyKey));
    assert_eq!(
        registry.set("a@b", "v", None),
        Err(SecretError::InvalidKey { key: "a@b".to_string(), found: '@' })
    );
}

#[test]
fn deleting_uncovers_the_next_store() {
    let registry = two_stores();
    registry.delete("KEY_A", None).unwrap();
    assert_eq!(registry.get("KEY_A", None).unwrap(), "from_store2");
    assert_eq!(registry.delete("KEY_A", None), Err(not_found("KEY_A")));
    assert_eq!(registry.delete("key_b", Some("second")), Err(not_found("key_b")));
    registry.delete("KEY_B", Some("second")).unwrap();
    assert_eq!(registry.get("KEY_B", None), Err(not_found("KEY_B")));
}

#[test]
fn the_first_of_two_stores_with_one_name_is_meant() {
    let registry = registry(vec![
        ("same", InMemStore::new(&[("K", "one")])),
        ("same", InMemStore::new(&[("K", "two"), ("L", "two")])),
    ]);
    assert_eq!(registry.get("K", Some("same")).unwrap(), "one");
    assert!(registry.get("L", Some("same")).is_err());
    assert_eq!(registry.get("L", None).unwrap(), "two");
}

#[test]
fn listings_merge_all_stores() {
    let registry = registry(vec![
        ("a", InMemStore::listing(&["B", "__HIDDEN", "A", "B"])),
        ("broken", InMemStore::broken()),
        ("c", InMemStore::listing(&["C", "A", "__HIDDEN", "_C"])),
    ]);
    assert_eq!(registry.list(None, true).unwrap(), strings(&["B", "__HIDDEN", "A", "C", "_C"]));
    assert_eq!(registry.list(None, false).unwrap(), strings(&["B", "A", "C", "_C"]));
    assert_eq!(registry.list(Some("a"), true).unwrap(), strings(&["B", "__HIDDEN", "A", "B"]));
    assert_eq!(registry.list(Some("c"), false).unwrap(), strings(&["C", "A", "_C"]));
    assert_eq!(
        registry.list(Some("broken"), true),
        Err(SecretError::Backend { message: "out of order".to_string() })
    );
    assert_eq!(registry.list(Some("d"), true), Err(unknown("d")));
}

#[test]
fn stores_are_described_in_order() {
    let info = registry(vec![("first", InMemStore::new(&[])), ("second", InMemStore::broken())])
        .store_info();
    assert_eq!(info.len(), 2);
    assert_eq!((info[0].name.as_str(), info[0].is_default), ("first", true));
    assert_eq!((info[1].name.as_str(), info[1].is_default), ("second", false));
    assert_eq!(info[0].backend, "memory");
    assert_eq!(info[1].backend, "broken");
}

#[test]
fn stores_can_be_looked_up() {
    let registry = two_stores();
    assert_eq!(registry.len(), 2);
    assert!(registry.named("second").is_ok());
    assert!(matches!(registry.named("third"), Err(SecretError::UnknownStore { .. })));
    assert_eq!(registry.named_or_first(None).ok().unwrap().secrets.borrow().len(), 1);
    assert_eq!(registry.named_or_first(Some("second")).ok().unwrap().secrets.borrow().len(), 2);
    let plan = registry.plan_set("new_key", Some("second")).ok().unwrap();
    assert_eq!(plan.1, "NEW_KEY");
    assert_eq!(registry.into_stores().len(), 2);
}

#[test]
fn inject_substitutes_tokens() {
    let registry = registry(vec![("local", InMemStore::new(&[("API_KEY", "sk-abc123")]))]);
    let result = registry.inject("key={{secret:API_KEY}}&done", None).unwrap();
    assert_eq!(result, "key=sk-abc123&done");
}

#[test]
fn inject_fails_on_missing_key() {
    let registry = registry(vec![("local", InMemStore::new(&[]))]);
    let result = registry.inject("{{secret:MISSING}}", None);
    assert!(result.is_err());
}

#[test]
fn inject_reads_the_store_that_a_token_names() {
    let registry = two_stores();
    let text = "{{secret:KEY_A}} {{secret@second:KEY_A}} {{secret:KEY_B}}";
    assert_eq!(registry.inject(text, None).unwrap(), "from_store1 from_store2 only_in_store2");
    assert_eq!(
        registry.inject("{{secret:KEY_A}}{{secret@first:KEY_A}}", Some("second")).unwrap(),
        "from_store2from_store1"
    );
    assert_eq!(
        registry.inject("{{secret:KEY_B}}", Some("first")),
        Err(SecretError::Backend { message: "not found: KEY_B".to_string() })
    );
    assert_eq!(registry.inject("{{secret:KEY_A}}", Some("third")), Err(unknown("third")));
    assert_eq!(registry.inject("{{secret@third:KEY_A}}", None), Err(unknown("third")));
}

#[test]
fn inject_leaves_other_text_alone() {
    let registry = two_stores();
    for text in ["", "plain", "{{other}}", "{secret:KEY_A}", "{{secret:KEY_A", "{{secret:KEY_A}", "ä}}"] {
        assert_eq!(registry.inject(text, None).unwrap(), text);
    }
    assert_eq!(
        registry.inject("{{secret:KEY_A}} and {{secret:KEY_B", None).unwrap(),
        "from_store1 and {{secret:KEY_B"
    );
    assert_eq!(registry.inject("{{{secret:KEY_A}}}", None).unwrap(), "{from_store1}");
    assert_eq!(registry.inject("ä{{secret:KEY_A}}ö", None).unwrap(), "äfrom_store1ö");
}

#[test]
fn inject_does_not_expand_values() {
    let registry = registry(vec![(
        "s",
        InMemStore::new(&[("A", "{{secret:B}}"), ("B", "never")]),
    )]);
    assert_eq!(registry.inject("<{{secret:A}}>", None).unwrap(), "<{{secret:B}}>");
}

#[test]
fn inject_refuses_malformed_tokens() {
    let registry = two_stores();
    let invalid = |token: &str| Err(SecretError::InvalidToken { token: token.to_string() });
    assert_eq!(registry.inject("{{secret}}", None), invalid("secret"));
    assert_eq!(registry.inject("{{secrets:KEY_A}}", None), invalid("secrets:KEY_A"));
    assert_eq!(
        registry.inject("{{secret@second}}", None),
        Err(SecretError::MissingColon { token: "secret@second".to_string() })
    );
    assert_eq!(registry.inject("{{secret:}}", None), Err(not_found("")));
}

#[test]
fn inject_stops_at_the_first_failure() {
    let registry = two_stores();
    let text = "{{secret:KEY_A}}{{secret:GONE}}{{secret@nowhere:X}}{{secret:KEY_B}}";
    assert_eq!(registry.inject(text, None), Err(not_found("GONE")));
    assert!(!registry.store_at(1).asked.borrow().contains(&"KEY_B".to_string()));
}

#[test]
fn templates_are_split_at_tokens() {
    let text = |t: &str| Piece::Text(t.to_string());
    let token = |t: &str| Piece::Token(t.to_string());
    assert_eq!(parse_template(""), vec![text("")]);
    assert_eq!(
        parse_template("a{{secret:K}}b{{secret@s:L}}"),
        vec![text("a"), token("secret:K"), text("b"), token("secret@s:L"), text("")]
    );
    assert_eq!(parse_template("x{{secret:K"), vec![text("x{{secret:K")]);
    assert_eq!(
        parse_template("{{secret{{secret:K}}"),
        vec![text(""), token("secret{{secret:K"), text("")]
    );
}

#[test]
fn templates_can_be_put_together_again() {
    for content in ["", "a", "{{secret:A}}", "x{{secret@s:A}}y{{secretz}}{{", "}}{{secret}{{secret:B}}ä"] {
        let mut source = String::new();
        for piece in parse_template(content) {
            match piece {
                Piece::Text(text) => source.push_str(&text),
                Piece::Token(token) => source.push_str(&format!("{{{{{token}}}}}")),
            }
        }
        assert_eq!(source, content);
    }
}

#[test]
fn tokens_end_at_the_first_pair_of_braces() {
    let token = |t: &str| Piece::Token(t.to_string());
    assert_eq!(parse_template("{{secret:a}b}}")[1], token("secret:a}b"));
    assert_eq!(parse_template("{{secret:a}}}")[1], token("secret:a"));
    assert_eq!(parse_template("{{secret:a}}}")[2], Piece::Text("}".to_string()));
}

#[test]
fn storing_again_under_the_stored_key_changes_nothing() {
    let registry = two_stores();
    let first = registry.plan_set("my_key_1", None).ok().unwrap().1;
    let second = registry.plan_set(&first, None).ok().unwrap().1;
    assert_eq!(first, "MY_KEY_1");
    assert_eq!(second, first);
    registry.set("my_key_1", "v", None).unwrap();
    assert_eq!(registry.inject("{{secret:MY_KEY_1}}", None).unwrap(), "v");
}

#[test]
fn keys_are_everything_after_the_first_colon() {
    assert_eq!(parse_token("secret:A:B@C"), Ok((None, "A:B@C".to_string())));
    assert_eq!(parse_token("secret@s:A:B"), Ok((Some("s".to_string()), "A:B".to_string())));
    assert_eq!(parse_token("secret@:A"), Ok((Some(String::new()), "A".to_string())));
    assert!(parse_token("other:A").is_err());
}

#[test]
fn read_steps_come_to_what_get_returns() {
    let registry = registry(vec![
        ("broken", InMemStore::broken()),
        ("a", InMemStore::new(&[("A", "1")])),
        ("b", InMemStore::new(&[("A", "2"), ("B", "3")])),
    ]);
    for key in ["A", "B", "C"] {
        for store in [None, Some("a"), Some("b"), Some("broken"), Some("none")] {
            let mut step = registry.start_read(key, store);
            let stepped = loop {
                match step {
                    ReadStep::Done(r) => break r,
                    ReadStep::Ask(at) => {
                        let reply = registry.store_at(at.store).get(key);
                        step = registry.resume_read(key, at, reply);
                    }
                }
            };
            assert_eq!(stepped, registry.get(key, store));
        }
    }
}

#[test]
fn list_steps_come_to_what_list_returns() {
    let registry = registry(vec![
        ("a", InMemStore::listing(&["B", "__X", "A"])),
        ("broken", InMemStore::broken()),
        ("b", InMemStore::listing(&["A", "C"])),
    ]);
    for show_internal in [true, false] {
        for store in [None, Some("a"), Some("b"), Some("broken"), Some("none")] {
            let mut step = registry.start_list(store);
            let stepped = loop {
                match step {
                    ListStep::Done(r) => break r,
                    ListStep::Ask(run) => {
                        let reply = registry.store_at(run.store()).list();
                        step = registry.resume_list(run, show_internal, reply);
                    }
                }
            };
            assert_eq!(stepped, registry.list(store, show_internal));
        }
    }
}

#[test]
fn inject_steps_come_to_what_inject_returns() {
    let registry = two_stores();
    for text in [
        "",
        "plain",
        "{{secret:KEY_A}} {{secret@second:KEY_A}} {{secret:KEY_B}}!",
        "{{secret:KEY_B}}{{secret:NONE}}",
        "{{secret@none:KEY_A}}",
        "{{secretive}}",
        "{{secret:KEY_A",
    ] {
        for store in [None, Some("first"), Some("second"), Some("none")] {
            let mut step = registry.start_inject(text, store);
            let stepped = loop {
                match step {
                    InjectStep::Done(r) => break r,
                    InjectStep::Ask(run) => {
                        let reply = registry.store_at(run.store()).get(run.key());
                        step = registry.resume_inject(run, reply);
                    }
                }
            };
            assert_eq!(stepped, registry.inject(text, store));
        }
    }
}
