use std::cell::RefCell;
use std::collections::BTreeMap;
use std::sync::Arc;

use secret_registry::error::SecretError;
use secret_registry::registry::{Backend, SecretRegistry, SecretStore};
use secret_registry::tools::{
    Property, Schema, SecretsDeleteTool, SecretsInjectTool, SecretsListTool, SecretsSetTool,
    SecretsStoresTool, ToolResult,
};

struct Memory(RefCell<BTreeMap<String, String>>);

impl SecretStore for Memory {
    fn get(&self, key: &str) -> Result<String, SecretError> {
        match self.0.borrow().get(key) {
            Some(value) => Ok(value.clone()),
            None => Err(SecretError::NotFound { key: key.to_string() }),
        }
    }

    fn set(&self, key: &str, value: &str) -> Result<(), SecretError> {
        self.0.borrow_mut().insert(key.to_string(), value.to_string());
        Ok(())
    }

    fn list(&self) -> Result<Vec<String>, SecretError> {
        Ok(self.0.borrow().keys().cloned().collect())
    }

    fn delete(&self, key: &str) -> Result<(), SecretError> {
        match self.0.borrow_mut().remove(key) {
            Some(_) => Ok(()),
            None => Err(SecretError::NotFound { key: key.to_string() }),
        }
    }
}

impl Backend for Memory {
    fn backend(&self) -> &str {
        "memory"
    }
}

fn registry(names: &[&str]) -> Arc<SecretRegistry<Memory>> {
    Arc::new(SecretRegistry::new(
        names
            .iter()
            .map(|name| (name.to_string(), Memory(RefCell::new(BTreeMap::new()))))
            .collect(),
    ))
}

fn args(text: &str) -> serde_json::Value {
    serde_json::from_str(text).unwrap()
}

fn done(output: &str) -> Result<ToolResult, SecretError> {
    Ok(ToolResult { success: true, output: output.to_string(), error: None })
}

fn failed(error: &str) -> Result<ToolResult, SecretError> {
    Ok(ToolResult { success: false, output: String::new(), error: Some(error.to_string()) })
}

fn missing(name: &str) -> Result<ToolResult, SecretError> {
    Err(SecretError::MissingParameter { name: name.to_string() })
}

#[test]
fn set_tool_stores_in_capitals() {
    let registry = registry(&["first", "second"]);
    let tool = SecretsSetTool::new(registry.clone());
    assert_eq!(
        tool.execute(args(r#"{"key":"gmail_key","value":"v"}"#)),
        done("Secret 'GMAIL_KEY' stored successfully.")
    );
    assert_eq!(registry.get("GMAIL_KEY", Some("first")), Ok("v".to_string()));
    assert_eq!(
        tool.execute(args(r#"{"key":"K","value":"w","store":"second"}"#)),
        done("Secret 'K' stored successfully.")
    );
    assert_eq!(registry.get("K", Some("second")), Ok("w".to_string()));
    assert!(registry.get("K", Some("first")).is_err());
}

#[test]
fn set_tool_reports_failures() {
    let tool = SecretsSetTool::new(registry(&["first"]));
    assert_eq!(
        tool.execute(args(r#"{"key":"a-b","value":"v"}"#)),
        failed(
            "Failed to store secret: invalid secret key 'a-b': only alphanumeric and underscores allowed (got '-')"
        )
    );
    assert_eq!(
        tool.execute(args(r#"{"key":"K","value":"v","store":"none"}"#)),
        failed("Failed to store secret: unknown secret store: none")
    );
}

#[test]
fn required_arguments_must_be_strings() {
    let registry = registry(&["first"]);
    let set = SecretsSetTool::new(registry.clone());
    assert_eq!(set.execute(args("{}")), missing("key"));
    assert_eq!(set.execute(args(r#"{"value":"v"}"#)), missing("key"));
    assert_eq!(set.execute(args(r#"{"key":"K"}"#)), missing("value"));
    assert_eq!(set.execute(args(r#"{"key":1,"value":"v"}"#)), missing("key"));
    assert_eq!(set.execute(args(r#"{"key":"K","value":null}"#)), missing("value"));
    assert_eq!(set.execute(args(r#"["key","value"]"#)), missing("key"));
    let delete = SecretsDeleteTool::new(registry.clone());
    assert_eq!(delete.execute(args(r#"{"store":"first"}"#)), missing("key"));
    let inject = SecretsInjectTool::new(registry);
    assert_eq!(inject.execute(args(r#"{"key":"K"}"#)), missing("content"));
}

#[test]
fn a_store_that_is_no_string_counts_as_none() {
    let registry = registry(&["first", "second"]);
    let tool = SecretsSetTool::new(registry.clone());
    assert_eq!(
        tool.execute(args(r#"{"key":"K","value":"v","store":7}"#)),
        done("Secret 'K' stored successfully.")
    );
    assert_eq!(registry.get("K", Some("first")), Ok("v".to_string()));
}

#[test]
fn list_tool_hides_internal_keys() {
    let registry = registry(&["first", "second"]);
    let tool = SecretsListTool::new(registry.clone());
    assert_eq!(tool.execute(args("{}")), done("No secrets stored."));
    registry.set("__API_KEY", "x", None).unwrap();
    assert_eq!(tool.execute(args("{}")), done("No secrets stored."));
    registry.set("B", "x", None).unwrap();
    registry.set("A", "x", Some("second")).unwrap();
    registry.set("B", "x", Some("second")).unwrap();
    assert_eq!(tool.execute(args("{}")), done("B\nA"));
    assert_eq!(tool.execute(args(r#"{"store":"second"}"#)), done("A\nB"));
    assert_eq!(
        tool.execute(args(r#"{"store":"none"}"#)),
        failed("Failed to list secrets: unknown secret store: none")
    );
}

#[test]
fn delete_tool_takes_the_key_as_written() {
    let registry = registry(&["first"]);
    registry.set("K", "v", None).unwrap();
    let tool = SecretsDeleteTool::new(registry.clone());
    assert_eq!(
        tool.execute(args(r#"{"key":"k"}"#)),
        failed("Failed to delete secret: secret not found: k")
    );
    assert_eq!(tool.execute(args(r#"{"key":"K"}"#)), done("Secret 'K' deleted."));
    assert!(registry.get("K", None).is_err());
    assert_eq!(
        tool.execute(args(r#"{"key":"K","store":"none"}"#)),
        failed("Failed to delete secret: unknown secret store: none")
    );
}

#[test]
fn inject_tool_returns_all_or_nothing() {
    let registry = registry(&["first", "second"]);
    registry.set("K", "v", None).unwrap();
    registry.set("K", "w", Some("second")).unwrap();
    let tool = SecretsInjectTool::new(registry);
    assert_eq!(tool.execute(args(r#"{"content":"<{{secret:K}}>"}"#)), done("<v>"));
    assert_eq!(
        tool.execute(args(r#"{"content":"<{{secret:K}}>","store":"second"}"#)),
        done("<w>")
    );
    assert_eq!(
        tool.execute(args(r#"{"content":"{{secret:K}}{{secret:L}}"}"#)),
        failed("Failed to inject secrets: secret not found: L")
    );
}

#[test]
fn stores_tool_marks_the_default() {
    let tool = SecretsStoresTool::new(registry(&["local", "bitwarden", "work-vault"]));
    assert_eq!(tool.execute(args("null")), done("local (default)\nbitwarden\nwork-vault"));
    assert_eq!(
        SecretsStoresTool::new(registry(&[])).execute(args("{}")),
        done("No secret stores configured.")
    );
}

fn property(name: &str, description: &str) -> Property {
    Property {
        name: name.to_string(),
        kind: "string".to_string(),
        description: description.to_string(),
    }
}

fn required(names: &[&str]) -> Option<Vec<String>> {
    Some(names.iter().map(|n| n.to_string()).collect())
}

#[test]
fn tools_describe_themselves() {
    let registry = registry(&["first"]);
    let set = SecretsSetTool::new(registry.clone());
    assert_eq!(set.name(), "secrets_set");
    assert_eq!(
        set.description(),
        "Store a secret (API key, token, credential). Keys are auto-uppercased. Only alphanumeric and underscores allowed."
    );
    assert_eq!(
        set.parameters_schema(),
        Schema {
            kind: "object".to_string(),
            properties: vec![
                property("key", "Secret key name (alphanumeric + underscores, auto-uppercased)"),
                property("value", "Secret value to store"),
                property(
                    "store",
                    "Optional target store name. If omitted, uses the default (first) store."
                ),
            ],
            required: required(&["key", "value"]),
        }
    );
    let list = SecretsListTool::new(registry.clone());
    assert_eq!(list.name(), "secrets_list");
    assert_eq!(
        list.description(),
        "List available secret key names (internal keys prefixed with __ are hidden)."
    );
    assert_eq!(
        list.parameters_schema(),
        Schema {
            kind: "object".to_string(),
            properties: vec![property(
                "store",
                "Optional store name to list from. If omitted, lists from all stores."
            )],
            required: None,
        }
    );
    let delete = SecretsDeleteTool::new(registry.clone());
    assert_eq!(delete.name(), "secrets_delete");
    assert_eq!(delete.description(), "Delete a stored secret by key name.");
    assert_eq!(
        delete.parameters_schema(),
        Schema {
            kind: "object".to_string(),
            properties: vec![
                property("key", "Secret key name to delete"),
                property("store", "Optional target store name."),
            ],
            required: required(&["key"]),
        }
    );
    let inject = SecretsInjectTool::new(registry.clone());
    assert_eq!(inject.name(), "secrets_inject");
    assert_eq!(
        inject.description(),
        "Substitute {{secret:KEY}} tokens in a string with their stored values. Returns the substituted string. Fails if any referenced key is not found."
    );
    assert_eq!(
        inject.parameters_schema(),
        Schema {
            kind: "object".to_string(),
            properties: vec![
                property("content", "String containing {{secret:KEY}} tokens to substitute"),
                property("store", "Optional default store for token resolution."),
            ],
            required: required(&["content"]),
        }
    );
    let stores = SecretsStoresTool::new(registry);
    assert_eq!(stores.name(), "secrets_stores");
    assert_eq!(
        stores.description(),
        "List configured secret store names and which is the default write target."
    );
    assert_eq!(stores.parameters_schema(), Schema { kind: "object".to_string(), properties: vec![], required: None });
}
