//! The tools through which a language model works with secrets.
//!
//! A tool reads its arguments from a JSON object, works on the registry and reports what came of
//! it. There is no tool that reads the value of a secret.

use std::sync::Arc;
use vstd::prelude::*;
use crate::error::{list_outcome, text_outcome, unit_outcome, Fault, SecretError};
use crate::inject::inject_result;
use crate::json::{string_member, string_members};
use crate::listing::list_result;
use crate::registry::{Backend, SecretRegistry, SecretStore, StoreInfo};
use crate::text::{
    as_text, concat2, concat3, join, joined, law_capitals, law_joined, opt_string, texts,
    to_uppercase, uppercase,
};

verus! {

/// What a tool reports.
#[derive(Debug, PartialEq, Eq)]
pub struct ToolResult {
    pub success: bool,
    pub output: String,
    pub error: Option<String>,
}

/// What a tool reports, over texts.
pub struct ReportView {
    pub success: bool,
    pub output: Seq<char>,
    pub error: Option<Seq<char>>,
}

impl View for ToolResult {
    type V = ReportView;

    open spec fn view(&self) -> ReportView {
        ReportView {
            success: self.success,
            output: self.output@,
            error: opt_string(self.error),
        }
    }
}

/// The report of a tool that did its work.
pub open spec fn success(output: Seq<char>) -> ReportView {
    ReportView { success: true, output, error: None }
}

/// The report of a tool that failed: what it failed at, and why.
pub open spec fn failure(at: Seq<char>, f: Fault) -> ReportView {
    ReportView { success: false, output: Seq::empty(), error: Some(at + f.message()) }
}

fn succeeded(output: String) -> (r: ToolResult)
    ensures
        r@ == success(output@),
{
    ToolResult { success: true, output, error: None }
}

fn failed(at: &str, e: &SecretError) -> (r: ToolResult)
    ensures
        r@ == failure(at@, e@),
{
    let reason = e.message();
    let output = String::new();
    assert(output@ =~= Seq::empty());
    ToolResult { success: false, output, error: Some(concat2(at, reason.as_str())) }
}

/// A report or a fault, over texts.
pub open spec fn report_outcome(r: Result<ToolResult, SecretError>) -> Result<ReportView, Fault> {
    match r {
        Ok(report) => Ok(report@),
        Err(e) => Err(e@),
    }
}

/// The report of `secrets_set`.
pub open spec fn set_report_of(key: Seq<char>, outcome: Result<(), Fault>) -> ReportView {
    match outcome {
        Ok(()) => success("Secret '"@ + uppercase(key) + "' stored successfully."@),
        Err(f) => failure("Failed to store secret: "@, f),
    }
}

/// The report of `secrets_list`.
pub open spec fn list_report_of(outcome: Result<Seq<Seq<char>>, Fault>) -> ReportView {
    match outcome {
        Ok(keys) => success(
            if keys.len() == 0 {
                "No secrets stored."@
            } else {
                joined(keys, "\n"@)
            },
        ),
        Err(f) => failure("Failed to list secrets: "@, f),
    }
}

/// The report of `secrets_delete`.
pub open spec fn delete_report_of(key: Seq<char>, outcome: Result<(), Fault>) -> ReportView {
    match outcome {
        Ok(()) => success("Secret '"@ + key + "' deleted."@),
        Err(f) => failure("Failed to delete secret: "@, f),
    }
}

/// The report of `secrets_inject`.
pub open spec fn inject_report_of(outcome: Result<Seq<char>, Fault>) -> ReportView {
    match outcome {
        Ok(text) => success(text),
        Err(f) => failure("Failed to inject secrets: "@, f),
    }
}

/// The lines of `secrets_stores`: the names of the stores, of which the first is the default.
pub open spec fn store_lines(names: Seq<Seq<char>>) -> Seq<Seq<char>> {
    Seq::new(
        names.len(),
        |i: int|
            if i == 0 {
                names[i] + " (default)"@
            } else {
                names[i]
            },
    )
}

/// The report of `secrets_stores`.
pub open spec fn stores_report_of(names: Seq<Seq<char>>) -> ReportView {
    success(
        if names.len() == 0 {
            "No secret stores configured."@
        } else {
            joined(store_lines(names), "\n"@)
        },
    )
}

/// Reports what came of storing a secret.
pub fn set_report(key: &str, outcome: Result<(), SecretError>) -> (r: ToolResult)
    ensures
        r@ == set_report_of(key@, unit_outcome(outcome)),
{
    match outcome {
        Ok(()) => {
            let stored = to_uppercase(key);
            succeeded(concat3("Secret '", stored.as_str(), "' stored successfully."))
        },
        Err(e) => failed("Failed to store secret: ", &e),
    }
}

/// Reports what came of listing the keys.
pub fn list_report(outcome: Result<Vec<String>, SecretError>) -> (r: ToolResult)
    ensures
        r@ == list_report_of(list_outcome(outcome)),
{
    match outcome {
        Ok(keys) => if keys.len() == 0 {
            succeeded("No secrets stored.".to_owned())
        } else {
            succeeded(join(&keys, "\n"))
        },
        Err(e) => failed("Failed to list secrets: ", &e),
    }
}

/// Reports what came of deleting a secret.
pub fn delete_report(key: &str, outcome: Result<(), SecretError>) -> (r: ToolResult)
    ensures
        r@ == delete_report_of(key@, unit_outcome(outcome)),
{
    match outcome {
        Ok(()) => succeeded(concat3("Secret '", key, "' deleted.")),
        Err(e) => failed("Failed to delete secret: ", &e),
    }
}

/// Reports what came of replacing the tokens of a text.
pub fn inject_report(outcome: Result<String, SecretError>) -> (r: ToolResult)
    ensures
        r@ == inject_report_of(text_outcome(outcome)),
{
    match outcome {
        Ok(text) => succeeded(text),
        Err(e) => failed("Failed to inject secrets: ", &e),
    }
}

/// Reports which stores there are.
pub fn stores_report<S: Backend>(registry: &SecretRegistry<S>) -> (r: ToolResult)
    ensures
        r@ == stores_report_of(registry.names()),
{
    let stores: Vec<StoreInfo> = registry.store_info();
    if stores.len() == 0 {
        return succeeded("No secret stores configured.".to_owned());
    }
    let ghost names = registry.names();
    let mut lines: Vec<String> = Vec::new();
    let mut i: usize = 0;
    while i < stores.len()
        invariant
            i <= stores.len(),
            names == registry.names(),
            stores.len() == names.len(),
            forall|j: int|
                0 <= j < stores.len() ==> (#[trigger] stores[j]).name@ == names[j]
                    && stores[j].is_default == (j == 0),
            lines.len() == i,
            forall|j: int| 0 <= j < i ==> #[trigger] lines[j]@ == store_lines(names)[j],
        decreases stores.len() - i,
    {
        let line = if stores[i].is_default {
            concat2(stores[i].name.as_str(), " (default)")
        } else {
            stores[i].name.clone()
        };
        lines.push(line);
        i += 1;
    }
    assert(texts(lines@) =~= store_lines(names));
    succeeded(join(&lines, "\n"))
}

/// An argument of a tool call: the member of this name, if it is a string.
pub open spec fn argument(members: Map<Seq<char>, Seq<char>>, name: Seq<char>) -> Option<
    Seq<char>,
> {
    if members.contains_key(name) {
        Some(members[name])
    } else {
        None
    }
}

/// An argument that a tool needs.
fn required(args: &serde_json::Value, name: &str) -> (r: Result<String, SecretError>)
    ensures
        text_outcome(r) == (match argument(string_members(*args), name@) {
            Some(text) => Ok::<Seq<char>, Fault>(text),
            None => Err(Fault::MissingParameter(name@)),
        }),
{
    match string_member(args, name) {
        Some(text) => Ok(text),
        None => Err(SecretError::MissingParameter { name: name.to_owned() }),
    }
}

/// The arguments of `secrets_set`: the key, the value, and the store if one is named.
pub open spec fn set_call(members: Map<Seq<char>, Seq<char>>) -> Result<
    (Seq<char>, Seq<char>, Option<Seq<char>>),
    Fault,
> {
    match (argument(members, "key"@), argument(members, "value"@)) {
        (None, _) => Err(Fault::MissingParameter("key"@)),
        (Some(_), None) => Err(Fault::MissingParameter("value"@)),
        (Some(key), Some(value)) => Ok((key, value, argument(members, "store"@))),
    }
}

/// The arguments of a tool that needs the one of this name, and takes a store.
pub open spec fn one_call(members: Map<Seq<char>, Seq<char>>, name: Seq<char>) -> Result<
    (Seq<char>, Option<Seq<char>>),
    Fault,
> {
    match argument(members, name) {
        None => Err(Fault::MissingParameter(name)),
        Some(text) => Ok((text, argument(members, "store"@))),
    }
}

/// The arguments of `secrets_set`: the key, the value, and the store if one is named.
pub fn set_arguments(args: &serde_json::Value) -> (r: Result<
    (String, String, Option<String>),
    SecretError,
>)
    ensures
        match r {
            Ok((key, value, store)) => set_call(string_members(*args)) == Ok::<
                (Seq<char>, Seq<char>, Option<Seq<char>>),
                Fault,
            >((key@, value@, opt_string(store))),
            Err(e) => set_call(string_members(*args)) == Err::<
                (Seq<char>, Seq<char>, Option<Seq<char>>),
                Fault,
            >(e@),
        },
{
    match required(args, "key") {
        Err(e) => Err(e),
        Ok(key) => match required(args, "value") {
            Err(e) => Err(e),
            Ok(value) => Ok((key, value, string_member(args, "store"))),
        },
    }
}

fn one_argument(args: &serde_json::Value, name: &str) -> (r: Result<
    (String, Option<String>),
    SecretError,
>)
    ensures
        match r {
            Ok((text, store)) => one_call(string_members(*args), name@) == Ok::<
                (Seq<char>, Option<Seq<char>>),
                Fault,
            >((text@, opt_string(store))),
            Err(e) => one_call(string_members(*args), name@) == Err::<
                (Seq<char>, Option<Seq<char>>),
                Fault,
            >(e@),
        },
{
    match required(args, name) {
        Err(e) => Err(e),
        Ok(text) => Ok((text, string_member(args, "store"))),
    }
}

/// The argument of `secrets_list`: the store, if one is named.
pub fn list_arguments(args: &serde_json::Value) -> (r: Option<String>)
    ensures
        opt_string(r) == argument(string_members(*args), "store"@),
{
    string_member(args, "store")
}

/// The arguments of `secrets_delete`: the key, and the store if one is named.
pub fn delete_arguments(args: &serde_json::Value) -> (r: Result<
    (String, Option<String>),
    SecretError,
>)
    ensures
        match r {
            Ok((key, store)) => one_call(string_members(*args), "key"@) == Ok::<
                (Seq<char>, Option<Seq<char>>),
                Fault,
            >((key@, opt_string(store))),
            Err(e) => one_call(string_members(*args), "key"@) == Err::<
                (Seq<char>, Option<Seq<char>>),
                Fault,
            >(e@),
        },
{
    one_argument(args, "key")
}

/// The arguments of `secrets_inject`: the text, and the store if one is named.
pub fn inject_arguments(args: &serde_json::Value) -> (r: Result<
    (String, Option<String>),
    SecretError,
>)
    ensures
        match r {
            Ok((content, store)) => one_call(string_members(*args), "content"@) == Ok::<
                (Seq<char>, Option<Seq<char>>),
                Fault,
            >((content@, opt_string(store))),
            Err(e) => one_call(string_members(*args), "content"@) == Err::<
                (Seq<char>, Option<Seq<char>>),
                Fault,
            >(e@),
        },
{
    one_argument(args, "content")
}

/// A parameter of a tool.
#[derive(Debug, PartialEq, Eq)]
pub struct Property {
    pub name: String,
    /// The JSON type of the parameter.
    pub kind: String,
    pub description: String,
}

/// The parameters of a tool, and which of them a call must give if there are such.
#[derive(Debug, PartialEq, Eq)]
pub struct Schema {
    /// The JSON type of all arguments together.
    pub kind: String,
    pub properties: Vec<Property>,
    pub required: Option<Vec<String>>,
}

/// A parameter of a tool, over texts.
pub struct PropertyView {
    pub name: Seq<char>,
    pub kind: Seq<char>,
    pub description: Seq<char>,
}

/// The parameters of a tool, over texts.
#[verifier::ext_equal]
pub struct SchemaView {
    pub kind: Seq<char>,
    pub properties: Seq<PropertyView>,
    pub required: Option<Seq<Seq<char>>>,
}

impl View for Property {
    type V = PropertyView;

    open spec fn view(&self) -> PropertyView {
        PropertyView { name: self.name@, kind: self.kind@, description: self.description@ }
    }
}

impl View for Schema {
    type V = SchemaView;

    open spec fn view(&self) -> SchemaView {
        SchemaView {
            kind: self.kind@,
            properties: self.properties@.map_values(|p: Property| p@),
            required: match self.required {
                Some(names) => Some(texts(names@)),
                None => None,
            },
        }
    }
}

/// A parameter that is a string.
pub open spec fn text_property(name: Seq<char>, description: Seq<char>) -> PropertyView {
    PropertyView { name, kind: "string"@, description }
}

/// The parameters of a tool whose arguments form an object.
pub open spec fn object_schema(
    properties: Seq<PropertyView>,
    required: Option<Seq<Seq<char>>>,
) -> SchemaView {
    SchemaView { kind: "object"@, properties, required }
}

fn property(name: &str, description: &str) -> (r: Property)
    ensures
        r@ == text_property(name@, description@),
{
    Property {
        name: name.to_owned(),
        kind: "string".to_owned(),
        description: description.to_owned(),
    }
}

/// The parameters of `secrets_set`.
pub open spec fn set_schema() -> SchemaView {
    object_schema(
        seq![
            text_property(
                "key"@,
                "Secret key name (alphanumeric + underscores, auto-uppercased)"@,
            ),
            text_property("value"@, "Secret value to store"@),
            text_property(
                "store"@,
                "Optional target store name. If omitted, uses the default (first) store."@,
            ),
        ],
        Some(seq!["key"@, "value"@]),
    )
}

/// The parameters of `secrets_list`.
pub open spec fn list_schema() -> SchemaView {
    object_schema(
        seq![
            text_property(
                "store"@,
                "Optional store name to list from. If omitted, lists from all stores."@,
            ),
        ],
        None,
    )
}

/// The parameters of `secrets_delete`.
pub open spec fn delete_schema() -> SchemaView {
    object_schema(
        seq![
            text_property("key"@, "Secret key name to delete"@),
            text_property("store"@, "Optional target store name."@),
        ],
        Some(seq!["key"@]),
    )
}

/// The parameters of `secrets_inject`.
pub open spec fn inject_schema() -> SchemaView {
    object_schema(
        seq![
            text_property("content"@, "String containing {{secret:KEY}} tokens to substitute"@),
            text_property("store"@, "Optional default store for token resolution."@),
        ],
        Some(seq!["content"@]),
    )
}

/// The parameters of `secrets_stores`, which has none.
pub open spec fn stores_schema() -> SchemaView {
    object_schema(seq![], None)
}

/// Stores a secret.
pub struct SecretsSetTool<S> {
    registry: Arc<SecretRegistry<S>>,
}

impl<S> SecretsSetTool<S> {
    /// The registry that the tool works on.
    pub closed spec fn of(&self) -> SecretRegistry<S> {
        *self.registry
    }

    /// The tool, for a registry.
    pub fn new(registry: Arc<SecretRegistry<S>>) -> (r: Self)
        ensures
            r.of() == *registry,
    {
        SecretsSetTool { registry }
    }

    /// The registry that the tool works on.
    pub fn registry(&self) -> (r: &SecretRegistry<S>)
        ensures
            *r == self.of(),
    {
        &self.registry
    }

    /// The name of the tool.
    pub fn name(&self) -> (r: &'static str)
        ensures
            r@ == "secrets_set"@,
    {
        "secrets_set"
    }

    /// What the tool is for.
    pub fn description(&self) -> (r: &'static str)
        ensures
            r@
                == "Store a secret (API key, token, credential). Keys are auto-uppercased. Only alphanumeric and underscores allowed."@,
    {
        "Store a secret (API key, token, credential). Keys are auto-uppercased. Only alphanumeric and underscores allowed."
    }

    /// The parameters of the tool.
    pub fn parameters_schema(&self) -> (r: Schema)
        ensures
            r@ == set_schema(),
    {
        let properties: Vec<Property> = vec![
            property("key", "Secret key name (alphanumeric + underscores, auto-uppercased)"),
            property("value", "Secret value to store"),
            property(
                "store",
                "Optional target store name. If omitted, uses the default (first) store.",
            ),
        ];
        let required: Vec<String> = vec!["key".to_owned(), "value".to_owned()];
        assert(texts(required@) =~= seq!["key"@, "value"@]);
        let schema = Schema { kind: "object".to_owned(), properties, required: Some(required) };
        assert(schema@.properties =~= set_schema().properties);
        schema
    }
}

impl<S: SecretStore> SecretsSetTool<S> {
    /// Whether a call with these arguments may come to this: the report says what storing the
    /// secret came to.
    pub open spec fn executed(
        &self,
        members: Map<Seq<char>, Seq<char>>,
        reported: Result<ReportView, Fault>,
    ) -> bool {
        match set_call(members) {
            Err(f) => reported == Err::<ReportView, Fault>(f),
            Ok((key, value, store)) => exists|outcome: Result<(), Fault>| #[trigger]
                self.of().stored(key, value, store, outcome) && reported == Ok::<
                    ReportView,
                    Fault,
                >(set_report_of(key, outcome)),
        }
    }

    /// Stores the secret that the arguments describe and reports what came of it.
    pub fn execute(&self, args: serde_json::Value) -> (r: Result<ToolResult, SecretError>)
        ensures
            self.executed(string_members(args), report_outcome(r)),
    {
        match set_arguments(&args) {
            Err(e) => Err(e),
            Ok((key, value, store)) => {
                let outcome = self.registry.set(key.as_str(), value.as_str(), as_text(&store));
                let ghost call = set_call(string_members(args))->Ok_0;
                assert(self.of().stored(call.0, call.1, call.2, unit_outcome(outcome)));
                Ok(set_report(key.as_str(), outcome))
            },
        }
    }
}

/// Lists the keys of the secrets.
pub struct SecretsListTool<S> {
    registry: Arc<SecretRegistry<S>>,
}

impl<S> SecretsListTool<S> {
    /// The registry that the tool works on.
    pub closed spec fn of(&self) -> SecretRegistry<S> {
        *self.registry
    }

    /// The tool, for a registry.
    pub fn new(registry: Arc<SecretRegistry<S>>) -> (r: Self)
        ensures
            r.of() == *registry,
    {
        SecretsListTool { registry }
    }

    /// The registry that the tool works on.
    pub fn registry(&self) -> (r: &SecretRegistry<S>)
        ensures
            *r == self.of(),
    {
        &self.registry
    }

    /// The name of the tool.
    pub fn name(&self) -> (r: &'static str)
        ensures
            r@ == "secrets_list"@,
    {
        "secrets_list"
    }

    /// What the tool is for.
    pub fn description(&self) -> (r: &'static str)
        ensures
            r@
                == "List available secret key names (internal keys prefixed with __ are hidden)."@,
    {
        "List available secret key names (internal keys prefixed with __ are hidden)."
    }

    /// The parameters of the tool.
    pub fn parameters_schema(&self) -> (r: Schema)
        ensures
            r@ == list_schema(),
    {
        let properties: Vec<Property> = vec![
            property(
                "store",
                "Optional store name to list from. If omitted, lists from all stores.",
            ),
        ];
        let schema = Schema { kind: "object".to_owned(), properties, required: None };
        assert(schema@.properties =~= list_schema().properties);
        schema
    }
}

impl<S: SecretStore> SecretsListTool<S> {
    /// Whether a call with these arguments may come to this: the report lists the keys that are
    /// not internal.
    pub open spec fn executed(
        &self,
        members: Map<Seq<char>, Seq<char>>,
        reported: Result<ReportView, Fault>,
    ) -> bool {
        exists|replies: Seq<Result<Seq<Seq<char>>, Fault>>| #[trigger]
            self.of().all_listed(argument(members, "store"@), replies) && reported == Ok::<
                ReportView,
                Fault,
            >(
                list_report_of(
                    list_result(self.of().names(), argument(members, "store"@), false, replies),
                ),
            )
    }

    /// Lists the keys and reports what came of it.
    pub fn execute(&self, args: serde_json::Value) -> (r: Result<ToolResult, SecretError>)
        ensures
            self.executed(string_members(args), report_outcome(r)),
    {
        let store = list_arguments(&args);
        let outcome = self.registry.list(as_text(&store), false);
        Ok(list_report(outcome))
    }
}

/// Deletes a secret.
pub struct SecretsDeleteTool<S> {
    registry: Arc<SecretRegistry<S>>,
}

impl<S> SecretsDeleteTool<S> {
    /// The registry that the tool works on.
    pub closed spec fn of(&self) -> SecretRegistry<S> {
        *self.registry
    }

    /// The tool, for a registry.
    pub fn new(registry: Arc<SecretRegistry<S>>) -> (r: Self)
        ensures
            r.of() == *registry,
    {
        SecretsDeleteTool { registry }
    }

    /// The registry that the tool works on.
    pub fn registry(&self) -> (r: &SecretRegistry<S>)
        ensures
            *r == self.of(),
    {
        &self.registry
    }

    /// The name of the tool.
    pub fn name(&self) -> (r: &'static str)
        ensures
            r@ == "secrets_delete"@,
    {
        "secrets_delete"
    }

    /// What the tool is for.
    pub fn description(&self) -> (r: &'static str)
        ensures
            r@
                == "Delete a stored secret by key name."@,
    {
        "Delete a stored secret by key name."
    }

    /// The parameters of the tool.
    pub fn parameters_schema(&self) -> (r: Schema)
        ensures
            r@ == delete_schema(),
    {
        let properties: Vec<Property> = vec![
            property("key", "Secret key name to delete"),
            property("store", "Optional target store name."),
        ];
        let required: Vec<String> = vec!["key".to_owned()];
        assert(texts(required@) =~= seq!["key"@]);
        let schema = Schema { kind: "object".to_owned(), properties, required: Some(required) };
        assert(schema@.properties =~= delete_schema().properties);
        schema
    }
}

impl<S: SecretStore> SecretsDeleteTool<S> {
    /// Whether a call with these arguments may come to this: the report says what deleting the
    /// secret came to.
    pub open spec fn executed(
        &self,
        members: Map<Seq<char>, Seq<char>>,
        reported: Result<ReportView, Fault>,
    ) -> bool {
        match one_call(members, "key"@) {
            Err(f) => reported == Err::<ReportView, Fault>(f),
            Ok((key, store)) => exists|outcome: Result<(), Fault>| #[trigger]
                self.of().deleted(key, store, outcome) && reported == Ok::<ReportView, Fault>(
                    delete_report_of(key, outcome),
                ),
        }
    }

    /// Deletes the secret that the arguments describe and reports what came of it.
    pub fn execute(&self, args: serde_json::Value) -> (r: Result<ToolResult, SecretError>)
        ensures
            self.executed(string_members(args), report_outcome(r)),
    {
        match delete_arguments(&args) {
            Err(e) => Err(e),
            Ok((key, store)) => {
                let outcome = self.registry.delete(key.as_str(), as_text(&store));
                let ghost call = one_call(string_members(args), "key"@)->Ok_0;
                assert(self.of().deleted(call.0, call.1, unit_outcome(outcome)));
                Ok(delete_report(key.as_str(), outcome))
            },
        }
    }
}

/// Replaces tokens in a text by secrets.
pub struct SecretsInjectTool<S> {
    registry: Arc<SecretRegistry<S>>,
}

impl<S> SecretsInjectTool<S> {
    /// The registry that the tool works on.
    pub closed spec fn of(&self) -> SecretRegistry<S> {
        *self.registry
    }

    /// The tool, for a registry.
    pub fn new(registry: Arc<SecretRegistry<S>>) -> (r: Self)
        ensures
            r.of() == *registry,
    {
        SecretsInjectTool { registry }
    }

    /// The registry that the tool works on.
    pub fn registry(&self) -> (r: &SecretRegistry<S>)
        ensures
            *r == self.of(),
    {
        &self.registry
    }

    /// The name of the tool.
    pub fn name(&self) -> (r: &'static str)
        ensures
            r@ == "secrets_inject"@,
    {
        "secrets_inject"
    }

    /// What the tool is for.
    pub fn description(&self) -> (r: &'static str)
        ensures
            r@
                == "Substitute {{secret:KEY}} tokens in a string with their stored values. Returns the substituted string. Fails if any referenced key is not found."@,
    {
        "Substitute {{secret:KEY}} tokens in a string with their stored values. Returns the substituted string. Fails if any referenced key is not found."
    }

    /// The parameters of the tool.
    pub fn parameters_schema(&self) -> (r: Schema)
        ensures
            r@ == inject_schema(),
    {
        let properties: Vec<Property> = vec![
            property("content", "String containing {{secret:KEY}} tokens to substitute"),
            property("store", "Optional default store for token resolution."),
        ];
        let required: Vec<String> = vec!["content".to_owned()];
        assert(texts(required@) =~= seq!["content"@]);
        let schema = Schema { kind: "object".to_owned(), properties, required: Some(required) };
        assert(schema@.properties =~= inject_schema().properties);
        schema
    }
}

impl<S: SecretStore> SecretsInjectTool<S> {
    /// Whether a call with these arguments may come to this: the report gives the text with the
    /// secrets in place of the tokens.
    pub open spec fn executed(
        &self,
        members: Map<Seq<char>, Seq<char>>,
        reported: Result<ReportView, Fault>,
    ) -> bool {
        match one_call(members, "content"@) {
            Err(f) => reported == Err::<ReportView, Fault>(f),
            Ok((content, store)) => exists|replies: Seq<Seq<Result<Seq<char>, Fault>>>| #[trigger]
                self.of().all_answered(content, store, replies) && reported == Ok::<
                    ReportView,
                    Fault,
                >(inject_report_of(inject_result(self.of().names(), content, store, replies))),
        }
    }

    /// Replaces the tokens of the text in the arguments and reports what came of it.
    pub fn execute(&self, args: serde_json::Value) -> (r: Result<ToolResult, SecretError>)
        ensures
            self.executed(string_members(args), report_outcome(r)),
    {
        match inject_arguments(&args) {
            Err(e) => Err(e),
            Ok((content, store)) => {
                let outcome = self.registry.inject(content.as_str(), as_text(&store));
                proof {
                    let call = one_call(string_members(args), "content"@)->Ok_0;
                    let replies = choose|replies: Seq<Seq<Result<Seq<char>, Fault>>>| #[trigger]
                        self.of().all_answered(content@, opt_string(store), replies)
                            && text_outcome(outcome) == inject_result(
                            self.of().names(),
                            content@,
                            opt_string(store),
                            replies,
                        );
                    assert(self.of().all_answered(call.0, call.1, replies));
                }
                Ok(inject_report(outcome))
            },
        }
    }
}

/// Lists the stores.
pub struct SecretsStoresTool<S> {
    registry: Arc<SecretRegistry<S>>,
}

impl<S> SecretsStoresTool<S> {
    /// The registry that the tool works on.
    pub closed spec fn of(&self) -> SecretRegistry<S> {
        *self.registry
    }

    /// The tool, for a registry.
    pub fn new(registry: Arc<SecretRegistry<S>>) -> (r: Self)
        ensures
            r.of() == *registry,
    {
        SecretsStoresTool { registry }
    }

    /// The registry that the tool works on.
    pub fn registry(&self) -> (r: &SecretRegistry<S>)
        ensures
            *r == self.of(),
    {
        &self.registry
    }

    /// The name of the tool.
    pub fn name(&self) -> (r: &'static str)
        ensures
            r@ == "secrets_stores"@,
    {
        "secrets_stores"
    }

    /// What the tool is for.
    pub fn description(&self) -> (r: &'static str)
        ensures
            r@
                == "List configured secret store names and which is the default write target."@,
    {
        "List configured secret store names and which is the default write target."
    }

    /// The parameters of the tool.
    pub fn parameters_schema(&self) -> (r: Schema)
        ensures
            r@ == stores_schema(),
    {
        let properties: Vec<Property> = Vec::new();
        let schema = Schema { kind: "object".to_owned(), properties, required: None };
        assert(schema@.properties =~= stores_schema().properties);
        schema
    }
}

impl<S: Backend> SecretsStoresTool<S> {
    /// Reports which stores there are. The arguments do not matter.
    pub fn execute(&self, _args: serde_json::Value) -> (r: Result<ToolResult, SecretError>)
        ensures
            report_outcome(r) == Ok::<ReportView, Fault>(stores_report_of(self.of().names())),
    {
        Ok(stores_report(&self.registry))
    }
}

/// A report names an error if and only if the tool failed, and a tool that failed has no output:
/// it returns everything or nothing.
pub proof fn law_reports(
    key: Seq<char>,
    written: Result<(), Fault>,
    listed: Result<Seq<Seq<char>>, Fault>,
    injected: Result<Seq<char>, Fault>,
)
    ensures
        consistent(set_report_of(key, written), written is Ok),
        consistent(delete_report_of(key, written), written is Ok),
        consistent(list_report_of(listed), listed is Ok),
        consistent(inject_report_of(injected), injected is Ok),
{
}

/// Whether a report agrees with whether the tool succeeded.
pub open spec fn consistent(report: ReportView, succeeded: bool) -> bool {
    &&& report.success == succeeded
    &&& report.error is None == succeeded
    &&& !succeeded ==> report.output == Seq::<char>::empty()
}

/// A call is refused for a missing parameter if and only if it leaves out one that the schema
/// says it must give.
pub proof fn law_required_parameters(members: Map<Seq<char>, Seq<char>>)
    ensures
        set_call(members) is Ok <==> gives_required(set_schema(), members),
        one_call(members, "key"@) is Ok <==> gives_required(delete_schema(), members),
        one_call(members, "content"@) is Ok <==> gives_required(inject_schema(), members),
        gives_required(list_schema(), members),
        gives_required(stores_schema(), members),
{
    let both = set_schema().required->0;
    assert(both[0] == "key"@ && both[1] == "value"@);
    assert(both.contains("key"@) && both.contains("value"@));
    let key = delete_schema().required->0;
    assert(key[0] == "key"@);
    assert(key.contains("key"@));
    let content = inject_schema().required->0;
    assert(content[0] == "content"@);
    assert(content.contains("content"@));
}

/// Whether the members hold every parameter that a schema says a call must give.
pub open spec fn gives_required(
    schema: SchemaView,
    members: Map<Seq<char>, Seq<char>>,
) -> bool {
    match schema.required {
        None => true,
        Some(names) => forall|name: Seq<char>| #[trigger]
            names.contains(name) ==> members.contains_key(name),
    }
}

/// A report, a parameter and a schema are kept whole and in order.
pub proof fn law_tool_texts(report: ToolResult, p: Property, schema: Schema, i: int)
    ensures
        report@.success == report.success,
        report@.output == report.output@,
        report.error matches Some(error) ==> report@.error == Some(error@),
        report.error is None ==> report@.error is None,
        p@.name == p.name@,
        p@.kind == p.kind@,
        p@.description == p.description@,
        schema@.kind == schema.kind@,
        schema@.properties.len() == schema.properties@.len(),
        0 <= i < schema.properties@.len() ==> schema@.properties[i] == schema.properties@[i]@,
        schema.required matches Some(names) ==> (schema@.required matches Some(listed)
            && listed.len() == names@.len() && (0 <= i < listed.len() ==> listed[i]
            == names@[i]@)),
        schema.required is None ==> schema@.required is None,
{
}

/// A tool that fails says what it failed at and quotes the whole message of the fault.
pub proof fn law_failures_are_quoted(key: Seq<char>, f: Fault)
    ensures
        set_report_of(key, Err(f)).error == Some("Failed to store secret: "@ + f.message()),
        list_report_of(Err(f)).error == Some("Failed to list secrets: "@ + f.message()),
        delete_report_of(key, Err(f)).error == Some("Failed to delete secret: "@ + f.message()),
        inject_report_of(Err(f)).error == Some("Failed to inject secrets: "@ + f.message()),
{
}

/// A tool that succeeds reports what it did: the key that was stored is named in capitals, the one
/// that was deleted as it is written, and the text that was filled is given whole.
pub proof fn law_successes_are_told(key: Seq<char>, text: Seq<char>, capitals: Seq<char>)
    requires
        capitals.len() == key.len(),
        forall|i: int|
            0 <= i < key.len() ==> (#[trigger] capitals[i]) as int == (if 97 <= key[i] as int
                <= 122 {
                key[i] as int - 32
            } else {
                key[i] as int
            }),
    ensures
        set_report_of(key, Ok(())).output == "Secret '"@ + capitals + "' stored successfully."@,
        delete_report_of(key, Ok(())).output == "Secret '"@ + key + "' deleted."@,
        inject_report_of(Ok(text)).output == text,
{
    assert forall|i: int| 0 <= i < key.len() implies uppercase(key)[i] == #[trigger] capitals[
        i
    ] by {
        law_capitals(key, i);
    }
    assert(uppercase(key) =~= capitals);
}

/// A list of keys is reported with every key on a line of its own, in order, or as empty.
pub proof fn law_keys_are_lines(keys: Seq<Seq<char>>, key: Seq<char>)
    ensures
        list_report_of(Ok(seq![])).output == "No secrets stored."@,
        list_report_of(Ok(seq![key])).output == key,
        keys.len() > 0 ==> list_report_of(Ok(keys.push(key))).output == list_report_of(
            Ok(keys),
        ).output + "\n"@ + key,
{
    law_joined(keys, seq![key], key, "\n"@);
    assert(keys + seq![key] =~= keys.push(key));
}

/// Every store is reported by name on a line of its own, in order, and the first and no other as
/// the default.
pub proof fn law_stores_are_lines(names: Seq<Seq<char>>, name: Seq<char>)
    ensures
        stores_report_of(seq![]).output == "No secret stores configured."@,
        stores_report_of(seq![name]).output == name + " (default)"@,
        names.len() > 0 ==> stores_report_of(names.push(name)).output == stores_report_of(
            names,
        ).output + "\n"@ + name,
        stores_report_of(names).success,
        stores_report_of(names).error is None,
{
    let one = store_lines(seq![name]);
    assert(one =~= seq![name + " (default)"@]);
    if names.len() > 0 {
        let lines = store_lines(names);
        law_joined(lines, seq![name], name, "\n"@);
        assert(store_lines(names.push(name)) =~= lines + seq![name]);
    }
}

/// An argument is the member of its name, whole, if the call gives it as a string. Setting needs the
/// key and then the value; deleting and filling need one; a store may be given to all.
pub proof fn law_arguments(members: Map<Seq<char>, Seq<char>>, name: Seq<char>)
    ensures
        members.contains_key(name) ==> argument(members, name) == Some(members[name]),
        !members.contains_key(name) ==> argument(members, name) is None,
        !members.contains_key("key"@) ==> set_call(members) == Err::<
            (Seq<char>, Seq<char>, Option<Seq<char>>),
            Fault,
        >(Fault::MissingParameter("key"@)),
        members.contains_key("key"@) && !members.contains_key("value"@) ==> set_call(members)
            == Err::<(Seq<char>, Seq<char>, Option<Seq<char>>), Fault>(
            Fault::MissingParameter("value"@),
        ),
        members.contains_key("key"@) && members.contains_key("value"@) ==> (set_call(
            members,
        ) matches Ok((key, value, store)) && key == members["key"@] && value == members["value"@]
            && store == argument(members, "store"@)),
        !members.contains_key(name) ==> one_call(members, name) == Err::<
            (Seq<char>, Option<Seq<char>>),
            Fault,
        >(Fault::MissingParameter(name)),
        members.contains_key(name) ==> (one_call(members, name) matches Ok((text, store)) && text
            == members[name] && store == argument(members, "store"@)),
{
}

/// Setting, through the tool, stores the value that the call gives under the key that it gives, in
/// the store that it names or in the first, and reports a success exactly when that succeeded.
pub proof fn law_set_tool<S: SecretStore>(
    tool: SecretsSetTool<S>,
    key: Seq<char>,
    value: Seq<char>,
    store: Option<Seq<char>>,
    members: Map<Seq<char>, Seq<char>>,
    reported: Result<ReportView, Fault>,
)
    requires
        tool.executed(members, reported),
        members.contains_key("key"@) && members["key"@] == key,
        members.contains_key("value"@) && members["value"@] == value,
        store == (if members.contains_key("store"@) {
            Some(members["store"@])
        } else {
            None
        }),
    ensures
        exists|outcome: Result<(), Fault>| #[trigger]
            tool.of().stored(key, value, store, outcome) && (reported matches Ok(report)
                && report.success == outcome is Ok && (outcome matches Err(f) ==> report.error
                == Some("Failed to store secret: "@ + f.message()))),
{
    let call = set_call(members)->Ok_0;
    let outcome = choose|outcome: Result<(), Fault>| #[trigger]
        tool.of().stored(call.0, call.1, call.2, outcome) && reported == Ok::<ReportView, Fault>(
            set_report_of(call.0, outcome),
        );
    assert(tool.of().stored(key, value, store, outcome));
}

/// Deleting, through the tool, deletes the key that the call gives, in the store that it names or
/// in the first, and reports a success exactly when that succeeded.
pub proof fn law_delete_tool<S: SecretStore>(
    tool: SecretsDeleteTool<S>,
    key: Seq<char>,
    store: Option<Seq<char>>,
    members: Map<Seq<char>, Seq<char>>,
    reported: Result<ReportView, Fault>,
)
    requires
        tool.executed(members, reported),
        members.contains_key("key"@) && members["key"@] == key,
        store == (if members.contains_key("store"@) {
            Some(members["store"@])
        } else {
            None
        }),
    ensures
        exists|outcome: Result<(), Fault>| #[trigger]
            tool.of().deleted(key, store, outcome) && (reported matches Ok(report)
                && report.success == outcome is Ok && (outcome matches Err(f) ==> report.error
                == Some("Failed to delete secret: "@ + f.message()))),
{
    let call = one_call(members, "key"@)->Ok_0;
    let outcome = choose|outcome: Result<(), Fault>| #[trigger]
        tool.of().deleted(call.0, call.1, outcome) && reported == Ok::<ReportView, Fault>(
            delete_report_of(call.0, outcome),
        );
    assert(tool.of().deleted(key, store, outcome));
}

/// Filling, through the tool, gives the filled text of the content that the call gives, with the
/// store that it names as the default, or the fault that made it fail.
pub proof fn law_inject_tool<S: SecretStore>(
    tool: SecretsInjectTool<S>,
    content: Seq<char>,
    store: Option<Seq<char>>,
    members: Map<Seq<char>, Seq<char>>,
    reported: Result<ReportView, Fault>,
)
    requires
        tool.executed(members, reported),
        members.contains_key("content"@) && members["content"@] == content,
        store == (if members.contains_key("store"@) {
            Some(members["store"@])
        } else {
            None
        }),
    ensures
        exists|replies: Seq<Seq<Result<Seq<char>, Fault>>>| #[trigger]
            tool.of().all_answered(content, store, replies) && (reported matches Ok(report)
                && match inject_result(tool.of().names(), content, store, replies) {
                Ok(text) => report.success && report.output == text && report.error is None,
                Err(f) => !report.success && report.output.len() == 0 && report.error == Some(
                    "Failed to inject secrets: "@ + f.message(),
                ),
            }),
{
    let call = one_call(members, "content"@)->Ok_0;
    let replies = choose|replies: Seq<Seq<Result<Seq<char>, Fault>>>| #[trigger]
        tool.of().all_answered(call.0, call.1, replies) && reported == Ok::<ReportView, Fault>(
            inject_report_of(inject_result(tool.of().names(), call.0, call.1, replies)),
        );
    assert(tool.of().all_answered(content, store, replies));
}

/// Listing, through the tool, gives the keys that are not internal of the store that the call names
/// or of all stores, or the fault that made it fail.
pub proof fn law_list_tool<S: SecretStore>(
    tool: SecretsListTool<S>,
    store: Option<Seq<char>>,
    members: Map<Seq<char>, Seq<char>>,
    reported: Result<ReportView, Fault>,
)
    requires
        tool.executed(members, reported),
        store == (if members.contains_key("store"@) {
            Some(members["store"@])
        } else {
            None
        }),
    ensures
        exists|replies: Seq<Result<Seq<Seq<char>>, Fault>>| #[trigger]
            tool.of().all_listed(store, replies) && (reported matches Ok(report) && match list_result(
                tool.of().names(),
                store,
                false,
                replies,
            ) {
                Ok(keys) => report.success && report.error is None && report == list_report_of(
                    Ok(keys),
                ),
                Err(f) => !report.success && report.output.len() == 0 && report.error == Some(
                    "Failed to list secrets: "@ + f.message(),
                ),
            }),
{
    let replies = choose|replies: Seq<Result<Seq<Seq<char>>, Fault>>| #[trigger]
        tool.of().all_listed(argument(members, "store"@), replies) && reported == Ok::<
            ReportView,
            Fault,
        >(
            list_report_of(
                list_result(tool.of().names(), argument(members, "store"@), false, replies),
            ),
        );
    assert(tool.of().all_listed(store, replies));
}

/// What a tool returns is its report, or the fault that kept it from running.
pub proof fn law_report_outcome(report: ToolResult, e: SecretError)
    ensures
        report_outcome(Ok(report)) == Ok::<ReportView, Fault>(report@),
        report_outcome(Err(e)) == Err::<ReportView, Fault>(e@),
{
}

} // verus!
