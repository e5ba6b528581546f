//! Why an operation on secrets fails, and the message that says so.

use vstd::prelude::*;
use crate::text::{concat2, concat3};

verus! {

/// Why an operation failed.
#[derive(Debug, PartialEq, Eq)]
pub enum SecretError {
    /// No store that was asked holds the key.
    NotFound { key: String },
    /// No configured store has this name.
    UnknownStore { name: String },
    /// There is no store to write to.
    NoStores,
    /// A key must not be empty.
    EmptyKey,
    /// A key holds a character that keys must not hold; `found` is the first such one.
    InvalidKey { key: String, found: char },
    /// A token is neither `secret:KEY` nor `secret@store:KEY`.
    InvalidToken { token: String },
    /// A token names a store but no key.
    MissingColon { token: String },
    /// The configuration file lies in no directory.
    NoConfigDir,
    /// A store entry asks for a backend that does not exist.
    UnknownBackend { backend: String },
    /// A store entry asks for a provider program but names none.
    MissingProvider { store: String },
    /// The secrets file does not begin with the prefix of its format.
    MissingBlobPrefix,
    /// The decrypted contents of the secrets file are not a map of strings.
    BadSecrets,
    /// The secrets could not be written as JSON.
    Unserializable,
    /// The cipher returned something else than an encrypted value.
    NotEncrypted,
    /// There are no secrets to encrypt anew.
    NothingToRotate,
    /// The provider program reported failure.
    ProviderExit { status: String, stderr: String },
    /// The provider program wrote something else than text.
    ProviderNotText,
    /// The provider program wrote nothing.
    ProviderSilent,
    /// The provider program refused the request.
    ProviderRefused { reason: String },
    /// The provider program accepted a read but gave no value.
    ProviderNoValue { key: String },
    /// A tool was called without an argument that it needs.
    MissingParameter { name: String },
    /// Any other failure of a store, in that store's own words.
    Backend { message: String },
}

/// What a `SecretError` says, with texts in place of strings.
pub enum Fault {
    NotFound(Seq<char>),
    UnknownStore(Seq<char>),
    NoStores,
    EmptyKey,
    InvalidKey(Seq<char>, char),
    InvalidToken(Seq<char>),
    MissingColon(Seq<char>),
    NoConfigDir,
    UnknownBackend(Seq<char>),
    MissingProvider(Seq<char>),
    MissingBlobPrefix,
    BadSecrets,
    Unserializable,
    NotEncrypted,
    NothingToRotate,
    ProviderExit(Seq<char>, Seq<char>),
    ProviderNotText,
    ProviderSilent,
    ProviderRefused(Seq<char>),
    ProviderNoValue(Seq<char>),
    MissingParameter(Seq<char>),
    Backend(Seq<char>),
}

impl View for SecretError {
    type V = Fault;

    open spec fn view(&self) -> Fault {
        match self {
            SecretError::NotFound { key } => Fault::NotFound(key@),
            SecretError::UnknownStore { name } => Fault::UnknownStore(name@),
            SecretError::NoStores => Fault::NoStores,
            SecretError::EmptyKey => Fault::EmptyKey,
            SecretError::InvalidKey { key, found } => Fault::InvalidKey(key@, *found),
            SecretError::InvalidToken { token } => Fault::InvalidToken(token@),
            SecretError::MissingColon { token } => Fault::MissingColon(token@),
            SecretError::NoConfigDir => Fault::NoConfigDir,
            SecretError::UnknownBackend { backend } => Fault::UnknownBackend(backend@),
            SecretError::MissingProvider { store } => Fault::MissingProvider(store@),
            SecretError::MissingBlobPrefix => Fault::MissingBlobPrefix,
            SecretError::BadSecrets => Fault::BadSecrets,
            SecretError::Unserializable => Fault::Unserializable,
            SecretError::NotEncrypted => Fault::NotEncrypted,
            SecretError::NothingToRotate => Fault::NothingToRotate,
            SecretError::ProviderExit { status, stderr } => Fault::ProviderExit(status@, stderr@),
            SecretError::ProviderNotText => Fault::ProviderNotText,
            SecretError::ProviderSilent => Fault::ProviderSilent,
            SecretError::ProviderRefused { reason } => Fault::ProviderRefused(reason@),
            SecretError::ProviderNoValue { key } => Fault::ProviderNoValue(key@),
            SecretError::MissingParameter { name } => Fault::MissingParameter(name@),
            SecretError::Backend { message } => Fault::Backend(message@),
        }
    }
}

impl Fault {
    /// The message that tells a person what went wrong.
    pub open spec fn message(self) -> Seq<char> {
        match self {
            Fault::NotFound(key) => "secret not found: "@ + key,
            Fault::UnknownStore(name) => "unknown secret store: "@ + name,
            Fault::NoStores => "no secret stores configured"@,
            Fault::EmptyKey => "secret key cannot be empty"@,
            Fault::InvalidKey(key, found) => "invalid secret key '"@ + key
                + "': only alphanumeric and underscores allowed (got '"@.push(found) + "')"@,
            Fault::InvalidToken(token) => "invalid secret token: {{"@ + token + "}}"@,
            Fault::MissingColon(token) => "invalid secret token: missing ':' in {{"@ + token
                + "}}"@,
            Fault::NoConfigDir => "config path must have a parent directory"@,
            Fault::UnknownBackend(backend) => "unknown secret store backend: "@ + backend,
            Fault::MissingProvider(store) => "secret store '"@ + store
                + "': external backend requires provider_binary"@,
            Fault::MissingBlobPrefix => "invalid .secrets file: missing 'secrets1:' prefix"@,
            Fault::BadSecrets => "failed to parse secrets JSON"@,
            Fault::Unserializable => "failed to serialize secrets"@,
            Fault::NotEncrypted => "encryption did not produce enc2: prefix"@,
            Fault::NothingToRotate => "no secrets to rotate — store is empty"@,
            Fault::ProviderExit(status, stderr) => "provider binary exited with "@ + status + ": "@
                + stderr,
            Fault::ProviderNotText => "provider binary output is not valid UTF-8"@,
            Fault::ProviderSilent => "provider binary produced no output"@,
            Fault::ProviderRefused(reason) => "provider error: "@ + reason,
            Fault::ProviderNoValue(key) => "provider returned ok but no value for key: "@ + key,
            Fault::MissingParameter(name) => "Missing '"@ + name + "' parameter"@,
            Fault::Backend(message) => message,
        }
    }
}

impl SecretError {
    /// The message that tells a person what went wrong.
    pub fn message(&self) -> (r: String)
        ensures
            r@ == self@.message(),
    {
        match self {
            SecretError::NotFound { key } => concat2("secret not found: ", key.as_str()),
            SecretError::UnknownStore { name } => concat2("unknown secret store: ", name.as_str()),
            SecretError::NoStores => "no secret stores configured".to_owned(),
            SecretError::EmptyKey => "secret key cannot be empty".to_owned(),
            SecretError::InvalidKey { key, found } => {
                let mut tail = "': only alphanumeric and underscores allowed (got '".to_owned();
                tail.push(*found);
                let mut r = concat3("invalid secret key '", key.as_str(), tail.as_str());
                r.append("')");
                r
            },
            SecretError::InvalidToken { token } => concat3(
                "invalid secret token: {{",
                token.as_str(),
                "}}",
            ),
            SecretError::MissingColon { token } => concat3(
                "invalid secret token: missing ':' in {{",
                token.as_str(),
                "}}",
            ),
            SecretError::NoConfigDir => "config path must have a parent directory".to_owned(),
            SecretError::UnknownBackend { backend } => concat2(
                "unknown secret store backend: ",
                backend.as_str(),
            ),
            SecretError::MissingProvider { store } => concat3(
                "secret store '",
                store.as_str(),
                "': external backend requires provider_binary",
            ),
            SecretError::MissingBlobPrefix =>
                "invalid .secrets file: missing 'secrets1:' prefix".to_owned(),
            SecretError::BadSecrets => "failed to parse secrets JSON".to_owned(),
            SecretError::Unserializable => "failed to serialize secrets".to_owned(),
            SecretError::NotEncrypted => "encryption did not produce enc2: prefix".to_owned(),
            SecretError::NothingToRotate => "no secrets to rotate — store is empty".to_owned(),
            SecretError::ProviderExit { status, stderr } => {
                let mut r = concat3("provider binary exited with ", status.as_str(), ": ");
                r.append(stderr.as_str());
                r
            },
            SecretError::ProviderNotText => "provider binary output is not valid UTF-8".to_owned(),
            SecretError::ProviderSilent => "provider binary produced no output".to_owned(),
            SecretError::ProviderRefused { reason } => concat2(
                "provider error: ",
                reason.as_str(),
            ),
            SecretError::ProviderNoValue { key } => concat2(
                "provider returned ok but no value for key: ",
                key.as_str(),
            ),
            SecretError::MissingParameter { name } => concat3(
                "Missing '",
                name.as_str(),
                "' parameter",
            ),
            SecretError::Backend { message } => message.clone(),
        }
    }
}

/// What a read returned, as a text or a fault.
pub open spec fn text_outcome(r: Result<String, SecretError>) -> Result<Seq<char>, Fault> {
    match r {
        Ok(s) => Ok(s@),
        Err(e) => Err(e@),
    }
}

/// What a write returned.
pub open spec fn unit_outcome(r: Result<(), SecretError>) -> Result<(), Fault> {
    match r {
        Ok(()) => Ok(()),
        Err(e) => Err(e@),
    }
}

/// What a listing returned, as texts or a fault.
pub open spec fn list_outcome(r: Result<Vec<String>, SecretError>) -> Result<
    Seq<Seq<char>>,
    Fault,
> {
    match r {
        Ok(v) => Ok(crate::text::texts(v@)),
        Err(e) => Err(e@),
    }
}

/// The fault of an error holds all that the error holds, whole.
pub proof fn law_error_keeps_its_texts(a: String, b: String, c: char)
    ensures
        (SecretError::NotFound { key: a })@ == Fault::NotFound(a@),
        (SecretError::UnknownStore { name: a })@ == Fault::UnknownStore(a@),
        SecretError::NoStores@ == Fault::NoStores,
        SecretError::EmptyKey@ == Fault::EmptyKey,
        (SecretError::InvalidKey { key: a, found: c })@ == Fault::InvalidKey(a@, c),
        (SecretError::InvalidToken { token: a })@ == Fault::InvalidToken(a@),
        (SecretError::MissingColon { token: a })@ == Fault::MissingColon(a@),
        SecretError::NoConfigDir@ == Fault::NoConfigDir,
        (SecretError::UnknownBackend { backend: a })@ == Fault::UnknownBackend(a@),
        (SecretError::MissingProvider { store: a })@ == Fault::MissingProvider(a@),
        SecretError::MissingBlobPrefix@ == Fault::MissingBlobPrefix,
        SecretError::BadSecrets@ == Fault::BadSecrets,
        SecretError::Unserializable@ == Fault::Unserializable,
        SecretError::NotEncrypted@ == Fault::NotEncrypted,
        SecretError::NothingToRotate@ == Fault::NothingToRotate,
        (SecretError::ProviderExit { status: a, stderr: b })@ == Fault::ProviderExit(a@, b@),
        SecretError::ProviderNotText@ == Fault::ProviderNotText,
        SecretError::ProviderSilent@ == Fault::ProviderSilent,
        (SecretError::ProviderRefused { reason: a })@ == Fault::ProviderRefused(a@),
        (SecretError::ProviderNoValue { key: a })@ == Fault::ProviderNoValue(a@),
        (SecretError::MissingParameter { name: a })@ == Fault::MissingParameter(a@),
        (SecretError::Backend { message: a })@ == Fault::Backend(a@),
{
}

/// A message quotes what it speaks of whole, behind words that depend on the kind of fault alone.
pub proof fn law_messages_quote(t: Seq<char>, u: Seq<char>, c: char)
    ensures
        Fault::NotFound(t).message() == "secret not found: "@ + t,
        Fault::UnknownStore(t).message() == "unknown secret store: "@ + t,
        Fault::InvalidKey(t, c).message() == "invalid secret key '"@ + t
            + "': only alphanumeric and underscores allowed (got '"@ + seq![c] + "')"@,
        Fault::InvalidToken(t).message() == "invalid secret token: {{"@ + t + "}}"@,
        Fault::MissingColon(t).message() == "invalid secret token: missing ':' in {{"@ + t
            + "}}"@,
        Fault::UnknownBackend(t).message() == "unknown secret store backend: "@ + t,
        Fault::MissingProvider(t).message() == "secret store '"@ + t
            + "': external backend requires provider_binary"@,
        Fault::ProviderExit(t, u).message() == "provider binary exited with "@ + t + ": "@ + u,
        Fault::ProviderRefused(t).message() == "provider error: "@ + t,
        Fault::ProviderNoValue(t).message() == "provider returned ok but no value for key: "@ + t,
        Fault::MissingParameter(t).message() == "Missing '"@ + t + "' parameter"@,
        Fault::Backend(t).message() == t,
{
    let words = "': only alphanumeric and underscores allowed (got '"@;
    assert("invalid secret key '"@ + t + words.push(c) + "')"@ =~= "invalid secret key '"@ + t
        + words + seq![c] + "')"@);
}

/// An outcome is the value that was returned or the fault of the error, and nothing else.
pub proof fn law_outcomes(text: String, list: Vec<String>, e: SecretError, i: int)
    ensures
        text_outcome(Ok(text)) == Ok::<Seq<char>, Fault>(text@),
        text_outcome(Err(e)) == Err::<Seq<char>, Fault>(e@),
        unit_outcome(Ok(())) is Ok,
        unit_outcome(Err(e)) == Err::<(), Fault>(e@),
        list_outcome(Ok(list)) matches Ok(keys) && keys.len() == list@.len() && (0 <= i < keys.len()
            ==> keys[i] == list@[i]@),
        list_outcome(Err(e)) == Err::<Seq<Seq<char>>, Fault>(e@),
{
}

} // verus!
