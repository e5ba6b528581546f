//! Secrets in named stores.
//!
//! A registry holds named stores in order of precedence. Reads ask one store after another and
//! the first that has the key wins; writes go to the first store; naming a store overrides both.
//! Tokens such as `{{secret:KEY}}` and `{{secret@store:KEY}}` in a text can be replaced by the
//! secrets that they refer to. Credentials that stand in the configuration can be moved into the
//! store under reserved keys.
//!
//! Two kinds of store are described: one that keeps all secrets in a single encrypted file
//! (`local`), and one that a provider program keeps (`external`). Files, processes and the cipher
//! are the caller's: the modules say what to read, write and run, and what the answers mean.
//!
//! Contracts speak of texts (`Seq<char>`) in place of strings, and of `Fault` in place of
//! `SecretError`. Where a store, a cipher or a program decides, a contract says what comes of each
//! answer. The functions named `law_..` state what holds of the library as a whole.

pub mod config;
pub mod error;
pub mod external;
pub mod inject;
pub mod json;
pub mod key;
pub mod listing;
pub mod local;
pub mod migration;
pub mod read;
pub mod registry;
pub mod secret_map;
pub mod template;
pub mod text;
pub mod tools;
pub mod write;
