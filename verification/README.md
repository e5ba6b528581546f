# secret_registry

Secrets in named stores, with the logic verified by Verus.

A registry holds named stores in order of precedence. Reads ask one store after another and the
first that has the key wins; writes go to the first store; naming a store overrides both. Tokens
such as `{{secret:KEY}}` and `{{secret@store:KEY}}` in a text are replaced by the secrets that they
refer to. Stores keep their secrets in one encrypted file, or leave them to a provider program that
speaks one line of JSON per request.

- `src/` is the library. Every function with a body has a contract that Verus proves; the methods of
  the traits `SecretStore` and `Backend` have none, as it is up to each store what they do. The
  functions named `law_..` state what holds of the library as a whole.
- `tests/` runs the library on concrete values.
- `app/` is ordinary asynchronous Rust around it: files, processes, logging and JSON derives.

What is not proved stands in a few marked functions that call other crates and the standard
library: `src/json.rs` (`serde_json`), `src/config.rs` (`shellexpand`), `src/external.rs` (UTF-8) and
`src/text.rs` (`String::push`). Their comments say what is taken for granted.

Keys hold ASCII letters, digits and underscores, and are stored in capitals. Only a write does
that: reads, deletions and tokens take a key as it is written. Keys that begin with two underscores
are internal and do not show up in listings unless asked for.
