//! The rules on key names.
//!
//! A key consists of ASCII letters, digits and underscores. Keys are stored in capitals.
//! Keys that begin with two underscores are internal.

use vstd::prelude::*;
use crate::error::{Fault, SecretError};
use crate::text::{chars_of, has_prefix, starts_with, uppercase};

verus! {

/// The characters that a key may hold.
pub open spec fn key_char(c: char) -> bool {
    ||| 'a' <= c && c <= 'z'
    ||| 'A' <= c && c <= 'Z'
    ||| '0' <= c && c <= '9'
    ||| c == '_'
}

/// What is wrong with a key, if anything is: the first character that it may not hold is named.
pub open spec fn key_fault(key: Seq<char>) -> Option<Fault> {
    if key.len() == 0 {
        Some(Fault::EmptyKey)
    } else {
        match first_bad_char(key, 0) {
            Some(c) => Some(Fault::InvalidKey(key, c)),
            None => None,
        }
    }
}

/// The first character at or after position `from` that a key may not hold.
pub open spec fn first_bad_char(key: Seq<char>, from: int) -> Option<char>
    decreases key.len() - from,
{
    if from < 0 || from >= key.len() {
        None
    } else if key_char(key[from]) {
        first_bad_char(key, from + 1)
    } else {
        Some(key[from])
    }
}

/// Whether a key may be stored.
pub open spec fn valid_key(key: Seq<char>) -> bool {
    &&& key.len() > 0
    &&& forall|i: int| 0 <= i < key.len() ==> key_char(#[trigger] key[i])
}

/// Whether a key is internal.
pub open spec fn internal_key(key: Seq<char>) -> bool {
    has_prefix(key, "__"@)
}

/// Validates a key: letters, digits and underscores only, and at least one of them.
pub fn validate_key(key: &str) -> (r: Result<(), SecretError>)
    ensures
        match r {
            Ok(()) => key_fault(key@) is None && valid_key(key@),
            Err(e) => key_fault(key@) == Some(e@) && !valid_key(key@),
        },
{
    let v = chars_of(key);
    if v.len() == 0 {
        return Err(SecretError::EmptyKey);
    }
    let mut i: usize = 0;
    while i < v.len()
        invariant
            i <= v.len(),
            v@ == key@,
            v.len() > 0,
            first_bad_char(key@, 0) == first_bad_char(key@, i as int),
            forall|j: int| 0 <= j < i ==> key_char(#[trigger] key@[j]),
        decreases v.len() - i,
    {
        let c = v[i];
        let accepted = ('a' <= c && c <= 'z') || ('A' <= c && c <= 'Z') || ('0' <= c && c <= '9')
            || c == '_';
        if !accepted {
            assert(!key_char(key@[i as int]));
            return Err(SecretError::InvalidKey { key: key.to_owned(), found: c });
        }
        i += 1;
    }
    Ok(())
}

/// Whether a key is internal.
pub fn is_internal(key: &str) -> (r: bool)
    ensures
        r == internal_key(key@),
{
    starts_with(key, "__")
}

/// A key has no fault exactly when it is valid, and a fault names a character of the key
/// that keys may not hold.
pub proof fn law_key_fault(key: Seq<char>)
    ensures
        key_fault(key) is None <==> valid_key(key),
        key_fault(key) matches Some(Fault::InvalidKey(k, c)) ==> k == key && key.contains(c)
            && !key_char(c),
{
    if key.len() > 0 {
        lemma_first_bad_char(key, 0);
    }
}

proof fn lemma_first_bad_char(key: Seq<char>, from: int)
    requires
        0 <= from <= key.len(),
    ensures
        match first_bad_char(key, from) {
            Some(c) => exists|i: int| from <= i < key.len() && #[trigger] key[i] == c && !key_char(c),
            None => forall|i: int| from <= i < key.len() ==> key_char(#[trigger] key[i]),
        },
    decreases key.len() - from,
{
    if from < key.len() && key_char(key[from]) {
        lemma_first_bad_char(key, from + 1);
    }
}

/// The delimiters of the token syntax, `@` and `:`, stand in no valid key.
pub proof fn law_delimiters_rejected(key: Seq<char>)
    requires
        key.contains('@') || key.contains(':'),
    ensures
        !valid_key(key),
        key_fault(key) is Some,
{
    law_key_fault(key);
    let c = if key.contains('@') {
        '@'
    } else {
        ':'
    };
    let i = key.index_of(c);
    assert(key[i] == c);
}

/// A valid key in capitals is valid, and capitals stay what they are.
pub proof fn law_uppercase_key(key: Seq<char>)
    ensures
        uppercase(uppercase(key)) == uppercase(key),
        valid_key(key) ==> valid_key(uppercase(key)),
        internal_key(key) <==> internal_key(uppercase(key)),
{
    let up = uppercase(key);
    assert(uppercase(up) =~= up);
    if valid_key(key) {
        assert forall|i: int| 0 <= i < up.len() implies key_char(#[trigger] up[i]) by {
            assert(key_char(key[i]));
        }
    }
    reveal_strlit("__");
    if key.len() >= 2 {
        assert(key.subrange(0, 2) =~= seq![key[0], key[1]]);
        assert(up.subrange(0, 2) =~= seq![up[0], up[1]]);
        assert("__"@ =~= seq!['_', '_']);
        assert(key.subrange(0, 2)[0] == key[0] && key.subrange(0, 2)[1] == key[1]);
        assert(up.subrange(0, 2)[0] == up[0] && up.subrange(0, 2)[1] == up[1]);
        if key[0] == '_' && key[1] == '_' {
            assert(up.subrange(0, 2) =~= "__"@);
            assert(key.subrange(0, 2) =~= "__"@);
        }
    }
}

/// A key is valid exactly when it is not empty and every code point of it is a digit (48 to 57), a
/// letter (65 to 90, 97 to 122) or the underscore (95).
pub proof fn law_valid_key(key: Seq<char>)
    ensures
        valid_key(key) <==> key.len() > 0 && forall|i: int|
            0 <= i < key.len() ==> {
                let c = (#[trigger] key[i]) as int;
                48 <= c <= 57 || 65 <= c <= 90 || 97 <= c <= 122 || c == 95
            },
{
    if valid_key(key) {
        assert forall|i: int| 0 <= i < key.len() implies {
            let c = (#[trigger] key[i]) as int;
            48 <= c <= 57 || 65 <= c <= 90 || 97 <= c <= 122 || c == 95
        } by {
            assert(key_char(key[i]));
        }
    }
}

/// A key is refused for being empty, or for the first character that is no digit, letter or
/// underscore, and the refusal holds the whole key.
pub proof fn law_refused_key(key: Seq<char>)
    ensures
        key_fault(key) matches Some(f) ==> {
            ||| key.len() == 0 && f == Fault::EmptyKey
            ||| exists|i: int|
                {
                    &&& 0 <= i < key.len()
                    &&& f == Fault::InvalidKey(key, #[trigger] key[i])
                    &&& !valid_key(seq![key[i]])
                    &&& i > 0 ==> valid_key(key.take(i))
                }
        },
        key_fault(key) is None ==> valid_key(key),
{
    if key.len() > 0 {
        lemma_first_bad_position(key, 0);
        law_key_fault(key);
        if key_fault(key) is Some {
            let i = choose|i: int|
                {
                    &&& 0 <= i < key.len()
                    &&& first_bad_char(key, 0) == Some(#[trigger] key[i])
                    &&& !key_char(key[i])
                    &&& forall|j: int| 0 <= j < i ==> key_char(#[trigger] key[j])
                };
            assert(!key_char(seq![key[i]][0]));
            assert forall|j: int| 0 <= j < i implies key_char(#[trigger] key.take(i)[j]) by {
                assert(key_char(key[j]));
            }
        }
    }
}

proof fn lemma_first_bad_position(key: Seq<char>, from: int)
    requires
        0 <= from <= key.len(),
    ensures
        first_bad_char(key, from) is Some ==> exists|i: int|
            {
                &&& from <= i < key.len()
                &&& first_bad_char(key, from) == Some(#[trigger] key[i])
                &&& !key_char(key[i])
                &&& forall|j: int| from <= j < i ==> key_char(#[trigger] key[j])
            },
    decreases key.len() - from,
{
    if from < key.len() {
        if key_char(key[from]) {
            lemma_first_bad_position(key, from + 1);
            if first_bad_char(key, from) is Some {
                let i = choose|i: int|
                    {
                        &&& from + 1 <= i < key.len()
                        &&& first_bad_char(key, from + 1) == Some(#[trigger] key[i])
                        &&& !key_char(key[i])
                        &&& forall|j: int| from + 1 <= j < i ==> key_char(#[trigger] key[j])
                    };
                assert(first_bad_char(key, from) == Some(key[i]));
            }
        } else {
            assert(first_bad_char(key, from) == Some(key[from]));
        }
    }
}

/// A key is internal exactly when its first two characters are underscores.
pub proof fn law_internal_key(key: Seq<char>)
    ensures
        internal_key(key) <==> key.len() >= 2 && key[0] == '_' && key[1] == '_',
{
    reveal_strlit("__");
    if key.len() >= 2 {
        let head = key.subrange(0, 2);
        assert(head[0] == key[0] && head[1] == key[1]);
        if key[0] == '_' && key[1] == '_' {
            assert(head =~= "__"@);
        }
    }
}

} // verus!
