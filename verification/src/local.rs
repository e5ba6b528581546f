//! The secrets file: all secrets in one encrypted text.
//!
//! The file holds `secrets1:` and the encrypted JSON object of all secrets. Every change reads
//! the whole file, changes the secrets, and replaces the whole file. A missing or blank file holds
//! no secrets. Reading and replacing the file is left to the caller, and so is the cipher, whose
//! encrypted values begin with `enc2:`.

use vstd::prelude::*;
use crate::error::{list_outcome, text_outcome, Fault, SecretError};
use crate::json::{json_object, json_text, read_object, write_object};
use crate::secret_map::{lists_keys, SecretMap};
use crate::text::{
    concat2, has_prefix, is_space, law_occurrence, lemma_trimmed_fixed, opt_text, strip_prefix,
    trim, trimmed,
};

verus! {

/// The encrypted value that the file holds, in the form that the cipher reads; `None` if the file
/// is missing or blank.
pub open spec fn sealed_value(file: Option<Seq<char>>) -> Result<Option<Seq<char>>, Fault> {
    match file {
        None => Ok(None),
        Some(text) => {
            let contents = trimmed(text);
            if contents.len() == 0 {
                Ok(None)
            } else if has_prefix(contents, "secrets1:"@) {
                Ok(Some("enc2:"@ + contents.skip(9)))
            } else {
                Err(Fault::MissingBlobPrefix)
            }
        },
    }
}

/// The contents of the file for an encrypted value.
pub open spec fn blob(cipher: Seq<char>) -> Seq<char> {
    "secrets1:"@ + cipher.skip(5)
}

/// The secrets that the file holds, where `plain` is what decrypting its value gives.
pub open spec fn secrets_in(
    file: Option<Seq<char>>,
    plain: Result<Seq<char>, Fault>,
) -> Result<Map<Seq<char>, Seq<char>>, Fault> {
    match sealed_value(file) {
        Err(f) => Err(f),
        Ok(None) => Ok(Map::empty()),
        Ok(Some(_)) => match plain {
            Err(f) => Err(f),
            Ok(text) => match json_object(text) {
                None => Err(Fault::BadSecrets),
                Some(m) => Ok(m),
            },
        },
    }
}

/// The value of a key among the secrets.
pub open spec fn value_in(
    secrets: Result<Map<Seq<char>, Seq<char>>, Fault>,
    key: Seq<char>,
) -> Result<Seq<char>, Fault> {
    match secrets {
        Err(f) => Err(f),
        Ok(m) => if m.contains_key(key) {
            Ok(m[key])
        } else {
            Err(Fault::NotFound(key))
        },
    }
}

/// Whether a listing is that of the keys of the secrets, each once and in order.
pub open spec fn keys_listed(
    secrets: Result<Map<Seq<char>, Seq<char>>, Fault>,
    listing: Result<Seq<Seq<char>>, Fault>,
) -> bool {
    match secrets {
        Err(f) => listing == Err::<Seq<Seq<char>>, Fault>(f),
        Ok(m) => listing matches Ok(keys) && lists_keys(keys, m),
    }
}

/// The secrets with a value stored under a key.
pub open spec fn with_value(
    secrets: Result<Map<Seq<char>, Seq<char>>, Fault>,
    key: Seq<char>,
    value: Seq<char>,
) -> Result<Map<Seq<char>, Seq<char>>, Fault> {
    match secrets {
        Err(f) => Err(f),
        Ok(m) => Ok(m.insert(key, value)),
    }
}

/// The secrets without a key, which must be among them.
pub open spec fn without_key(
    secrets: Result<Map<Seq<char>, Seq<char>>, Fault>,
    key: Seq<char>,
) -> Result<Map<Seq<char>, Seq<char>>, Fault> {
    match secrets {
        Err(f) => Err(f),
        Ok(m) => if m.contains_key(key) {
            Ok(m.remove(key))
        } else {
            Err(Fault::NotFound(key))
        },
    }
}

/// The secrets as they are, of which there must be one at least.
pub open spec fn to_rotate(secrets: Result<Map<Seq<char>, Seq<char>>, Fault>) -> Result<
    Map<Seq<char>, Seq<char>>,
    Fault,
> {
    match secrets {
        Err(f) => Err(f),
        Ok(m) => if m == Map::<Seq<char>, Seq<char>>::empty() {
            Err(Fault::NothingToRotate)
        } else {
            Ok(m)
        },
    }
}

/// The new contents of the file, where `cipher` is what encrypting the changed secrets gives.
pub open spec fn file_for(
    changed: Result<Map<Seq<char>, Seq<char>>, Fault>,
    cipher: Result<Seq<char>, Fault>,
) -> Result<Seq<char>, Fault> {
    match changed {
        Err(f) => Err(f),
        Ok(_) => match cipher {
            Err(f) => Err(f),
            Ok(c) => if has_prefix(c, "enc2:"@) {
                Ok(blob(c))
            } else {
                Err(Fault::NotEncrypted)
            },
        },
    }
}

/// Whether the cipher may answer `answer` when it is handed `text`.
pub open spec fn answers<F: Fn(&str) -> Result<String, SecretError>>(
    cipher: F,
    text: Seq<char>,
    answer: Result<Seq<char>, Fault>,
) -> bool {
    exists|t: &str, r: Result<String, SecretError>|
        t@ == text && #[trigger] call_ensures(cipher, (t,), r) && text_outcome(r) == answer
}

/// The encrypted value that the file holds, in the form that the cipher reads.
pub fn open_blob(file: Option<&str>) -> (r: Result<Option<String>, SecretError>)
    ensures
        match r {
            Ok(Some(value)) => sealed_value(opt_text(file)) == Ok::<Option<Seq<char>>, Fault>(
                Some(value@),
            ),
            Ok(None) => sealed_value(opt_text(file)) == Ok::<Option<Seq<char>>, Fault>(None),
            Err(e) => sealed_value(opt_text(file)) == Err::<Option<Seq<char>>, Fault>(e@),
        },
{
    proof {
        reveal_strlit("secrets1:");
    }
    match file {
        None => Ok(None),
        Some(text) => {
            let contents = trim(text);
            if contents.as_str().is_empty() {
                return Ok(None);
            }
            match strip_prefix(contents.as_str(), "secrets1:") {
                Some(rest) => Ok(Some(concat2("enc2:", rest.as_str()))),
                None => Err(SecretError::MissingBlobPrefix),
            }
        },
    }
}

/// The contents of the file for an encrypted value.
pub fn seal_blob(cipher: &str) -> (r: Result<String, SecretError>)
    ensures
        match r {
            Ok(text) => has_prefix(cipher@, "enc2:"@) && text@ == blob(cipher@),
            Err(e) => !has_prefix(cipher@, "enc2:"@) && e@ == Fault::NotEncrypted,
        },
{
    proof {
        reveal_strlit("enc2:");
    }
    match strip_prefix(cipher, "enc2:") {
        Some(rest) => Ok(concat2("secrets1:", rest.as_str())),
        None => Err(SecretError::NotEncrypted),
    }
}

/// A store that keeps its secrets in one encrypted file, and the cipher that it uses.
pub struct LocalSecretStore<D, E> {
    decrypt: D,
    encrypt: E,
}

impl<
    D: Fn(&str) -> Result<String, SecretError>,
    E: Fn(&str) -> Result<String, SecretError>,
> LocalSecretStore<D, E> {
    /// How values are decrypted.
    pub closed spec fn decrypt(&self) -> D {
        self.decrypt
    }

    /// How values are encrypted.
    pub closed spec fn encrypt(&self) -> E {
        self.encrypt
    }

    /// The cipher accepts every text.
    pub open spec fn wf(&self) -> bool {
        &&& forall|t: &str| #[trigger] call_requires(self.decrypt(), (t,))
        &&& forall|t: &str| #[trigger] call_requires(self.encrypt(), (t,))
    }

    /// Whether the file holds these secrets: whether decrypting its value, if there is one, may
    /// give a text that does.
    pub open spec fn loads(
        &self,
        file: Option<Seq<char>>,
        secrets: Result<Map<Seq<char>, Seq<char>>, Fault>,
    ) -> bool {
        exists|plain: Result<Seq<char>, Fault>| #[trigger]
            secrets_in(file, plain) == secrets && (sealed_value(file) matches Ok(Some(value))
                ==> answers(self.decrypt(), value, plain))
    }

    /// Whether `contents` may be what the file is to hold for the changed secrets: the encrypted
    /// text is read back as exactly those secrets.
    pub open spec fn saves(
        &self,
        changed: Result<Map<Seq<char>, Seq<char>>, Fault>,
        contents: Result<Seq<char>, Fault>,
    ) -> bool {
        exists|cipher: Result<Seq<char>, Fault>| #[trigger]
            file_for(changed, cipher) == contents && (changed matches Ok(m) ==> {
                &&& json_object(json_text(m)) == Some(m)
                &&& answers(self.encrypt(), json_text(m), cipher)
            })
    }

    /// A store that uses this cipher.
    pub fn new(decrypt: D, encrypt: E) -> (r: Self)
        ensures
            r.decrypt() == decrypt,
            r.encrypt() == encrypt,
    {
        LocalSecretStore { decrypt, encrypt }
    }

    /// The secrets that the file holds.
    fn load_map(&self, file: Option<&str>) -> (r: Result<SecretMap, SecretError>)
        requires
            self.wf(),
        ensures
            match r {
                Ok(m) => m.wf() && self.loads(opt_text(file), Ok(m@)),
                Err(e) => self.loads(opt_text(file), Err(e@)),
            },
    {
        let ghost held = opt_text(file);
        let value = match open_blob(file) {
            Err(e) => {
                assert(secrets_in(held, Err(e@)) == Err::<Map<Seq<char>, Seq<char>>, Fault>(e@));
                return Err(e);
            },
            Ok(None) => {
                let none = SecretMap::new();
                assert(secrets_in(held, Err(Fault::BadSecrets)) == Ok::<
                    Map<Seq<char>, Seq<char>>,
                    Fault,
                >(none@));
                return Ok(none);
            },
            Ok(Some(value)) => value,
        };
        let text = value.as_str();
        assert(call_requires(self.decrypt(), (text,)));
        let plain = (self.decrypt)(text);
        assert(answers(self.decrypt(), value@, text_outcome(plain)));
        let ghost secrets = secrets_in(held, text_outcome(plain));
        match plain {
            Err(e) => Err(e),
            Ok(json) => match read_object(json.as_str()) {
                Ok(entries) => Ok(SecretMap::from_entries(entries)),
                Err(_) => Err(SecretError::BadSecrets),
            },
        }
    }

    /// What the file is to hold for these secrets.
    fn save_map(&self, map: &SecretMap) -> (r: Result<String, SecretError>)
        requires
            self.wf(),
            map.wf(),
        ensures
            self.saves(Ok(map@), text_outcome(r)),
    {
        let ghost changed = Ok::<Map<Seq<char>, Seq<char>>, Fault>(map@);
        let json = match write_object(map.entries()) {
            Ok(json) => json,
            Err(_) => {
                return Err(SecretError::Unserializable);
            },
        };
        let text = json.as_str();
        assert(call_requires(self.encrypt(), (text,)));
        let cipher = (self.encrypt)(text);
        assert(answers(self.encrypt(), json_text(map@), text_outcome(cipher)));
        let ghost contents = file_for(changed, text_outcome(cipher));
        match cipher {
            Err(e) => Err(e),
            Ok(c) => seal_blob(c.as_str()),
        }
    }

    /// The value of a key, where `file` is what the file holds.
    pub fn get(&self, file: Option<&str>, key: &str) -> (r: Result<String, SecretError>)
        requires
            self.wf(),
        ensures
            exists|secrets: Result<Map<Seq<char>, Seq<char>>, Fault>| #[trigger]
                self.loads(opt_text(file), secrets) && text_outcome(r) == value_in(secrets, key@),
    {
        match self.load_map(file) {
            Err(e) => {
                assert(self.loads(opt_text(file), Err(e@)));
                Err(e)
            },
            Ok(map) => {
                assert(self.loads(opt_text(file), Ok(map@)));
                match map.get(key) {
                    Some(value) => Ok(value.clone()),
                    None => Err(SecretError::NotFound { key: key.to_owned() }),
                }
            },
        }
    }

    /// The keys in order, where `file` is what the file holds.
    pub fn list(&self, file: Option<&str>) -> (r: Result<Vec<String>, SecretError>)
        requires
            self.wf(),
        ensures
            exists|secrets: Result<Map<Seq<char>, Seq<char>>, Fault>| #[trigger]
                self.loads(opt_text(file), secrets) && keys_listed(secrets, list_outcome(r)),
    {
        match self.load_map(file) {
            Err(e) => {
                assert(self.loads(opt_text(file), Err(e@)));
                Err(e)
            },
            Ok(map) => {
                assert(self.loads(opt_text(file), Ok(map@)));
                Ok(map.keys())
            },
        }
    }

    /// What the file is to hold once a value is stored under a key, where `file` is what it holds.
    pub fn set(&self, file: Option<&str>, key: &str, value: &str) -> (r: Result<
        String,
        SecretError,
    >)
        requires
            self.wf(),
        ensures
            exists|secrets: Result<Map<Seq<char>, Seq<char>>, Fault>| #[trigger]
                self.loads(opt_text(file), secrets) && self.saves(
                    with_value(secrets, key@, value@),
                    text_outcome(r),
                ),
    {
        let mut map = match self.load_map(file) {
            Err(e) => {
                proof {
                    self.lemma_saves_failure(e@);
                }
                return Err(e);
            },
            Ok(map) => map,
        };
        assert(self.loads(opt_text(file), Ok(map@)));
        map.insert(key.to_owned(), value.to_owned());
        self.save_map(&map)
    }

    /// What the file is to hold once a key is removed, where `file` is what it holds.
    pub fn delete(&self, file: Option<&str>, key: &str) -> (r: Result<String, SecretError>)
        requires
            self.wf(),
        ensures
            exists|secrets: Result<Map<Seq<char>, Seq<char>>, Fault>| #[trigger]
                self.loads(opt_text(file), secrets) && self.saves(
                    without_key(secrets, key@),
                    text_outcome(r),
                ),
    {
        let mut map = match self.load_map(file) {
            Err(e) => {
                proof {
                    self.lemma_saves_failure(e@);
                }
                return Err(e);
            },
            Ok(map) => map,
        };
        assert(self.loads(opt_text(file), Ok(map@)));
        if !map.remove(key) {
            proof {
                self.lemma_saves_failure(Fault::NotFound(key@));
            }
            return Err(SecretError::NotFound { key: key.to_owned() });
        }
        self.save_map(&map)
    }

    /// What the file is to hold once the secrets are encrypted anew, where `file` is what it holds.
    pub fn rotate_key(&self, file: Option<&str>) -> (r: Result<String, SecretError>)
        requires
            self.wf(),
        ensures
            exists|secrets: Result<Map<Seq<char>, Seq<char>>, Fault>| #[trigger]
                self.loads(opt_text(file), secrets) && self.saves(
                    to_rotate(secrets),
                    text_outcome(r),
                ),
    {
        let map = match self.load_map(file) {
            Err(e) => {
                proof {
                    self.lemma_saves_failure(e@);
                }
                return Err(e);
            },
            Ok(map) => map,
        };
        assert(self.loads(opt_text(file), Ok(map@)));
        if map.is_empty() {
            proof {
                self.lemma_saves_failure(Fault::NothingToRotate);
            }
            return Err(SecretError::NothingToRotate);
        }
        self.save_map(&map)
    }

    proof fn lemma_saves_failure(&self, f: Fault)
        ensures
            self.saves(Err(f), Err(f)),
    {
        assert(file_for(Err(f), Err(f)) == Err::<Seq<char>, Fault>(f));
    }

    /// Whether the cipher reads back what it wrote: what it answers when it encrypts a text does
    /// not end in white space, and decrypts to that text and nothing else.
    pub open spec fn faithful(&self) -> bool {
        forall|text: Seq<char>, c: Seq<char>|
            #![trigger answers(self.encrypt(), text, Ok(c))]
            answers(self.encrypt(), text, Ok(c)) && has_prefix(c, "enc2:"@) ==> !is_space(c.last())
                && forall|plain: Result<Seq<char>, Fault>| #[trigger]
                answers(self.decrypt(), c, plain) ==> plain == Ok::<Seq<char>, Fault>(text)
    }
}

/// What was encrypted is what is decrypted: the value that the file holds is the one that it was
/// written for. A value that ends in white space is left out, as surrounding white space in the
/// file does not count.
pub proof fn law_blob_round_trip(c: Seq<char>)
    requires
        has_prefix(c, "enc2:"@),
        !is_space(c.last()),
    ensures
        sealed_value(Some(blob(c))) == Ok::<Option<Seq<char>>, Fault>(Some(c)),
{
    reveal_strlit("enc2:");
    reveal_strlit("secrets1:");
    let text = blob(c);
    assert(c[4] == c.take(5)[4]);
    assert(text.last() == c.last());
    lemma_trimmed_fixed(text);
    assert(text.take(9) =~= "secrets1:"@);
    assert("enc2:"@ + text.skip(9) =~= c);
}

/// Every file that is written begins with the version of its format.
pub proof fn law_blob_is_versioned(
    changed: Result<Map<Seq<char>, Seq<char>>, Fault>,
    cipher: Result<Seq<char>, Fault>,
)
    ensures
        file_for(changed, cipher) matches Ok(text) ==> has_prefix(text, "secrets1:"@),
{
    reveal_strlit("secrets1:");
    reveal_strlit("enc2:");
    if let Ok(c) = cipher {
        assert(blob(c).take(9) =~= "secrets1:"@);
    }
}

/// A missing file and a file of white space hold no secrets, whatever the cipher does.
pub proof fn law_no_file_no_secrets(
    file: Option<Seq<char>>,
    plain: Result<Seq<char>, Fault>,
    key: Seq<char>,
)
    requires
        file matches Some(text) ==> trimmed(text).len() == 0,
    ensures
        secrets_in(file, plain) == Ok::<Map<Seq<char>, Seq<char>>, Fault>(Map::empty()),
        value_in(secrets_in(file, plain), key) == Err::<Seq<char>, Fault>(Fault::NotFound(key)),
        without_key(secrets_in(file, plain), key) == Err::<Map<Seq<char>, Seq<char>>, Fault>(
            Fault::NotFound(key),
        ),
        to_rotate(secrets_in(file, plain)) == Err::<Map<Seq<char>, Seq<char>>, Fault>(
            Fault::NothingToRotate,
        ),
{
}

/// A file that can not be read is never overwritten: a change to it fails, with the same fault.
pub proof fn law_unreadable_file_is_kept(
    file: Option<Seq<char>>,
    plain: Result<Seq<char>, Fault>,
    cipher: Result<Seq<char>, Fault>,
    key: Seq<char>,
    value: Seq<char>,
)
    ensures
        secrets_in(file, plain) matches Err(f) ==> {
            &&& file_for(with_value(secrets_in(file, plain), key, value), cipher) == Err::<
                Seq<char>,
                Fault,
            >(f)
            &&& file_for(without_key(secrets_in(file, plain), key), cipher) == Err::<
                Seq<char>,
                Fault,
            >(f)
            &&& file_for(to_rotate(secrets_in(file, plain)), cipher) == Err::<Seq<char>, Fault>(f)
        },
{
}

/// Secrets that were saved are the secrets that are loaded.
pub proof fn law_saved_is_loaded<
    D: Fn(&str) -> Result<String, SecretError>,
    E: Fn(&str) -> Result<String, SecretError>,
>(
    store: LocalSecretStore<D, E>,
    secrets: Map<Seq<char>, Seq<char>>,
    contents: Seq<char>,
    after: Result<Map<Seq<char>, Seq<char>>, Fault>,
)
    ensures
        store.faithful() && store.saves(Ok(secrets), Ok(contents)) && store.loads(
            Some(contents),
            after,
        ) ==> after == Ok::<Map<Seq<char>, Seq<char>>, Fault>(secrets),
{
    if store.faithful() && store.saves(Ok(secrets), Ok(contents)) && store.loads(
        Some(contents),
        after,
    ) {
        let cipher = choose|cipher: Result<Seq<char>, Fault>| #[trigger]
            file_for(Ok(secrets), cipher) == Ok::<Seq<char>, Fault>(contents)
                && json_object(json_text(secrets)) == Some(secrets) && answers(
                store.encrypt(),
                json_text(secrets),
                cipher,
            );
        let c = cipher->Ok_0;
        law_blob_round_trip(c);
        let plain = choose|plain: Result<Seq<char>, Fault>| #[trigger]
            secrets_in(Some(contents), plain) == after && (sealed_value(Some(contents)) matches Ok(
                Some(value),
            ) ==> answers(store.decrypt(), value, plain));
        assert(answers(store.decrypt(), c, plain));
    }
}

/// A value that was stored is the value that is read, and every other key reads as before.
pub proof fn law_set_then_get<
    D: Fn(&str) -> Result<String, SecretError>,
    E: Fn(&str) -> Result<String, SecretError>,
>(
    store: LocalSecretStore<D, E>,
    secrets: Result<Map<Seq<char>, Seq<char>>, Fault>,
    key: Seq<char>,
    value: Seq<char>,
    contents: Seq<char>,
    after: Result<Map<Seq<char>, Seq<char>>, Fault>,
    other: Seq<char>,
)
    ensures
        store.faithful() && store.saves(with_value(secrets, key, value), Ok(contents))
            && store.loads(Some(contents), after) ==> {
            &&& value_in(after, key) == Ok::<Seq<char>, Fault>(value)
            &&& other != key ==> value_in(after, other) == value_in(secrets, other)
        },
{
    if let Ok(m) = secrets {
        law_saved_is_loaded(store, m.insert(key, value), contents, after);
    }
}

/// A key that was removed is not found any more, and every other key reads as before.
pub proof fn law_delete_then_get<
    D: Fn(&str) -> Result<String, SecretError>,
    E: Fn(&str) -> Result<String, SecretError>,
>(
    store: LocalSecretStore<D, E>,
    secrets: Result<Map<Seq<char>, Seq<char>>, Fault>,
    key: Seq<char>,
    contents: Seq<char>,
    after: Result<Map<Seq<char>, Seq<char>>, Fault>,
    other: Seq<char>,
)
    ensures
        store.faithful() && store.saves(without_key(secrets, key), Ok(contents)) && store.loads(
            Some(contents),
            after,
        ) ==> {
            &&& value_in(secrets, key) is Ok
            &&& value_in(after, key) == Err::<Seq<char>, Fault>(Fault::NotFound(key))
            &&& other != key ==> value_in(after, other) == value_in(secrets, other)
        },
{
    if let Ok(m) = secrets {
        law_saved_is_loaded(store, m.remove(key), contents, after);
    }
}

/// Encrypting anew keeps every secret.
pub proof fn law_rotation_keeps_secrets<
    D: Fn(&str) -> Result<String, SecretError>,
    E: Fn(&str) -> Result<String, SecretError>,
>(
    store: LocalSecretStore<D, E>,
    secrets: Result<Map<Seq<char>, Seq<char>>, Fault>,
    contents: Seq<char>,
    after: Result<Map<Seq<char>, Seq<char>>, Fault>,
)
    ensures
        store.faithful() && store.saves(to_rotate(secrets), Ok(contents)) && store.loads(
            Some(contents),
            after,
        ) ==> after == secrets,
{
    if let Ok(m) = secrets {
        law_saved_is_loaded(store, m, contents, after);
    }
}

/// The file for an encrypted value is `secrets1:` and what follows `enc2:` in that value.
pub proof fn law_file_of_value(x: Seq<char>)
    ensures
        blob("enc2:"@ + x) == "secrets1:"@ + x,
{
    reveal_strlit("enc2:");
    assert(("enc2:"@ + x).skip(5) =~= x);
}

/// The value in a file is `enc2:` and what follows `secrets1:` in it, but for white space around;
/// other text in a file is refused.
pub proof fn law_value_of_file(text: Seq<char>, x: Seq<char>)
    ensures
        sealed_value(None) == Ok::<Option<Seq<char>>, Fault>(None),
        trimmed(text).len() == 0 ==> sealed_value(Some(text)) == Ok::<Option<Seq<char>>, Fault>(
            None,
        ),
        trimmed(text) == "secrets1:"@ + x ==> sealed_value(Some(text)) == Ok::<
            Option<Seq<char>>,
            Fault,
        >(Some("enc2:"@ + x)),
        trimmed(text).len() > 0 && (forall|y: Seq<char>| #[trigger] ("secrets1:"@ + y) != trimmed(
            text,
        )) ==> sealed_value(Some(text)) == Err::<Option<Seq<char>>, Fault>(
            Fault::MissingBlobPrefix,
        ),
{
    reveal_strlit("secrets1:");
    let contents = trimmed(text);
    law_occurrence(contents, "secrets1:"@, 0);
    if contents == "secrets1:"@ + x {
        assert(contents.skip(9) =~= x);
    }
}

/// Whether the cipher may answer so is whether the function that it was given as may.
pub proof fn law_cipher_answers<F: Fn(&str) -> Result<String, SecretError>>(
    cipher: F,
    text: Seq<char>,
    answer: Result<Seq<char>, Fault>,
)
    requires
        answers(cipher, text, answer),
    ensures
        exists|t: &str, r: Result<String, SecretError>| #[trigger]
            call_ensures(cipher, (t,), r) && t@ == text && match r {
                Ok(s) => answer == Ok::<Seq<char>, Fault>(s@),
                Err(e) => answer == Err::<Seq<char>, Fault>(e@),
            },
{
}

/// The secrets in a file are those in the JSON object to which its value decrypts. A file without a
/// value holds none. It fails only as a file that is none of ours, with the fault of the cipher, or
/// as text that is no such object.
pub proof fn law_what_is_loaded<
    D: Fn(&str) -> Result<String, SecretError>,
    E: Fn(&str) -> Result<String, SecretError>,
>(
    store: LocalSecretStore<D, E>,
    file: Option<Seq<char>>,
    secrets: Result<Map<Seq<char>, Seq<char>>, Fault>,
)
    ensures
        store.loads(file, secrets) ==> match sealed_value(file) {
            Err(f) => secrets == Err::<Map<Seq<char>, Seq<char>>, Fault>(f),
            Ok(None) => secrets == Ok::<Map<Seq<char>, Seq<char>>, Fault>(Map::empty()),
            Ok(Some(value)) => exists|plain: Result<Seq<char>, Fault>| #[trigger]
                answers(store.decrypt(), value, plain) && match plain {
                    Err(f) => secrets == Err::<Map<Seq<char>, Seq<char>>, Fault>(f),
                    Ok(text) => match json_object(text) {
                        Some(m) => secrets == Ok::<Map<Seq<char>, Seq<char>>, Fault>(m),
                        None => secrets == Err::<Map<Seq<char>, Seq<char>>, Fault>(
                            Fault::BadSecrets,
                        ),
                    },
                },
        },
{
}

/// Whether `outcome` is what comes of writing exactly these secrets: the file for what the cipher
/// makes of their JSON object, the fault of the cipher, or the fault of a cipher that does not
/// encrypt.
pub open spec fn writes<
    D: Fn(&str) -> Result<String, SecretError>,
    E: Fn(&str) -> Result<String, SecretError>,
>(
    store: LocalSecretStore<D, E>,
    m: Map<Seq<char>, Seq<char>>,
    outcome: Result<Seq<char>, Fault>,
) -> bool {
    exists|c: Result<Seq<char>, Fault>| #[trigger]
        answers(store.encrypt(), json_text(m), c) && match c {
            Err(f) => outcome == Err::<Seq<char>, Fault>(f),
            Ok(value) => {
                ||| exists|x: Seq<char>| #[trigger]
                    ("enc2:"@ + x) == value && outcome == Ok::<Seq<char>, Fault>("secrets1:"@ + x)
                ||| (forall|x: Seq<char>| #[trigger] ("enc2:"@ + x) != value) && outcome == Err::<
                    Seq<char>,
                    Fault,
                >(Fault::NotEncrypted)
            },
        }
}

/// Any value can be stored under any key: the store writes the secrets with that value under that
/// key, every other as it was. It fails only as loading, the cipher, or a cipher that does not
/// encrypt makes it.
pub proof fn law_set_writes<
    D: Fn(&str) -> Result<String, SecretError>,
    E: Fn(&str) -> Result<String, SecretError>,
>(
    store: LocalSecretStore<D, E>,
    m: Map<Seq<char>, Seq<char>>,
    f: Fault,
    key: Seq<char>,
    value: Seq<char>,
    outcome: Result<Seq<char>, Fault>,
)
    ensures
        store.saves(with_value(Ok(m), key, value), outcome) ==> writes(
            store,
            m.insert(key, value),
            outcome,
        ),
        store.saves(with_value(Err(f), key, value), outcome) ==> outcome == Err::<Seq<char>, Fault>(
            f,
        ),
{
    lemma_saved(store, m.insert(key, value), outcome);
}

/// A key that is there can be deleted: the store writes the secrets without it, every other as it
/// was. One that is not there is refused, and nothing is written.
pub proof fn law_delete_writes<
    D: Fn(&str) -> Result<String, SecretError>,
    E: Fn(&str) -> Result<String, SecretError>,
>(
    store: LocalSecretStore<D, E>,
    m: Map<Seq<char>, Seq<char>>,
    f: Fault,
    key: Seq<char>,
    outcome: Result<Seq<char>, Fault>,
)
    ensures
        store.saves(without_key(Ok(m), key), outcome) ==> (if m.contains_key(key) {
            writes(store, m.remove(key), outcome)
        } else {
            outcome == Err::<Seq<char>, Fault>(Fault::NotFound(key))
        }),
        store.saves(without_key(Err(f), key), outcome) ==> outcome == Err::<Seq<char>, Fault>(f),
{
    lemma_saved(store, m.remove(key), outcome);
}

/// Encrypting anew writes exactly the secrets that there are, if there are any.
pub proof fn law_rotation_writes<
    D: Fn(&str) -> Result<String, SecretError>,
    E: Fn(&str) -> Result<String, SecretError>,
>(
    store: LocalSecretStore<D, E>,
    m: Map<Seq<char>, Seq<char>>,
    f: Fault,
    key: Seq<char>,
    outcome: Result<Seq<char>, Fault>,
)
    ensures
        m.contains_key(key) && store.saves(to_rotate(Ok(m)), outcome) ==> writes(store, m, outcome),
        store.saves(to_rotate(Ok(Map::empty())), outcome) ==> outcome == Err::<Seq<char>, Fault>(
            Fault::NothingToRotate,
        ),
        store.saves(to_rotate(Err(f)), outcome) ==> outcome == Err::<Seq<char>, Fault>(f),
{
    lemma_saved(store, m, outcome);
}

proof fn lemma_saved<
    D: Fn(&str) -> Result<String, SecretError>,
    E: Fn(&str) -> Result<String, SecretError>,
>(
    store: LocalSecretStore<D, E>,
    m: Map<Seq<char>, Seq<char>>,
    outcome: Result<Seq<char>, Fault>,
)
    ensures
        store.saves(Ok(m), outcome) ==> writes(store, m, outcome),
{
    if store.saves(Ok(m), outcome) {
        let cipher = choose|cipher: Result<Seq<char>, Fault>| #[trigger]
            file_for(Ok(m), cipher) == outcome && json_object(json_text(m)) == Some(m) && answers(
                store.encrypt(),
                json_text(m),
                cipher,
            );
        if let Ok(value) = cipher {
            law_occurrence(value, "enc2:"@, 0);
            if has_prefix(value, "enc2:"@) {
                let x = choose|x: Seq<char>| #[trigger] ("enc2:"@ + x) == value;
                law_file_of_value(x);
                assert(("enc2:"@ + x) == value);
            }
        }
    }
}

/// A read gives the whole value of the key, and fails only as loading did or because the key is not
/// there; a listing fails only as loading did.
pub proof fn law_what_is_read(m: Map<Seq<char>, Seq<char>>, f: Fault, key: Seq<char>)
    ensures
        m.contains_key(key) ==> value_in(Ok(m), key) == Ok::<Seq<char>, Fault>(m[key]),
        !m.contains_key(key) ==> value_in(Ok(m), key) == Err::<Seq<char>, Fault>(
            Fault::NotFound(key),
        ),
        value_in(Err(f), key) == Err::<Seq<char>, Fault>(f),
        forall|listing: Result<Seq<Seq<char>>, Fault>| #[trigger]
            keys_listed(Ok(m), listing) ==> listing is Ok && lists_keys(listing->Ok_0, m),
        forall|listing: Result<Seq<Seq<char>>, Fault>| #[trigger]
            keys_listed(Err(f), listing) ==> listing == Err::<Seq<Seq<char>>, Fault>(f),
{
}

} // verus!
