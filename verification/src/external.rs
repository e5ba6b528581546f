//! Stores that a provider program keeps.
//!
//! Each operation runs the program once. It is handed one line of JSON, the request, and answers
//! with one line of JSON, the response. Running the program and reading the response as JSON are
//! left to the caller.

use vstd::prelude::*;
use vstd::utf8::{decode_utf8, valid_utf8};
use crate::error::{text_outcome, Fault, SecretError};
use crate::json::{json_object, json_text, write_object};
use crate::secret_map::{has_key, key_index, lemma_map_of, map_of, ordered, pairs};
use crate::text::{before, concat2, first_line, first_line_of, opt_string, texts, trim, trimmed};

verus! {

/// What `String::from_utf8_lossy` makes of bytes.
pub uninterp spec fn lossy_text(bytes: Seq<u8>) -> Seq<char>;

/// `String::from_utf8`. Claimed: it succeeds exactly on valid UTF-8, and then gives the text that
/// the bytes encode.
#[verifier::external_body]
fn text_of(bytes: Vec<u8>) -> (r: Option<String>)
    ensures
        match r {
            Some(text) => valid_utf8(bytes@) && text@ == decode_utf8(bytes@),
            None => !valid_utf8(bytes@),
        },
{
    String::from_utf8(bytes).ok()
}

/// `String::from_utf8_lossy`. Claimed: the text depends on the bytes alone, and is the one that
/// they encode if they are valid UTF-8; else it holds the replacement character. How many of those
/// stand for which bytes is not said.
#[verifier::external_body]
fn lossy(bytes: &Vec<u8>) -> (r: String)
    ensures
        r@ == lossy_text(bytes@),
        valid_utf8(bytes@) ==> r@ == decode_utf8(bytes@),
        !valid_utf8(bytes@) ==> r@.contains('\u{fffd}'),
{
    String::from_utf8_lossy(bytes).into_owned()
}

/// A store that a provider program keeps.
pub struct ExternalSecretStore {
    binary_path: String,
}

impl View for ExternalSecretStore {
    type V = Seq<char>;

    closed spec fn view(&self) -> Seq<char> {
        self.binary_path@
    }
}

impl ExternalSecretStore {
    /// The store that the program at this path keeps.
    pub fn new(binary_path: String) -> (r: Self)
        ensures
            r@ == binary_path@,
    {
        ExternalSecretStore { binary_path }
    }

    /// The path of the program.
    pub fn binary_path(&self) -> (r: &str)
        ensures
            r@ == self@,
    {
        self.binary_path.as_str()
    }
}

/// What the program is asked to do.
pub struct Request {
    pub action: String,
    pub key: Option<String>,
    pub value: Option<String>,
}

/// A request, over texts.
#[verifier::ext_equal]
pub struct RequestView {
    pub action: Seq<char>,
    pub key: Option<Seq<char>>,
    pub value: Option<Seq<char>>,
}

impl View for Request {
    type V = RequestView;

    open spec fn view(&self) -> RequestView {
        RequestView {
            action: self.action@,
            key: opt_string(self.key),
            value: opt_string(self.value),
        }
    }
}

/// The members of the JSON object that a request is written as. What the request does not have
/// is left out.
pub open spec fn request_members(r: RequestView) -> Map<Seq<char>, Seq<char>> {
    let action = Map::empty().insert("action"@, r.action);
    let keyed = match r.key {
        Some(key) => action.insert("key"@, key),
        None => action,
    };
    match r.value {
        Some(value) => keyed.insert("value"@, value),
        None => keyed,
    }
}

impl Request {
    /// Asks for the value of a key.
    pub fn get(key: &str) -> (r: Self)
        ensures
            r@ == (RequestView { action: "get"@, key: Some(key@), value: None }),
    {
        Request { action: "get".to_owned(), key: Some(key.to_owned()), value: None }
    }

    /// Asks to store a value under a key.
    pub fn set(key: &str, value: &str) -> (r: Self)
        ensures
            r@ == (RequestView { action: "set"@, key: Some(key@), value: Some(value@) }),
    {
        Request {
            action: "set".to_owned(),
            key: Some(key.to_owned()),
            value: Some(value.to_owned()),
        }
    }

    /// Asks for the keys that have a value.
    pub fn list() -> (r: Self)
        ensures
            r@ == (RequestView { action: "list"@, key: None, value: None }),
    {
        Request { action: "list".to_owned(), key: None, value: None }
    }

    /// Asks to remove a key.
    pub fn delete(key: &str) -> (r: Self)
        ensures
            r@ == (RequestView { action: "delete"@, key: Some(key@), value: None }),
    {
        Request { action: "delete".to_owned(), key: Some(key.to_owned()), value: None }
    }

    /// The members of the JSON object, in the order of their names.
    fn members(&self) -> (r: Vec<(String, String)>)
        ensures
            ordered(pairs(r@)),
            map_of(pairs(r@)) == request_members(self@),
    {
        let mut r: Vec<(String, String)> = Vec::new();
        r.push(("action".to_owned(), self.action.clone()));
        if let Some(key) = &self.key {
            r.push(("key".to_owned(), key.clone()));
        }
        if let Some(value) = &self.value {
            r.push(("value".to_owned(), value.clone()));
        }
        proof {
            lemma_members(pairs(r@), self@);
        }
        r
    }

    /// What the program is handed: one line, which holds the JSON object.
    pub fn line(&self) -> (r: Result<String, SecretError>)
        ensures
            r matches Ok(line) && {
                &&& line@ == json_text(request_members(self@)) + "\n"@
                &&& line@.last() == '\n'
                &&& !line@.drop_last().contains('\n')
                &&& json_object(line@.drop_last()) == Some(request_members(self@))
            },
    {
        let members = self.members();
        match write_object(&members) {
            Ok(json) => {
                proof {
                    reveal_strlit("\n");
                    assert((json@ + "\n"@).drop_last() =~= json@);
                }
                Ok(concat2(json.as_str(), "\n"))
            },
            Err(_) => Err(SecretError::Unserializable),
        }
    }
}

/// The pairs that a request is written as.
spec fn member_pairs(r: RequestView) -> Seq<(Seq<char>, Seq<char>)> {
    let action = seq![("action"@, r.action)];
    let keyed = match r.key {
        Some(key) => action.push(("key"@, key)),
        None => action,
    };
    match r.value {
        Some(value) => keyed.push(("value"@, value)),
        None => keyed,
    }
}

proof fn lemma_members(p: Seq<(Seq<char>, Seq<char>)>, r: RequestView)
    requires
        p =~= member_pairs(r),
    ensures
        ordered(p),
        map_of(p) == request_members(r),
{
    reveal_strlit("action");
    reveal_strlit("key");
    reveal_strlit("value");
    assert(before("action"@, "key"@));
    assert(before("action"@, "value"@));
    assert(before("key"@, "value"@));
    assert(ordered(p));
    let m = map_of(p);
    let n = request_members(r);
    assert forall|i: int| 0 <= i < p.len() implies m.contains_key(#[trigger] p[i].0)
        && m[p[i].0] == p[i].1 by {
        lemma_map_of(p, i);
    }
    assert forall|k: Seq<char>| #[trigger] n.contains_key(k) implies m.contains_key(k) && m[k]
        == n[k] by {
        if k == "action"@ {
            assert(p[0].0 == k);
        } else if k == "key"@ {
            assert(p[1].0 == k);
        } else {
            assert(p[p.len() - 1].0 == k);
        }
    }
    assert forall|k: Seq<char>| #[trigger] m.contains_key(k) implies n.contains_key(k) by {
        let i = key_index(p, k);
        assert(has_key(p, k));
        assert(p[i].0 == k);
    }
    assert(m =~= n);
}

/// What came of running the program: whether it reported success, how it exited in words, and
/// what it wrote.
pub struct ProviderOutput {
    pub success: bool,
    pub status: String,
    pub stdout: Vec<u8>,
    pub stderr: Vec<u8>,
}

/// The line that holds the response, where the program has run. A program that reports failure
/// is quoted with what it wrote to its error output.
pub open spec fn reply_line(output: ProviderOutput) -> Result<Seq<char>, Fault> {
    if !output.success {
        Err(Fault::ProviderExit(output.status@, trimmed(lossy_text(output.stderr@))))
    } else if !valid_utf8(output.stdout@) {
        Err(Fault::ProviderNotText)
    } else {
        match first_line_of(decode_utf8(output.stdout@)) {
            Some(line) => Ok(line),
            None => Err(Fault::ProviderSilent),
        }
    }
}

/// The error for a program that reported failure, where `stderr` is what it wrote to its error
/// output.
pub fn exit_error(status: String, stderr: &str) -> (r: SecretError)
    ensures
        r@ == Fault::ProviderExit(status@, trimmed(stderr@)),
{
    SecretError::ProviderExit { status, stderr: trim(stderr) }
}

impl ProviderOutput {
    /// The line that holds the response.
    pub fn line(self) -> (r: Result<String, SecretError>)
        ensures
            text_outcome(r) == reply_line(self),
    {
        if !self.success {
            let stderr = lossy(&self.stderr);
            return Err(exit_error(self.status, stderr.as_str()));
        }
        match text_of(self.stdout) {
            None => Err(SecretError::ProviderNotText),
            Some(text) => match first_line(text.as_str()) {
                Some(line) => Ok(line),
                None => Err(SecretError::ProviderSilent),
            },
        }
    }
}

/// What the program answers.
pub struct Response {
    pub ok: bool,
    pub value: Option<String>,
    pub keys: Option<Vec<String>>,
    pub error: Option<String>,
}

/// A response, over texts.
pub struct ResponseView {
    pub ok: bool,
    pub value: Option<Seq<char>>,
    pub keys: Option<Seq<Seq<char>>>,
    pub error: Option<Seq<char>>,
}

impl View for Response {
    type V = ResponseView;

    open spec fn view(&self) -> ResponseView {
        ResponseView {
            ok: self.ok,
            value: opt_string(self.value),
            keys: match self.keys {
                Some(keys) => Some(texts(keys@)),
                None => None,
            },
            error: opt_string(self.error),
        }
    }
}

/// A response or a fault, over texts.
pub open spec fn response_outcome(r: Result<Response, SecretError>) -> Result<
    ResponseView,
    Fault,
> {
    match r {
        Ok(response) => Ok(response@),
        Err(e) => Err(e@),
    }
}

/// The response if the program granted the request; else why it did not.
pub open spec fn accepted(r: ResponseView) -> Result<ResponseView, Fault> {
    if r.ok {
        Ok(r)
    } else {
        Err(
            Fault::ProviderRefused(
                match r.error {
                    Some(reason) => reason,
                    None => "unknown error"@,
                },
            ),
        )
    }
}

/// What comes of a call, where `parsed` is what reading the response as JSON gives.
pub open spec fn call_result(
    output: ProviderOutput,
    parsed: Result<ResponseView, Fault>,
) -> Result<ResponseView, Fault> {
    match reply_line(output) {
        Err(f) => Err(f),
        Ok(_) => match parsed {
            Err(f) => Err(f),
            Ok(response) => accepted(response),
        },
    }
}

/// Whether `parse` may answer `answer` when it is handed `text`.
pub open spec fn parses<P: Fn(&str) -> Result<Response, SecretError>>(
    parse: P,
    text: Seq<char>,
    answer: Result<ResponseView, Fault>,
) -> bool {
    exists|t: &str, r: Result<Response, SecretError>|
        t@ == text && #[trigger] call_ensures(parse, (t,), r) && response_outcome(r) == answer
}

/// The value that a granted read gives.
pub open spec fn value_result(r: ResponseView, key: Seq<char>) -> Result<Seq<char>, Fault> {
    match r.value {
        Some(value) => Ok(value),
        None => Err(Fault::ProviderNoValue(key)),
    }
}

/// The keys that a granted listing gives.
pub open spec fn keys_result(r: ResponseView) -> Seq<Seq<char>> {
    match r.keys {
        Some(keys) => keys,
        None => Seq::empty(),
    }
}

impl Response {
    /// The response if the program granted the request.
    pub fn accept(self) -> (r: Result<Response, SecretError>)
        ensures
            response_outcome(r) == accepted(self@),
            self.ok ==> (r matches Ok(response) && response == self),
            !self.ok ==> r is Err,
    {
        if self.ok {
            Ok(self)
        } else {
            let reason = match self.error {
                Some(reason) => reason,
                None => "unknown error".to_owned(),
            };
            Err(SecretError::ProviderRefused { reason })
        }
    }

    /// The value that a granted read of `key` gives.
    pub fn into_value(self, key: &str) -> (r: Result<String, SecretError>)
        ensures
            text_outcome(r) == value_result(self@, key@),
            self.value matches Some(value) ==> (r matches Ok(v) && v@ == value@),
            self.value is None ==> r is Err,
    {
        match self.value {
            Some(value) => Ok(value),
            None => Err(SecretError::ProviderNoValue { key: key.to_owned() }),
        }
    }

    /// The keys that a granted listing gives.
    pub fn into_keys(self) -> (r: Vec<String>)
        ensures
            texts(r@) == keys_result(self@),
            self.keys matches Some(keys) ==> r@ == keys@,
            self.keys is None ==> r@.len() == 0,
    {
        match self.keys {
            Some(keys) => keys,
            None => {
                let none: Vec<String> = Vec::new();
                assert(texts(none@) =~= Seq::empty());
                none
            },
        }
    }
}

/// What comes of a call once the program has run, where `parse` reads a line as a response.
pub fn finish_call<P: Fn(&str) -> Result<Response, SecretError>>(
    output: ProviderOutput,
    parse: P,
) -> (r: Result<Response, SecretError>)
    requires
        forall|t: &str| #[trigger] call_requires(parse, (t,)),
    ensures
        exists|parsed: Result<ResponseView, Fault>| #[trigger]
            call_result(output, parsed) == response_outcome(r) && (reply_line(output) matches Ok(
                line,
            ) ==> parses(parse, line, parsed)),
{
    let ghost ran = output;
    let line = match output.line() {
        Ok(line) => line,
        Err(e) => {
            assert(call_result(ran, Err(e@)) == Err::<ResponseView, Fault>(e@));
            return Err(e);
        },
    };
    let text = line.as_str();
    let parsed = parse(text);
    assert(parses(parse, line@, response_outcome(parsed)));
    let ghost result = call_result(ran, response_outcome(parsed));
    match parsed {
        Ok(response) => response.accept(),
        Err(e) => Err(e),
    }
}

/// Nothing of a request is lost when it is written: different requests have different members.
pub proof fn law_request_members(a: RequestView, b: RequestView)
    requires
        request_members(a) == request_members(b),
    ensures
        a == b,
{
    reveal_strlit("action");
    reveal_strlit("key");
    reveal_strlit("value");
    let m = request_members(a);
    assert("action"@.len() != "key"@.len());
    assert("action"@.len() != "value"@.len());
    assert("key"@.len() != "value"@.len());
    assert(m["action"@] == a.action && m["action"@] == b.action);
    assert(m.contains_key("key"@) == a.key is Some);
    assert(m.contains_key("key"@) == b.key is Some);
    assert(m.contains_key("value"@) == a.value is Some);
    assert(m.contains_key("value"@) == b.value is Some);
    if a.key is Some {
        assert(m["key"@] == a.key->0 && m["key"@] == b.key->0);
    }
    if a.value is Some {
        assert(m["value"@] == a.value->0 && m["value"@] == b.value->0);
    }
}

/// A call succeeds if and only if the program reports success, writes a line of text, and that
/// line reads as a response that grants the request. The response is then the one that was read.
pub proof fn law_call_succeeds(output: ProviderOutput, parsed: Result<ResponseView, Fault>)
    ensures
        call_result(output, parsed) is Ok <==> {
            &&& output.success
            &&& valid_utf8(output.stdout@)
            &&& decode_utf8(output.stdout@).len() > 0
            &&& parsed matches Ok(response) && response.ok
        },
        call_result(output, parsed) is Ok ==> call_result(output, parsed) == parsed,
{
}

/// A request and a response are kept whole: every text, and every key in its order.
pub proof fn law_protocol_texts(request: Request, response: Response, i: int)
    ensures
        request@.action == request.action@,
        request.key matches Some(key) ==> request@.key == Some(key@),
        request.key is None ==> request@.key is None,
        request.value matches Some(value) ==> request@.value == Some(value@),
        request.value is None ==> request@.value is None,
        response@.ok == response.ok,
        response.value matches Some(value) ==> response@.value == Some(value@),
        response.value is None ==> response@.value is None,
        response.error matches Some(error) ==> response@.error == Some(error@),
        response.error is None ==> response@.error is None,
        response.keys matches Some(keys) ==> (response@.keys matches Some(listed) && listed.len()
            == keys@.len() && (0 <= i < listed.len() ==> listed[i] == keys@[i]@)),
        response.keys is None ==> response@.keys is None,
{
}

/// A request is written as an object with its action, and with its key and value if it has them,
/// each whole, and with nothing else.
pub proof fn law_request_object(r: RequestView, member: Seq<char>)
    ensures
        request_members(r).contains_key(member) <==> member == "action"@ || (member == "key"@
            && r.key is Some) || (member == "value"@ && r.value is Some),
        request_members(r)["action"@] == r.action,
        r.key matches Some(key) ==> request_members(r)["key"@] == key,
        r.value matches Some(value) ==> request_members(r)["value"@] == value,
{
    reveal_strlit("action");
    reveal_strlit("key");
    reveal_strlit("value");
    assert("action"@.len() != "key"@.len());
    assert("action"@.len() != "value"@.len());
    assert("key"@.len() != "value"@.len());
}

/// A granted listing gives the keys of the response, each of them and in their order; a response
/// without keys gives none.
pub proof fn law_keys_of_response(r: ResponseView, i: int)
    ensures
        r.keys matches Some(keys) ==> keys_result(r).len() == keys.len() && (0 <= i < keys.len()
            ==> keys_result(r)[i] == keys[i]),
        r.keys is None ==> keys_result(r).len() == 0,
{
}

/// A granted read gives the whole value of the response; without one it fails, and names the key.
pub proof fn law_value_of_response(r: ResponseView, key: Seq<char>)
    ensures
        r.value matches Some(value) ==> value_result(r, key) == Ok::<Seq<char>, Fault>(value),
        r.value is None ==> value_result(r, key) == Err::<Seq<char>, Fault>(
            Fault::ProviderNoValue(key),
        ),
{
}

/// A response that grants the request is passed on as it is; one that does not is an error that
/// gives the whole reason of the program, or says that there is none.
pub proof fn law_refusal_gives_reason(r: ResponseView)
    ensures
        r.ok ==> accepted(r) == Ok::<ResponseView, Fault>(r),
        !r.ok ==> (r.error matches Some(reason) ==> accepted(r) == Err::<ResponseView, Fault>(
            Fault::ProviderRefused(reason),
        )),
        !r.ok && r.error is None ==> accepted(r) == Err::<ResponseView, Fault>(
            Fault::ProviderRefused("unknown error"@),
        ),
{
}

/// The output of a program that succeeds is text, and its first line is the response; a program that
/// fails, writes no text or writes nothing is reported as such, with how it ended and all that it
/// wrote to its error output, but for white space around.
pub proof fn law_output_read(output: ProviderOutput)
    ensures
        !output.success ==> reply_line(output) == Err::<Seq<char>, Fault>(
            Fault::ProviderExit(output.status@, trimmed(lossy_text(output.stderr@))),
        ),
        output.success && !valid_utf8(output.stdout@) ==> reply_line(output) == Err::<
            Seq<char>,
            Fault,
        >(Fault::ProviderNotText),
        output.success && valid_utf8(output.stdout@) && decode_utf8(output.stdout@).len() == 0
            ==> reply_line(output) == Err::<Seq<char>, Fault>(Fault::ProviderSilent),
        output.success && valid_utf8(output.stdout@) && decode_utf8(output.stdout@).len() > 0 ==> (
        reply_line(output) matches Ok(line) && first_line_of(decode_utf8(output.stdout@)) == Some(
            line,
        )),
{
}

/// A call comes to the fault of the output if there is no line to read, else to the fault of
/// reading the line, and else to the response if it grants the request.
pub proof fn law_call_by_stages(output: ProviderOutput, r: ResponseView, f: Fault, g: Fault)
    ensures
        reply_line(output) == Err::<Seq<char>, Fault>(f) ==> call_result(output, Ok(r)) == Err::<
            ResponseView,
            Fault,
        >(f) && call_result(output, Err(g)) == Err::<ResponseView, Fault>(f),
        reply_line(output) is Ok ==> call_result(output, Err(g)) == Err::<ResponseView, Fault>(g),
        reply_line(output) is Ok && r.ok ==> call_result(output, Ok(r)) == Ok::<
            ResponseView,
            Fault,
        >(r),
        reply_line(output) is Ok && !r.ok ==> (call_result(output, Ok(r)) matches Err(
            Fault::ProviderRefused(_),
        )),
{
}

/// What reading the line gives is what the caller's function returned for that line.
pub proof fn law_line_is_parsed<P: Fn(&str) -> Result<Response, SecretError>>(
    parse: P,
    text: Seq<char>,
    answer: Result<ResponseView, Fault>,
)
    requires
        parses(parse, text, answer),
    ensures
        exists|t: &str, r: Result<Response, SecretError>| #[trigger]
            call_ensures(parse, (t,), r) && t@ == text && match r {
                Ok(response) => answer == Ok::<ResponseView, Fault>(response@),
                Err(e) => answer == Err::<ResponseView, Fault>(e@),
            },
{
}

} // verus!
