//! Templates: text with tokens that stand for secrets.
//!
//! A token is written `{{secret:KEY}}`, or `{{secret@store:KEY}}` to name the store. The key is
//! everything after the first colon. A token that is never closed is ordinary text.

use vstd::prelude::*;
use crate::error::{Fault, SecretError};
use crate::key::{key_char, valid_key};
use crate::text::{
    chars_of, find, first_match, has_prefix, law_first_match, lemma_first_match,
    lemma_first_match_is, matches_at, occurs_at, string_of,
};

verus! {

/// A part of a template: text to copy, or a token to replace.
#[derive(Debug, PartialEq, Eq)]
pub enum Piece {
    Text(String),
    Token(String),
}

/// A part of a template, over texts.
pub enum PieceView {
    Text(Seq<char>),
    Token(Seq<char>),
}

impl View for Piece {
    type V = PieceView;

    open spec fn view(&self) -> PieceView {
        match self {
            Piece::Text(t) => PieceView::Text(t@),
            Piece::Token(t) => PieceView::Token(t@),
        }
    }
}

/// The parts of a template, over texts.
pub open spec fn pieces(s: Seq<Piece>) -> Seq<PieceView> {
    s.map_values(|p: Piece| p@)
}

/// The parts of `s` from position `from` on. The text before a token comes first, then what
/// stands between the braces of the token, then the parts of what follows it.
pub open spec fn template(s: Seq<char>, from: int) -> Seq<PieceView>
    decreases s.len() - from,
{
    if from < 0 || from > s.len() {
        seq![]
    } else {
        match first_match(s, "{{secret"@, from) {
            None => seq![PieceView::Text(s.skip(from))],
            Some(i) => match first_match(s, "}}"@, i + 2) {
                None => seq![PieceView::Text(s.skip(from))],
                Some(j) => {
                    proof {
                        reveal_strlit("{{secret");
                        reveal_strlit("}}");
                        lemma_first_match(s, "{{secret"@, from);
                        lemma_first_match(s, "}}"@, i + 2);
                    }
                    seq![
                        PieceView::Text(s.subrange(from, i)),
                        PieceView::Token(s.subrange(i + 2, j)),
                    ] + template(s, j + 2)
                },
            },
        }
    }
}

/// The secret that a token refers to: the store that it names, if it names one, and the key.
pub open spec fn token_ref(token: Seq<char>) -> Result<(Option<Seq<char>>, Seq<char>), Fault> {
    if !has_prefix(token, "secret"@) {
        Err(Fault::InvalidToken(token))
    } else if token.len() > 6 && token[6] == '@' {
        match first_match(token, seq![':'], 7) {
            None => Err(Fault::MissingColon(token)),
            Some(i) => Ok((Some(token.subrange(7, i)), token.skip(i + 1))),
        }
    } else if token.len() > 6 && token[6] == ':' {
        Ok((None, token.skip(7)))
    } else {
        Err(Fault::InvalidToken(token))
    }
}

/// The template that has these parts.
pub open spec fn source(parts: Seq<PieceView>) -> Seq<char>
    decreases parts.len(),
{
    if parts.len() == 0 {
        seq![]
    } else {
        let head = match parts[0] {
            PieceView::Text(t) => t,
            PieceView::Token(t) => "{{"@ + t + "}}"@,
        };
        head + source(parts.drop_first())
    }
}

/// Splits a template into its parts.
pub fn parse_template(content: &str) -> (r: Vec<Piece>)
    ensures
        pieces(r@) == template(content@, 0),
{
    let v = chars_of(content);
    let open = chars_of("{{secret");
    let close = chars_of("}}");
    proof {
        reveal_strlit("{{secret");
        reveal_strlit("}}");
    }
    let mut parts: Vec<Piece> = Vec::new();
    let mut from: usize = 0;
    loop
        invariant
            from <= v.len(),
            v@ == content@,
            open@ == "{{secret"@,
            close@ == "}}"@,
            open@.len() == 8,
            close@.len() == 2,
            template(content@, 0) == pieces(parts@) + template(content@, from as int),
        decreases v.len() - from,
    {
        let ghost before = parts@;
        proof {
            lemma_first_match(v@, open@, from as int);
        }
        let start: usize = match find(&v, &open, from) {
            Some(i) => i,
            None => {
                let tail = string_of(&v, from, v.len());
                parts.push(Piece::Text(tail));
                assert(tail@ =~= content@.skip(from as int));
                assert(pieces(parts@) =~= pieces(before) + template(content@, from as int));
                return parts;
            },
        };
        proof {
            lemma_first_match(v@, close@, start + 2);
        }
        let end: usize = match find(&v, &close, start + 2) {
            Some(j) => j,
            None => {
                let tail = string_of(&v, from, v.len());
                parts.push(Piece::Text(tail));
                assert(tail@ =~= content@.skip(from as int));
                assert(pieces(parts@) =~= pieces(before) + template(content@, from as int));
                return parts;
            },
        };
        parts.push(Piece::Text(string_of(&v, from, start)));
        parts.push(Piece::Token(string_of(&v, start + 2, end)));
        proof {
            let step = seq![
                PieceView::Text(content@.subrange(from as int, start as int)),
                PieceView::Token(content@.subrange(start + 2, end as int)),
            ];
            assert(pieces(parts@) =~= pieces(before) + step);
            assert(template(content@, from as int) == step + template(content@, end + 2));
            assert(pieces(parts@) + template(content@, end + 2) =~= pieces(before) + (step
                + template(content@, end + 2)));
        }
        from = end + 2;
    }
}

/// The secret that a token refers to.
pub fn parse_token(token: &str) -> (r: Result<(Option<String>, String), SecretError>)
    ensures
        match r {
            Ok((store, key)) => token_ref(token@) == Ok::<(Option<Seq<char>>, Seq<char>), Fault>(
                (crate::text::opt_string(store), key@),
            ),
            Err(e) => token_ref(token@) == Err::<(Option<Seq<char>>, Seq<char>), Fault>(e@),
        },
{
    let v = chars_of(token);
    let word = chars_of("secret");
    proof {
        reveal_strlit("secret");
    }
    if !matches_at(&v, &word, 0) {
        return Err(SecretError::InvalidToken { token: token.to_owned() });
    }
    if v.len() > 6 && v[6] == '@' {
        let colon: Vec<char> = vec![':'];
        assert(colon@ =~= seq![':']);
        proof {
            lemma_first_match(v@, colon@, 7);
        }
        match find(&v, &colon, 7) {
            None => Err(SecretError::MissingColon { token: token.to_owned() }),
            Some(i) => {
                let store = string_of(&v, 7, i);
                let key = string_of(&v, i + 1, v.len());
                assert(key@ =~= token@.skip(i + 1));
                Ok((Some(store), key))
            },
        }
    } else if v.len() > 6 && v[6] == ':' {
        let key = string_of(&v, 7, v.len());
        assert(key@ =~= token@.skip(7));
        Ok((None, key))
    } else {
        Err(SecretError::InvalidToken { token: token.to_owned() })
    }
}

/// A template can be put together again from its parts: no character is lost or added.
pub proof fn law_template_lossless(s: Seq<char>, from: int)
    requires
        0 <= from <= s.len(),
    ensures
        source(template(s, from)) == s.skip(from),
    decreases s.len() - from,
{
    reveal_strlit("{{secret");
    reveal_strlit("}}");
    reveal_strlit("{{");
    reveal_with_fuel(source, 3);
    lemma_first_match(s, "{{secret"@, from);
    match first_match(s, "{{secret"@, from) {
        None => {
            assert(template(s, from).drop_first() =~= seq![]);
            assert(source(template(s, from)) =~= s.skip(from));
        },
        Some(i) => {
            lemma_first_match(s, "}}"@, i + 2);
            match first_match(s, "}}"@, i + 2) {
                None => {
                    assert(template(s, from).drop_first() =~= seq![]);
                    assert(source(template(s, from)) =~= s.skip(from));
                },
                Some(j) => {
                    law_template_lossless(s, j + 2);
                    let parts = template(s, from);
                    let rest = template(s, j + 2);
                    assert(parts[0] == PieceView::Text(s.subrange(from, i)));
                    assert(parts.drop_first()[0] == PieceView::Token(s.subrange(i + 2, j)));
                    assert(parts.drop_first().drop_first() =~= rest);
                    assert(source(parts) == s.subrange(from, i) + ("{{"@ + s.subrange(i + 2, j)
                        + "}}"@ + source(rest)));
                    lemma_brace_pair(s, i);
                    assert(s.subrange(j, j + 2) =~= "}}"@);
                    assert(s.skip(from) =~= s.subrange(from, i) + (s.subrange(i, i + 2)
                        + s.subrange(i + 2, j) + s.subrange(j, j + 2) + s.skip(j + 2)));
                },
            }
        },
    }
}

proof fn lemma_brace_pair(s: Seq<char>, i: int)
    requires
        occurs_at(s, "{{secret"@, i),
    ensures
        s.subrange(i, i + 2) == "{{"@,
{
    reveal_strlit("{{secret");
    reveal_strlit("{{");
    let open = s.subrange(i, i + 8);
    assert(open[0] == s[i] && open[1] == s[i + 1]);
    assert(s.subrange(i, i + 2) =~= "{{"@);
}

/// Text that opens no token is one part, and so is text in which a token is opened but no
/// token is closed after that.
pub proof fn law_plain_text(s: Seq<char>)
    ensures
        first_match(s, "{{secret"@, 0) is None ==> template(s, 0) == seq![PieceView::Text(s)],
        first_match(s, "{{secret"@, 0) matches Some(i) ==> (first_match(s, "}}"@, i + 2) is None
            ==> template(s, 0) == seq![PieceView::Text(s)]),
{
    assert(s.skip(0) =~= s);
}

/// The key of a token is everything after the first colon: `secret:` and any text refers to
/// that text, in no particular store.
pub proof fn law_token_key(key: Seq<char>)
    ensures
        token_ref("secret:"@ + key) == Ok::<(Option<Seq<char>>, Seq<char>), Fault>((None, key)),
{
    reveal_strlit("secret:");
    reveal_strlit("secret");
    let token = "secret:"@ + key;
    assert(token.subrange(0, 6) =~= "secret"@);
    assert(token[6] == ':');
    assert(token.skip(7) =~= key);
}

/// A token may name its store: `secret@`, a store name without a colon, a colon and any text
/// refers to that text in that store.
pub proof fn law_token_store(store: Seq<char>, key: Seq<char>)
    requires
        !store.contains(':'),
    ensures
        token_ref("secret@"@ + store + ":"@ + key) == Ok::<
            (Option<Seq<char>>, Seq<char>),
            Fault,
        >((Some(store), key)),
{
    reveal_strlit("secret@");
    reveal_strlit("secret");
    reveal_strlit(":");
    let token = "secret@"@ + store + ":"@ + key;
    let i = 7 + store.len() as int;
    assert(token.subrange(0, 6) =~= "secret"@);
    assert(token[6] == '@');
    assert(token[i] == ':');
    assert(token.subrange(i, i + 1) =~= seq![':']);
    assert forall|j: int| 7 <= j < i implies !occurs_at(token, seq![':'], j) by {
        assert(token[j] == store[j - 7]);
        assert(token.subrange(j, j + 1)[0] == token[j]);
        assert(store.contains(store[j - 7]));
    }
    lemma_first_match_is(token, seq![':'], 7, i);
    assert(token.subrange(7, i) =~= store);
    assert(token.skip(i + 1) =~= key);
}

/// Only those two forms refer to a secret.
pub proof fn law_token_forms(token: Seq<char>)
    ensures
        token_ref(token) matches Ok((store, key)) ==> match store {
            None => token == "secret:"@ + key,
            Some(name) => token == "secret@"@ + name + ":"@ + key && !name.contains(':'),
        },
{
    reveal_strlit("secret:");
    reveal_strlit("secret@");
    reveal_strlit("secret");
    reveal_strlit(":");
    match token_ref(token) {
        Ok((None, key)) => {
            assert(token =~= token.subrange(0, 6) + seq![token[6]] + token.skip(7));
            assert("secret:"@ =~= "secret"@ + seq![':']);
        },
        Ok((Some(name), key)) => {
            lemma_first_match(token, seq![':'], 7);
            let i = first_match(token, seq![':'], 7)->0;
            assert(token.subrange(i, i + 1)[0] == ':');
            assert(token =~= token.subrange(0, 6) + seq![token[6]] + token.subrange(7, i)
                + seq![token[i]] + token.skip(i + 1));
            assert("secret@"@ =~= "secret"@ + seq!['@']);
            assert(":"@ =~= seq![':']);
            assert("secret@"@ + name + ":"@ + key =~= token);
            if name.contains(':') {
                let k = name.index_of(':');
                assert(token[7 + k] == ':');
                assert(token.subrange(7 + k, 7 + k + 1) =~= seq![':']);
                assert(occurs_at(token, seq![':'], 7 + k));
            }
        },
        Err(_) => {},
    }
}

/// The parts after a position are the parts of the text after that position.
pub proof fn lemma_template_skip(s: Seq<char>, from: int)
    requires
        0 <= from <= s.len(),
    ensures
        template(s, from) == template(s.skip(from), 0),
{
    lemma_template_shift(s, s.skip(from), from, 0);
}

proof fn lemma_first_match_shift(s: Seq<char>, t: Seq<char>, pat: Seq<char>, at: int, from: int)
    requires
        0 <= at <= s.len(),
        t == s.skip(at),
        0 <= from,
    ensures
        first_match(s, pat, at + from) == (match first_match(t, pat, from) {
            Some(i) => Some(at + i),
            None => None,
        }),
    decreases t.len() + 1 - from,
{
    if from + pat.len() > t.len() || from > t.len() {
    } else {
        assert(t.subrange(from, from + pat.len()) =~= s.subrange(
            at + from,
            at + from + pat.len(),
        ));
        lemma_first_match_shift(s, t, pat, at, from + 1);
    }
}

proof fn lemma_template_shift(s: Seq<char>, t: Seq<char>, at: int, from: int)
    requires
        0 <= at <= s.len(),
        t == s.skip(at),
        0 <= from <= t.len(),
    ensures
        template(s, at + from) == template(t, from),
    decreases t.len() - from,
{
    reveal_strlit("{{secret");
    reveal_strlit("}}");
    lemma_first_match_shift(s, t, "{{secret"@, at, from);
    assert(s.skip(at + from) =~= t.skip(from));
    lemma_first_match(t, "{{secret"@, from);
    match first_match(t, "{{secret"@, from) {
        None => {},
        Some(i) => {
            lemma_first_match_shift(s, t, "}}"@, at, i + 2);
            lemma_first_match(t, "}}"@, i + 2);
            match first_match(t, "}}"@, i + 2) {
                None => {},
                Some(j) => {
                    lemma_template_shift(s, t, at, j + 2);
                    assert(s.subrange(at + from, at + i) =~= t.subrange(from, i));
                    assert(s.subrange(at + i + 2, at + j) =~= t.subrange(i + 2, j));
                },
            }
        },
    }
}

/// Whether the first closing braces that follow `inside` are those directly behind it.
pub open spec fn closes_behind(inside: Seq<char>) -> bool {
    first_match(inside + "}}"@, "}}"@, 0) == Some(inside.len() as int)
}

/// An inside without a closing brace is closed directly behind it.
proof fn lemma_closes_behind(inside: Seq<char>)
    requires
        !inside.contains('}'),
    ensures
        closes_behind(inside),
{
    reveal_strlit("}}");
    let s = inside + "}}"@;
    let j = inside.len() as int;
    assert(s.subrange(j, j + 2) =~= "}}"@);
    assert forall|k: int| 0 <= k < j implies !occurs_at(s, "}}"@, k) by {
        assert(s.subrange(k, k + 2)[0] == inside[k]);
        assert(inside.contains(inside[k]));
    }
    lemma_first_match_is(s, "}}"@, 0, j);
}

/// A token is found where it stands: text that opens no token, then a token that is closed behind
/// its inside, then anything, are the parts text, token, and the parts of the rest.
pub proof fn law_token_found(head: Seq<char>, inside: Seq<char>, rest: Seq<char>)
    requires
        first_match(head, "{{secret"@, 0) is None,
        closes_behind(inside),
    ensures
        template(head + "{{secret"@ + inside + "}}"@ + rest, 0) == seq![
            PieceView::Text(head),
            PieceView::Token("secret"@ + inside),
        ] + template(rest, 0),
{
    reveal_strlit("{{secret");
    reveal_strlit("secret");
    reveal_strlit("}}");
    let open = "{{secret"@;
    let close = "}}"@;
    let s = head + open + inside + close + rest;
    let i = head.len() as int;
    let j = i + 8 + inside.len();
    lemma_first_match(head, open, 0);
    assert(s.subrange(i, i + 8) =~= open);
    assert forall|k: int| 0 <= k < i implies !occurs_at(s, open, k) by {
        if occurs_at(s, open, k) {
            let w = s.subrange(k, k + 8);
            if k + 8 <= i {
                assert(head.subrange(k, k + 8) =~= w);
                assert(occurs_at(head, open, k));
            } else {
                assert(w[i - k] == s[i]);
                assert(s[i] == open[0]);
                assert(i - k == 1);
                assert(w[2] == s[i + 1]);
                assert(s[i + 1] == open[1]);
            }
        }
    }
    lemma_first_match_is(s, open, 0, i);
    assert(s.subrange(j, j + 2) =~= close);
    assert forall|k: int| i + 2 <= k < j implies !occurs_at(s, close, k) by {
        if occurs_at(s, close, k) {
            assert(s.subrange(k, k + 2)[0] == s[k]);
            if k < i + 8 {
                assert(s[k] == open[k - i]);
            } else {
                let m = k - i - 8;
                assert((inside + close).subrange(m, m + 2) =~= s.subrange(k, k + 2));
                lemma_first_match(inside + close, close, 0);
                assert(occurs_at(inside + close, close, m));
            }
        }
    }
    lemma_first_match_is(s, close, i + 2, j);
    assert(s.subrange(0, i) =~= head);
    assert(s.subrange(i + 2, j) =~= "secret"@ + inside);
    lemma_template_skip(s, j + 2);
    assert(s.skip(j + 2) =~= rest);
}

/// Every key that can be stored can be referred to: between the braces of a token it stands for
/// itself.
pub proof fn law_stored_key_in_token(key: Seq<char>)
    requires
        valid_key(key),
    ensures
        template("{{secret:"@ + key + "}}"@, 0) == seq![
            PieceView::Text(seq![]),
            PieceView::Token("secret:"@ + key),
            PieceView::Text(seq![]),
        ],
        token_ref("secret:"@ + key) == Ok::<(Option<Seq<char>>, Seq<char>), Fault>((None, key)),
{
    reveal_strlit("{{secret:");
    reveal_strlit("{{secret");
    reveal_strlit("secret:");
    reveal_strlit("secret");
    law_token_key(key);
    let inside = seq![':'] + key;
    assert(!inside.contains('}')) by {
        if inside.contains('}') {
            let i = inside.index_of('}');
            assert(i > 0 && inside[i] == key[i - 1]);
            assert(key_char(key[i - 1]));
        }
    }
    lemma_closes_behind(inside);
    let none = Seq::<char>::empty();
    assert(first_match(none, "{{secret"@, 0) is None);
    law_token_found(none, inside, none);
    law_plain_text(none);
    assert("secret"@ + inside =~= "secret:"@ + key);
    assert(none + "{{secret"@ + inside + "}}"@ + none =~= "{{secret:"@ + key + "}}"@);
    assert(template("{{secret:"@ + key + "}}"@, 0) =~= seq![
        PieceView::Text(seq![]),
        PieceView::Token("secret:"@ + key),
        PieceView::Text(seq![]),
    ]);
}

/// The parts of a template are kept whole and in order.
pub proof fn law_pieces(s: Seq<Piece>, t: String, i: int)
    ensures
        Piece::Text(t)@ == PieceView::Text(t@),
        Piece::Token(t)@ == PieceView::Token(t@),
        pieces(s).len() == s.len(),
        0 <= i < s.len() ==> pieces(s)[i] == s[i]@,
{
}

/// Text in which `{{secret` stands nowhere is one part, and so is text in which no `}}` stands
/// behind the first `{{secret`.
pub proof fn law_text_without_tokens(s: Seq<char>, open: int)
    ensures
        (forall|k: int| 0 <= k <= s.len() - 8 ==> #[trigger] s.subrange(k, k + 8) != "{{secret"@)
            ==> template(s, 0) == seq![PieceView::Text(s)],
        0 <= open <= s.len() - 8 && s.subrange(open, open + 8) == "{{secret"@ && (forall|k: int|
            0 <= k < open ==> #[trigger] s.subrange(k, k + 8) != "{{secret"@) && (forall|k: int|
            open <= k <= s.len() - 2 ==> #[trigger] s.subrange(k, k + 2) != "}}"@) ==> template(
            s,
            0,
        ) == seq![PieceView::Text(s)],
{
    reveal_strlit("{{secret");
    reveal_strlit("}}");
    law_plain_text(s);
    law_first_match(s, "{{secret"@, 0);
    if 0 <= open <= s.len() - 8 && s.subrange(open, open + 8) == "{{secret"@ && (forall|k: int|
        0 <= k < open ==> #[trigger] s.subrange(k, k + 8) != "{{secret"@) && (forall|k: int|
        open <= k <= s.len() - 2 ==> #[trigger] s.subrange(k, k + 2) != "}}"@) {
        let i = first_match(s, "{{secret"@, 0)->0;
        assert(s.subrange(i, i + 8) == "{{secret"@);
        assert(i == open);
        law_first_match(s, "}}"@, i + 2);
    }
}

/// A token is found whatever its length: text in which `{{secret` stands nowhere, then
/// `{{secret`, an inside with `}}` behind it and not before, and anything more, are the parts text
/// and token, and then the parts of the rest.
pub proof fn law_every_token_found(head: Seq<char>, inside: Seq<char>, rest: Seq<char>)
    requires
        forall|k: int|
            0 <= k <= head.len() - 8 ==> #[trigger] head.subrange(k, k + 8) != "{{secret"@,
        forall|k: int|
            0 <= k < inside.len() ==> #[trigger] (inside + "}}"@).subrange(k, k + 2) != "}}"@,
    ensures
        template(head + "{{secret"@ + inside + "}}"@ + rest, 0) == seq![
            PieceView::Text(head),
            PieceView::Token("secret"@ + inside),
        ] + template(rest, 0),
{
    reveal_strlit("{{secret");
    reveal_strlit("}}");
    law_first_match(head, "{{secret"@, 0);
    let closed = inside + "}}"@;
    law_first_match(closed, "}}"@, 0);
    let j = inside.len() as int;
    assert(closed.subrange(j, j + 2) =~= "}}"@);
    law_token_found(head, inside, rest);
}

/// A token that refers to no secret lacks a colon if it names a store, and is malformed otherwise;
/// the fault holds the whole token.
pub proof fn law_bad_token(token: Seq<char>)
    ensures
        token_ref(token) matches Err(f) ==> {
            let names_store = exists|rest: Seq<char>| #[trigger] ("secret@"@ + rest) == token;
            &&& names_store ==> f == Fault::MissingColon(token) && !token.contains(':')
            &&& !names_store ==> f == Fault::InvalidToken(token) && forall|key: Seq<char>|
                #[trigger] ("secret:"@ + key) != token
        },
{
    reveal_strlit("secret@");
    reveal_strlit("secret:");
    reveal_strlit("secret");
    if token_ref(token) is Err {
        if exists|rest: Seq<char>| #[trigger] ("secret@"@ + rest) == token {
            let rest = choose|rest: Seq<char>| #[trigger] ("secret@"@ + rest) == token;
            assert(token.subrange(0, 6) =~= "secret"@);
            assert(token[6] == '@');
            lemma_first_match(token, seq![':'], 7);
            if token.contains(':') {
                let k = token.index_of(':');
                assert(token[k] == ':');
                if k < 7 {
                    assert(token[k] == "secret@"@[k]);
                }
                assert(token.subrange(k, k + 1) =~= seq![':']);
                assert(occurs_at(token, seq![':'], k));
            }
        } else {
            if has_prefix(token, "secret"@) && token.len() > 6 && token[6] == '@' {
                assert(token =~= "secret@"@ + token.skip(7)) by {
                    assert(token.subrange(0, 6) == "secret"@);
                    assert forall|k: int| 0 <= k < 6 implies token[k] == "secret"@[k] by {
                        assert(token.subrange(0, 6)[k] == token[k]);
                    }
                }
            }
            assert forall|key: Seq<char>| #[trigger] ("secret:"@ + key) != token by {
                if ("secret:"@ + key) == token {
                    law_token_key(key);
                }
            }
        }
    }
}

} // verus!
