//! Filling templates: every token is replaced by the secret that it refers to.
//!
//! A template is filled from left to right. The first token that cannot be replaced makes the
//! whole fail. A value is copied as it is, even if it looks like a token.

use vstd::prelude::*;
use crate::error::{text_outcome, Fault, SecretError};
use crate::read::{
    holds, law_read_by_position, law_read_of_secrets, law_read_steps, lemma_position_of, read_next,
    read_result, read_run, read_start, ReadAt, ReadStep, ReadView,
};
use crate::registry::{SecretRegistry, SecretStore};
use crate::template::{
    closes_behind, law_plain_text, law_token_found, law_token_key, law_token_store, parse_template,
    parse_token, pieces, template, token_ref, Piece, PieceView,
};
use crate::text::{first_match, law_first_match, opt_string, opt_text};

verus! {

/// The store that a token is read from: the one that it names, or else the default.
pub open spec fn token_store(
    named: Option<Seq<char>>,
    default: Option<Seq<char>>,
) -> Option<Seq<char>> {
    match named {
        Some(name) => Some(name),
        None => default,
    }
}

/// What replaces a token, where `replies` holds what each store replies when it is asked for the
/// key of the token.
pub open spec fn resolved(
    names: Seq<Seq<char>>,
    token: Seq<char>,
    default: Option<Seq<char>>,
    replies: Seq<Result<Seq<char>, Fault>>,
) -> Result<Seq<char>, Fault> {
    match token_ref(token) {
        Ok((named, key)) => read_result(names, key, token_store(named, default), replies),
        Err(f) => Err(f),
    }
}

/// What the first `count` parts of a template come to, where `replies` holds for each part what
/// the stores reply when its token is read.
pub open spec fn filled(
    names: Seq<Seq<char>>,
    parts: Seq<PieceView>,
    default: Option<Seq<char>>,
    replies: Seq<Seq<Result<Seq<char>, Fault>>>,
    count: int,
) -> Result<Seq<char>, Fault>
    decreases count,
{
    if count <= 0 {
        Ok(seq![])
    } else {
        match filled(names, parts, default, replies, count - 1) {
            Err(f) => Err(f),
            Ok(s) => match parts[count - 1] {
                PieceView::Text(t) => Ok(s + t),
                PieceView::Token(token) => match resolved(
                    names,
                    token,
                    default,
                    replies[count - 1],
                ) {
                    Ok(value) => Ok(s + value),
                    Err(f) => Err(f),
                },
            },
        }
    }
}

/// What filling a template comes to.
pub open spec fn inject_result(
    names: Seq<Seq<char>>,
    content: Seq<char>,
    default: Option<Seq<char>>,
    replies: Seq<Seq<Result<Seq<char>, Fault>>>,
) -> Result<Seq<char>, Fault> {
    let parts = template(content, 0);
    filled(names, parts, default, replies, parts.len() as int)
}

impl<S: SecretStore> SecretRegistry<S> {
    /// Whether `replies` holds, for each token that is read, what the stores replied. A token is
    /// read if all before it could be replaced.
    pub open spec fn all_answered(
        &self,
        content: Seq<char>,
        default: Option<Seq<char>>,
        replies: Seq<Seq<Result<Seq<char>, Fault>>>,
    ) -> bool {
        &&& replies.len() == template(content, 0).len()
        &&& forall|p: int|
            0 <= p < replies.len() ==> self.token_answered(
                content,
                default,
                replies,
                p,
                #[trigger] replies[p],
            )
    }

    /// Whether the part at position `p`, if it is a token that is read, was answered so.
    pub open spec fn token_answered(
        &self,
        content: Seq<char>,
        default: Option<Seq<char>>,
        replies: Seq<Seq<Result<Seq<char>, Fault>>>,
        p: int,
        answer: Seq<Result<Seq<char>, Fault>>,
    ) -> bool {
        let parts = template(content, 0);
        (filled(self.names(), parts, default, replies, p) is Ok) ==> match parts[p] {
            PieceView::Text(_) => true,
            PieceView::Token(token) => match token_ref(token) {
                Ok((named, key)) => self.answered(key, token_store(named, default), answer),
                Err(_) => true,
            },
        }
    }

    /// Replaces every token of a template by the secret that it refers to. Tokens that name no
    /// store are read from `store`, or from all stores in turn.
    pub fn inject(&self, content: &str, store: Option<&str>) -> (r: Result<String, SecretError>)
        ensures
            exists|replies: Seq<Seq<Result<Seq<char>, Fault>>>| #[trigger]
                self.all_answered(content@, opt_text(store), replies) && text_outcome(r)
                    == inject_result(self.names(), content@, opt_text(store), replies),
    {
        let parts = parse_template(content);
        let ghost names = self.names();
        let ghost view = template(content@, 0);
        let ghost default = opt_text(store);
        let ghost mut replies: Seq<Seq<Result<Seq<char>, Fault>>> = seq![];
        let mut out = String::new();
        let mut i: usize = 0;
        while i < parts.len()
            invariant
                i <= parts.len(),
                names == self.names(),
                view == template(content@, 0),
                view == pieces(parts@),
                default == opt_text(store),
                replies.len() == i,
                forall|p: int|
                    0 <= p < i ==> self.token_answered(
                        content@,
                        default,
                        replies,
                        p,
                        #[trigger] replies[p],
                    ),
                filled(names, view, default, replies, i as int) == Ok::<Seq<char>, Fault>(out@),
            decreases parts.len() - i,
        {
            let ghost before = replies;
            match &parts[i] {
                Piece::Text(t) => {
                    proof {
                        replies = before.push(seq![]);
                        self.lemma_extend(content@, default, before, replies, i as int);
                        assert(view[i as int] == PieceView::Text(t@));
                    }
                    out.append(t.as_str());
                },
                Piece::Token(token) => {
                    assert(view[i as int] == PieceView::Token(token@));
                    let outcome = match parse_token(token.as_str()) {
                        Err(e) => {
                            proof {
                                replies = before.push(seq![]);
                                self.lemma_extend(content@, default, before, replies, i as int);
                            }
                            Err(e)
                        },
                        Ok((named, key)) => {
                            let from = match &named {
                                Some(name) => Some(name.as_str()),
                                None => store,
                            };
                            let r = self.get(key.as_str(), from);
                            proof {
                                assert(opt_text(from) == token_store(opt_string(named), default));
                                let answer = choose|answer: Seq<Result<Seq<char>, Fault>>| #[trigger]
                                    self.answered(key@, opt_text(from), answer) && text_outcome(r)
                                        == read_result(names, key@, opt_text(from), answer);
                                replies = before.push(answer);
                                self.lemma_extend(content@, default, before, replies, i as int);
                            }
                            r
                        },
                    };
                    match outcome {
                        Ok(value) => {
                            out.append(value.as_str());
                        },
                        Err(e) => {
                            proof {
                                let pad = Seq::new(
                                    (view.len() - i - 1) as nat,
                                    |k: int| Seq::<Result<Seq<char>, Fault>>::empty(),
                                );
                                let all = replies + pad;
                                self.lemma_failed(content@, default, replies, all, i as int, e@);
                            }
                            return Err(e);
                        },
                    }
                },
            }
            i += 1;
        }
        assert(self.all_answered(content@, default, replies));
        Ok(out)
    }

    proof fn lemma_extend(
        &self,
        content: Seq<char>,
        default: Option<Seq<char>>,
        before: Seq<Seq<Result<Seq<char>, Fault>>>,
        after: Seq<Seq<Result<Seq<char>, Fault>>>,
        at: int,
    )
        requires
            before.len() == at,
            before.is_prefix_of(after),
            forall|p: int|
                0 <= p < at ==> self.token_answered(
                    content,
                    default,
                    before,
                    p,
                    #[trigger] before[p],
                ),
        ensures
            forall|p: int|
                0 <= p < at ==> self.token_answered(content, default, after, p, #[trigger] after[p]),
            filled(self.names(), template(content, 0), default, after, at) == filled(
                self.names(),
                template(content, 0),
                default,
                before,
                at,
            ),
    {
        let parts = template(content, 0);
        assert forall|p: int| 0 <= p < at implies after[p] == before[p] by {
            assert(before[p] == after.subrange(0, at)[p]);
        }
        lemma_filled_same(self.names(), parts, default, before, after, at);
        assert forall|p: int| 0 <= p < at implies self.token_answered(
            content,
            default,
            after,
            p,
            #[trigger] after[p],
        ) by {
            assert(before[p] == after[p]);
            lemma_filled_same(self.names(), parts, default, before, after, p);
        }
    }

    proof fn lemma_failed(
        &self,
        content: Seq<char>,
        default: Option<Seq<char>>,
        replies: Seq<Seq<Result<Seq<char>, Fault>>>,
        all: Seq<Seq<Result<Seq<char>, Fault>>>,
        at: int,
        fault: Fault,
    )
        requires
            0 <= at < template(content, 0).len(),
            replies.len() == at + 1,
            replies.is_prefix_of(all),
            all.len() == template(content, 0).len(),
            forall|p: int|
                0 <= p <= at ==> self.token_answered(
                    content,
                    default,
                    replies,
                    p,
                    #[trigger] replies[p],
                ),
            filled(self.names(), template(content, 0), default, replies, at + 1) == Err::<
                Seq<char>,
                Fault,
            >(fault),
        ensures
            self.all_answered(content, default, all),
            inject_result(self.names(), content, default, all) == Err::<Seq<char>, Fault>(fault),
    {
        let parts = template(content, 0);
        self.lemma_extend(content, default, replies, all, at + 1);
        lemma_failure_stays(self.names(), parts, default, all, at + 1, parts.len() as int);
        assert forall|p: int| 0 <= p < all.len() implies self.token_answered(
            content,
            default,
            all,
            p,
            #[trigger] all[p],
        ) by {
            if p > at {
                lemma_failure_stays(self.names(), parts, default, all, at + 1, p);
            }
        }
    }
}

/// What the first parts come to depends on the replies to those parts alone.
proof fn lemma_filled_same(
    names: Seq<Seq<char>>,
    parts: Seq<PieceView>,
    default: Option<Seq<char>>,
    a: Seq<Seq<Result<Seq<char>, Fault>>>,
    b: Seq<Seq<Result<Seq<char>, Fault>>>,
    count: int,
)
    requires
        count <= a.len(),
        count <= b.len(),
        forall|p: int| 0 <= p < count ==> #[trigger] a[p] == b[p],
    ensures
        filled(names, parts, default, a, count) == filled(names, parts, default, b, count),
    decreases count,
{
    if count > 0 {
        lemma_filled_same(names, parts, default, a, b, count - 1);
        assert(a[count - 1] == b[count - 1]);
    }
}

/// Once filling has failed, it stays failed, for the same reason.
proof fn lemma_failure_stays(
    names: Seq<Seq<char>>,
    parts: Seq<PieceView>,
    default: Option<Seq<char>>,
    replies: Seq<Seq<Result<Seq<char>, Fault>>>,
    from: int,
    to: int,
)
    requires
        0 <= from <= to,
        filled(names, parts, default, replies, from) is Err,
    ensures
        filled(names, parts, default, replies, to) == filled(names, parts, default, replies, from),
    decreases to,
{
    if from < to {
        lemma_failure_stays(names, parts, default, replies, from, to - 1);
    }
}

/// A template that is being filled: its parts, the position of the token that is being read,
/// what the parts before it came to, and the store that is asked for its key.
pub struct InjectRun {
    parts: Vec<Piece>,
    at: usize,
    out: String,
    default: Option<String>,
    key: String,
    read: ReadAt,
}

/// What filling a template does next: ask a store for a key, or return.
pub enum InjectStep {
    Ask(InjectRun),
    Done(Result<String, SecretError>),
}

/// A template that is being filled, over texts.
pub struct InjectAt {
    pub parts: Seq<PieceView>,
    pub at: int,
    pub out: Seq<char>,
    pub default: Option<Seq<char>>,
    pub key: Seq<char>,
    pub store: int,
    pub cascade: bool,
}

/// What filling a template does next, over texts.
pub enum InjectView {
    Ask(InjectAt),
    Done(Result<Seq<char>, Fault>),
}

impl View for InjectRun {
    type V = InjectAt;

    closed spec fn view(&self) -> InjectAt {
        InjectAt {
            parts: pieces(self.parts@),
            at: self.at as int,
            out: self.out@,
            default: opt_string(self.default),
            key: self.key@,
            store: self.read.store as int,
            cascade: self.read.cascade,
        }
    }
}

impl View for InjectStep {
    type V = InjectView;

    open spec fn view(&self) -> InjectView {
        match self {
            InjectStep::Ask(run) => InjectView::Ask(run@),
            InjectStep::Done(r) => InjectView::Done(text_outcome(*r)),
        }
    }
}

/// How filling goes on at the part at position `at`: texts are copied up to the next token, and
/// the read of that token begins.
pub open spec fn inject_from(
    names: Seq<Seq<char>>,
    parts: Seq<PieceView>,
    default: Option<Seq<char>>,
    at: int,
    out: Seq<char>,
) -> InjectView
    decreases parts.len() - at,
{
    if at >= parts.len() {
        InjectView::Done(Ok(out))
    } else {
        match parts[at] {
            PieceView::Text(t) => inject_from(names, parts, default, at + 1, out + t),
            PieceView::Token(token) => match token_ref(token) {
                Err(f) => InjectView::Done(Err(f)),
                Ok((named, key)) => match read_start(names, key, token_store(named, default)) {
                    ReadView::Ask(store, cascade) => InjectView::Ask(
                        InjectAt { parts, at, out, default, key, store, cascade },
                    ),
                    ReadView::Done(r) => InjectView::Done(r),
                },
            },
        }
    }
}

/// How filling begins.
pub open spec fn inject_start(
    names: Seq<Seq<char>>,
    content: Seq<char>,
    default: Option<Seq<char>>,
) -> InjectView {
    inject_from(names, template(content, 0), default, 0, seq![])
}

/// How filling goes on once the store that is asked has replied.
pub open spec fn inject_next(
    names: Seq<Seq<char>>,
    run: InjectAt,
    reply: Result<Seq<char>, Fault>,
) -> InjectView {
    match read_next(names.len() as int, run.key, run.store, run.cascade, reply) {
        ReadView::Ask(store, cascade) => InjectView::Ask(InjectAt { store, cascade, ..run }),
        ReadView::Done(Ok(value)) => inject_from(
            names,
            run.parts,
            run.default,
            run.at + 1,
            run.out + value,
        ),
        ReadView::Done(Err(f)) => InjectView::Done(Err(f)),
    }
}

impl InjectRun {
    /// The token that is being read is one of the parts.
    pub closed spec fn wf(&self) -> bool {
        self.at < self.parts.len()
    }

    /// The position of the store to ask.
    pub fn store(&self) -> (r: usize)
        ensures
            r == self@.store,
    {
        self.read.store
    }

    /// The key to ask for.
    pub fn key(&self) -> (r: &str)
        ensures
            r@ == self@.key,
    {
        self.key.as_str()
    }
}

impl<S> SecretRegistry<S> {
    fn inject_parts(
        &self,
        parts: Vec<Piece>,
        default: Option<String>,
        from: usize,
        so_far: String,
    ) -> (r: InjectStep)
        requires
            from <= parts.len(),
        ensures
            r@ == inject_from(
                self.names(),
                pieces(parts@),
                opt_string(default),
                from as int,
                so_far@,
            ),
            r matches InjectStep::Ask(run) ==> run.wf() && run@.store < self.entries().len(),
    {
        let mut at: usize = from;
        let mut out = so_far;
        while at < parts.len()
            invariant
                at <= parts.len(),
                inject_from(
                    self.names(),
                    pieces(parts@),
                    opt_string(default),
                    from as int,
                    so_far@,
                ) == inject_from(
                    self.names(),
                    pieces(parts@),
                    opt_string(default),
                    at as int,
                    out@,
                ),
            decreases parts.len() - at,
        {
            let key = match &parts[at] {
                Piece::Text(t) => {
                    assert(pieces(parts@)[at as int] == PieceView::Text(t@));
                    out.append(t.as_str());
                    None
                },
                Piece::Token(token) => {
                    assert(pieces(parts@)[at as int] == PieceView::Token(token@));
                    match parse_token(token.as_str()) {
                        Err(e) => {
                            return InjectStep::Done(Err(e));
                        },
                        Ok(named_key) => Some(named_key),
                    }
                },
            };
            match key {
                None => {},
                Some((named, key)) => {
                    let store = match &named {
                        Some(name) => Some(name.as_str()),
                        None => match &default {
                            Some(name) => Some(name.as_str()),
                            None => None,
                        },
                    };
                    assert(opt_text(store) == token_store(opt_string(named), opt_string(default)));
                    return match self.start_read(key.as_str(), store) {
                        ReadStep::Ask(read) => InjectStep::Ask(
                            InjectRun { parts, at, out, default, key, read },
                        ),
                        ReadStep::Done(r) => InjectStep::Done(r),
                    };
                },
            }
            at += 1;
        }
        InjectStep::Done(Ok(out))
    }

    /// Begins to fill a template. Tokens that name no store are read from `store`, or from all
    /// stores in turn.
    pub fn start_inject(&self, content: &str, store: Option<&str>) -> (r: InjectStep)
        ensures
            r@ == inject_start(self.names(), content@, opt_text(store)),
            r matches InjectStep::Ask(run) ==> run.wf() && run@.store < self.entries().len(),
    {
        let default = match store {
            Some(name) => Some(name.to_owned()),
            None => None,
        };
        self.inject_parts(parse_template(content), default, 0, String::new())
    }

    /// Goes on with filling a template once the store that was asked has replied.
    pub fn resume_inject(&self, run: InjectRun, reply: Result<String, SecretError>) -> (r:
        InjectStep)
        requires
            run.wf(),
            run@.store < self.entries().len(),
        ensures
            r@ == inject_next(self.names(), run@, text_outcome(reply)),
            r matches InjectStep::Ask(next) ==> next.wf() && next@.store < self.entries().len(),
    {
        let InjectRun { parts, at, out, default, key, read } = run;
        match self.resume_read(key.as_str(), read, reply) {
            ReadStep::Ask(read) => InjectStep::Ask(
                InjectRun { parts, at, out, default, key, read },
            ),
            ReadStep::Done(Err(e)) => InjectStep::Done(Err(e)),
            ReadStep::Done(Ok(value)) => {
                let mut so_far = out;
                so_far.append(value.as_str());
                self.inject_parts(parts, default, at + 1, so_far)
            },
        }
    }
}

/// What comes of filling that is at `step` and goes on until it returns.
pub open spec fn inject_run(
    names: Seq<Seq<char>>,
    step: InjectView,
    replies: Seq<Seq<Result<Seq<char>, Fault>>>,
) -> Result<Seq<char>, Fault>
    decreases
            (match step {
                InjectView::Ask(run) => 1 + run.parts.len() - run.at,
                InjectView::Done(_) => 0,
            }),
            (match step {
                InjectView::Ask(run) => 1 + names.len() - run.store,
                InjectView::Done(_) => 0,
            }),
{
    match step {
        InjectView::Done(r) => r,
        InjectView::Ask(run) => if run.at >= run.parts.len() || run.store >= names.len() {
            Err(Fault::NoStores)
        } else {
            proof {
                if let ReadView::Done(Ok(value)) = read_next(
                    names.len() as int,
                    run.key,
                    run.store,
                    run.cascade,
                    replies[run.at][run.store],
                ) {
                    lemma_inject_from(
                        names,
                        run.parts,
                        run.default,
                        run.at + 1,
                        run.out + value,
                    );
                }
            }
            inject_run(names, inject_next(names, run, replies[run.at][run.store]), replies)
        },
    }
}

/// Filling never goes back, and the store that it asks is one of the stores.
pub proof fn lemma_inject_from(
    names: Seq<Seq<char>>,
    parts: Seq<PieceView>,
    default: Option<Seq<char>>,
    at: int,
    out: Seq<char>,
)
    ensures
        inject_from(names, parts, default, at, out) matches InjectView::Ask(run) ==> {
            &&& run.parts == parts
            &&& run.default == default
            &&& at <= run.at < parts.len()
            &&& 0 <= run.store < names.len()
            &&& parts[run.at] matches PieceView::Token(token) && token_ref(token) matches Ok(
                (named, key),
            ) && run.key == key && read_start(names, key, token_store(named, default))
                == ReadView::Ask(run.store, run.cascade)
        },
    decreases parts.len() - at,
{
    if at < parts.len() {
        match parts[at] {
            PieceView::Text(t) => {
                lemma_inject_from(names, parts, default, at + 1, out + t);
            },
            PieceView::Token(token) => {
                if let Ok((named, key)) = token_ref(token) {
                    if let Some(name) = token_store(named, default) {
                        lemma_position_of(names, name, 0);
                    }
                }
            },
        }
    }
}

/// Asking the stores for the keys that the steps name, one after another, comes to
/// `inject_result`.
pub proof fn law_inject_steps(
    names: Seq<Seq<char>>,
    content: Seq<char>,
    default: Option<Seq<char>>,
    replies: Seq<Seq<Result<Seq<char>, Fault>>>,
)
    requires
        replies.len() == template(content, 0).len(),
        forall|p: int| 0 <= p < replies.len() ==> (#[trigger] replies[p]).len() == names.len(),
    ensures
        inject_run(names, inject_start(names, content, default), replies) == inject_result(
            names,
            content,
            default,
            replies,
        ),
{
    lemma_run_from(names, template(content, 0), default, 0, seq![], replies);
}

proof fn lemma_run_from(
    names: Seq<Seq<char>>,
    parts: Seq<PieceView>,
    default: Option<Seq<char>>,
    at: int,
    out: Seq<char>,
    replies: Seq<Seq<Result<Seq<char>, Fault>>>,
)
    requires
        0 <= at <= parts.len(),
        replies.len() == parts.len(),
        forall|p: int| 0 <= p < replies.len() ==> (#[trigger] replies[p]).len() == names.len(),
        filled(names, parts, default, replies, at) == Ok::<Seq<char>, Fault>(out),
    ensures
        inject_run(names, inject_from(names, parts, default, at, out), replies) == filled(
            names,
            parts,
            default,
            replies,
            parts.len() as int,
        ),
    decreases parts.len() - at, names.len() + 1,
{
    if at < parts.len() {
        match parts[at] {
            PieceView::Text(t) => {
                lemma_run_from(names, parts, default, at + 1, out + t, replies);
            },
            PieceView::Token(token) => {
                match token_ref(token) {
                    Err(f) => {
                        lemma_failure_stays(
                            names,
                            parts,
                            default,
                            replies,
                            at + 1,
                            parts.len() as int,
                        );
                    },
                    Ok((named, key)) => {
                        let store = token_store(named, default);
                        law_read_steps(names, key, store, replies[at]);
                        lemma_inject_from(names, parts, default, at, out);
                        match read_start(names, key, store) {
                            ReadView::Done(r) => {
                                assert(r is Err);
                                assert(read_result(names, key, store, replies[at]) == r);
                                lemma_failure_stays(
                                    names,
                                    parts,
                                    default,
                                    replies,
                                    at + 1,
                                    parts.len() as int,
                                );
                            },
                            ReadView::Ask(i, cascade) => {
                                lemma_run_ask(
                                    names,
                                    InjectAt {
                                        parts,
                                        at,
                                        out,
                                        default,
                                        key,
                                        store: i,
                                        cascade,
                                    },
                                    replies,
                                );
                            },
                        }
                    },
                }
            },
        }
    }
}

proof fn lemma_run_ask(
    names: Seq<Seq<char>>,
    run: InjectAt,
    replies: Seq<Seq<Result<Seq<char>, Fault>>>,
)
    requires
        0 <= run.at < run.parts.len(),
        0 <= run.store < names.len(),
        replies.len() == run.parts.len(),
        forall|p: int| 0 <= p < replies.len() ==> (#[trigger] replies[p]).len() == names.len(),
        filled(names, run.parts, run.default, replies, run.at) == Ok::<Seq<char>, Fault>(run.out),
        run.parts[run.at] matches PieceView::Token(token) && read_run(
            names.len() as int,
            run.key,
            ReadView::Ask(run.store, run.cascade),
            replies[run.at],
        ) == resolved(names, token, run.default, replies[run.at]),
    ensures
        inject_run(names, InjectView::Ask(run), replies) == filled(
            names,
            run.parts,
            run.default,
            replies,
            run.parts.len() as int,
        ),
    decreases run.parts.len() - run.at, names.len() - run.store,
{
    reveal_with_fuel(read_run, 2);
    reveal_with_fuel(inject_run, 2);
    let count = names.len() as int;
    let next = read_next(
        count,
        run.key,
        run.store,
        run.cascade,
        replies[run.at][run.store],
    );
    match next {
        ReadView::Ask(store, cascade) => {
            lemma_run_ask(names, InjectAt { store, cascade, ..run }, replies);
        },
        ReadView::Done(Ok(value)) => {
            lemma_run_from(
                names,
                run.parts,
                run.default,
                run.at + 1,
                run.out + value,
                replies,
            );
        },
        ReadView::Done(Err(f)) => {
            lemma_failure_stays(
                names,
                run.parts,
                run.default,
                replies,
                run.at + 1,
                run.parts.len() as int,
            );
        },
    }
}

/// Text that opens no token comes out as it is, whatever the stores hold.
pub proof fn law_inject_plain(
    names: Seq<Seq<char>>,
    content: Seq<char>,
    default: Option<Seq<char>>,
    replies: Seq<Seq<Result<Seq<char>, Fault>>>,
)
    requires
        first_match(content, "{{secret"@, 0) is None,
    ensures
        inject_result(names, content, default, replies) == Ok::<Seq<char>, Fault>(content),
{
    law_plain_text(content);
    reveal_with_fuel(filled, 2);
    assert(Seq::<char>::empty() + content =~= content);
}

/// Text in which a token is opened and never closed comes out as it is.
pub proof fn law_inject_unclosed(
    names: Seq<Seq<char>>,
    content: Seq<char>,
    default: Option<Seq<char>>,
    replies: Seq<Seq<Result<Seq<char>, Fault>>>,
)
    requires
        first_match(content, "{{secret"@, 0) matches Some(i) && first_match(content, "}}"@, i + 2)
            is None,
    ensures
        inject_result(names, content, default, replies) == Ok::<Seq<char>, Fault>(content),
{
    law_plain_text(content);
    reveal_with_fuel(filled, 2);
    assert(Seq::<char>::empty() + content =~= content);
}

/// Filling succeeds exactly when every token can be replaced.
pub proof fn law_inject_all_or_nothing(
    names: Seq<Seq<char>>,
    content: Seq<char>,
    default: Option<Seq<char>>,
    replies: Seq<Seq<Result<Seq<char>, Fault>>>,
)
    ensures
        inject_result(names, content, default, replies) is Ok <==> forall|p: int|
            0 <= p < template(content, 0).len() ==> match #[trigger] template(content, 0)[p] {
                PieceView::Text(_) => true,
                PieceView::Token(token) => resolved(names, token, default, replies[p]) is Ok,
            },
{
    lemma_filled_ok(
        names,
        template(content, 0),
        default,
        replies,
        template(content, 0).len() as int,
    );
}

proof fn lemma_filled_ok(
    names: Seq<Seq<char>>,
    parts: Seq<PieceView>,
    default: Option<Seq<char>>,
    replies: Seq<Seq<Result<Seq<char>, Fault>>>,
    count: int,
)
    requires
        0 <= count <= parts.len(),
    ensures
        filled(names, parts, default, replies, count) is Ok <==> forall|p: int|
            0 <= p < count ==> match #[trigger] parts[p] {
                PieceView::Text(_) => true,
                PieceView::Token(token) => resolved(names, token, default, replies[p]) is Ok,
            },
    decreases count,
{
    if count > 0 {
        lemma_filled_ok(names, parts, default, replies, count - 1);
        assert(parts[count - 1] == parts[count - 1]);
    }
}

/// The first token that cannot be replaced decides the failure.
pub proof fn law_inject_first_failure(
    names: Seq<Seq<char>>,
    content: Seq<char>,
    default: Option<Seq<char>>,
    replies: Seq<Seq<Result<Seq<char>, Fault>>>,
    at: int,
    token: Seq<char>,
    fault: Fault,
)
    requires
        0 <= at < template(content, 0).len(),
        template(content, 0)[at] == PieceView::Token(token),
        resolved(names, token, default, replies[at]) == Err::<Seq<char>, Fault>(fault),
        forall|p: int|
            0 <= p < at ==> match #[trigger] template(content, 0)[p] {
                PieceView::Text(_) => true,
                PieceView::Token(t) => resolved(names, t, default, replies[p]) is Ok,
            },
    ensures
        inject_result(names, content, default, replies) == Err::<Seq<char>, Fault>(fault),
{
    let parts = template(content, 0);
    lemma_filled_ok(names, parts, default, replies, at);
    lemma_failure_stays(names, parts, default, replies, at + 1, parts.len() as int);
}

/// A token is replaced where it stands, and what follows it is filled as if it stood alone: the
/// value is copied and not looked at again.
pub proof fn law_inject_token(
    names: Seq<Seq<char>>,
    head: Seq<char>,
    inside: Seq<char>,
    rest: Seq<char>,
    default: Option<Seq<char>>,
    answer: Seq<Result<Seq<char>, Fault>>,
    replies: Seq<Seq<Result<Seq<char>, Fault>>>,
)
    requires
        first_match(head, "{{secret"@, 0) is None,
        closes_behind(inside),
        replies.len() == template(rest, 0).len(),
    ensures
        inject_result(
            names,
            head + "{{secret"@ + inside + "}}"@ + rest,
            default,
            seq![Seq::empty(), answer] + replies,
        ) == match resolved(names, "secret"@ + inside, default, answer) {
            Err(f) => Err(f),
            Ok(value) => match inject_result(names, rest, default, replies) {
                Err(f) => Err(f),
                Ok(tail) => Ok(head + value + tail),
            },
        },
{
    let all = seq![Seq::empty(), answer] + replies;
    lemma_inject_token(names, head, inside, rest, default, all);
    assert(all[1] == answer);
    assert(all.skip(2) =~= replies);
}

proof fn lemma_inject_token(
    names: Seq<Seq<char>>,
    head: Seq<char>,
    inside: Seq<char>,
    rest: Seq<char>,
    default: Option<Seq<char>>,
    all: Seq<Seq<Result<Seq<char>, Fault>>>,
)
    requires
        first_match(head, "{{secret"@, 0) is None,
        closes_behind(inside),
        all.len() == template(rest, 0).len() + 2,
    ensures
        inject_result(names, head + "{{secret"@ + inside + "}}"@ + rest, default, all) == match resolved(
            names,
            "secret"@ + inside,
            default,
            all[1],
        ) {
            Err(f) => Err(f),
            Ok(value) => match inject_result(names, rest, default, all.skip(2)) {
                Err(f) => Err(f),
                Ok(tail) => Ok(head + value + tail),
            },
        },
{
    law_token_found(head, inside, rest);
    let step = seq![PieceView::Text(head), PieceView::Token("secret"@ + inside)];
    let tail = template(rest, 0);
    let parts = step + tail;
    let replies = all.skip(2);
    assert(parts[0] == step[0] && parts[1] == step[1]);
    reveal_with_fuel(filled, 3);
    assert(Seq::<char>::empty() + head =~= head);
    match resolved(names, "secret"@ + inside, default, all[1]) {
        Err(f) => {
            assert(filled(names, parts, default, all, 2) == Err::<Seq<char>, Fault>(f));
            lemma_failure_stays(names, parts, default, all, 2, parts.len() as int);
        },
        Ok(value) => {
            assert(filled(names, parts, default, all, 2) == Ok::<Seq<char>, Fault>(head + value));
            lemma_filled_tail(
                names,
                parts,
                tail,
                default,
                all,
                replies,
                head + value,
                tail.len() as int,
            );
        },
    }
}

proof fn lemma_filled_tail(
    names: Seq<Seq<char>>,
    parts: Seq<PieceView>,
    tail: Seq<PieceView>,
    default: Option<Seq<char>>,
    all: Seq<Seq<Result<Seq<char>, Fault>>>,
    replies: Seq<Seq<Result<Seq<char>, Fault>>>,
    so_far: Seq<char>,
    count: int,
)
    requires
        0 <= count <= tail.len(),
        replies.len() == tail.len(),
        parts.len() == tail.len() + 2,
        all.len() == tail.len() + 2,
        forall|p: int| 0 <= p < tail.len() ==> #[trigger] tail[p] == parts[p + 2],
        forall|p: int| 0 <= p < tail.len() ==> #[trigger] replies[p] == all[p + 2],
        filled(names, parts, default, all, 2) == Ok::<Seq<char>, Fault>(so_far),
    ensures
        filled(names, parts, default, all, count + 2) == (match filled(
            names,
            tail,
            default,
            replies,
            count,
        ) {
            Err(f) => Err(f),
            Ok(t) => Ok(so_far + t),
        }),
    decreases count,
{
    if count > 0 {
        lemma_filled_tail(names, parts, tail, default, all, replies, so_far, count - 1);
        assert(tail[count - 1] == parts[count + 1]);
        assert(replies[count - 1] == all[count + 1]);
        if let Ok(t) = filled(names, tail, default, replies, count - 1) {
            match tail[count - 1] {
                PieceView::Text(x) => {
                    assert((so_far + t) + x =~= so_far + (t + x));
                },
                PieceView::Token(token) => {
                    if let Ok(x) = resolved(names, token, default, replies[count - 1]) {
                        assert((so_far + t) + x =~= so_far + (t + x));
                    }
                },
            }
        }
    } else {
        assert(so_far + Seq::<char>::empty() =~= so_far);
    }
}

/// What a token is replaced by, between what stands before it and what comes of the rest.
pub open spec fn around(
    head: Seq<char>,
    value: Result<Seq<char>, Fault>,
    tail: Result<Seq<char>, Fault>,
) -> Result<Seq<char>, Fault> {
    match (value, tail) {
        (Err(f), _) => Err(f),
        (Ok(_), Err(f)) => Err(f),
        (Ok(v), Ok(t)) => Ok(head + v + t),
    }
}

/// A token that names a store is replaced by what the first store of that name replies, whatever
/// the name, the key and the default are, and makes the whole fail if no store has the name.
pub proof fn law_inject_named_token(
    names: Seq<Seq<char>>,
    head: Seq<char>,
    name: Seq<char>,
    key: Seq<char>,
    rest: Seq<char>,
    default: Option<Seq<char>>,
    replies: Seq<Seq<Result<Seq<char>, Fault>>>,
    at: int,
)
    requires
        forall|k: int|
            0 <= k <= head.len() - 8 ==> #[trigger] head.subrange(k, k + 8) != "{{secret"@,
        !name.contains(':'),
        forall|k: int|
            0 <= k < name.len() + key.len() + 2 ==> #[trigger] ("@"@ + name + ":"@ + key
                + "}}"@).subrange(k, k + 2) != "}}"@,
        replies.len() == template(rest, 0).len() + 2,
    ensures
        ({
            let content = head + "{{secret@"@ + name + ":"@ + key + "}}"@ + rest;
            let tail = inject_result(names, rest, default, replies.skip(2));
            &&& 0 <= at < names.len() && names[at] == name && (forall|j: int|
                0 <= j < at ==> #[trigger] names[j] != name) ==> inject_result(
                names,
                content,
                default,
                replies,
            ) == around(head, replies[1][at], tail)
            &&& (forall|j: int| 0 <= j < names.len() ==> #[trigger] names[j] != name)
                ==> inject_result(names, content, default, replies) == Err::<Seq<char>, Fault>(
                Fault::UnknownStore(name),
            )
        }),
{
    let inside = "@"@ + name + ":"@ + key;
    reveal_strlit("@");
    reveal_strlit(":");
    lemma_token_text(head, inside);
    lemma_named_token(head, name, key, rest);
    lemma_inject_token(names, head, inside, rest, default, replies);
    law_token_store(name, key);
    law_read_by_position(names, key, name, replies[1], at);
}

/// A token that names no store is replaced by what the default store replies, or by the first
/// value that any store replies if there is no default.
pub proof fn law_inject_open_token(
    names: Seq<Seq<char>>,
    head: Seq<char>,
    name: Seq<char>,
    key: Seq<char>,
    rest: Seq<char>,
    replies: Seq<Seq<Result<Seq<char>, Fault>>>,
    at: int,
)
    requires
        forall|k: int|
            0 <= k <= head.len() - 8 ==> #[trigger] head.subrange(k, k + 8) != "{{secret"@,
        forall|k: int|
            0 <= k < key.len() + 1 ==> #[trigger] (":"@ + key + "}}"@).subrange(k, k + 2) != "}}"@,
        replies.len() == template(rest, 0).len() + 2,
    ensures
        ({
            let content = head + "{{secret:"@ + key + "}}"@ + rest;
            let tail = inject_result(names, rest, Some(name), replies.skip(2));
            &&& 0 <= at < names.len() && names[at] == name && (forall|j: int|
                0 <= j < at ==> #[trigger] names[j] != name) ==> inject_result(
                names,
                content,
                Some(name),
                replies,
            ) == around(head, replies[1][at], tail)
            &&& (forall|j: int| 0 <= j < names.len() ==> #[trigger] names[j] != name)
                ==> inject_result(names, content, Some(name), replies) == Err::<Seq<char>, Fault>(
                Fault::UnknownStore(name),
            )
        }),
        ({
            let content = head + "{{secret:"@ + key + "}}"@ + rest;
            let tail = inject_result(names, rest, None, replies.skip(2));
            &&& 0 <= at < replies[1].len() && replies[1][at] is Ok && (forall|j: int|
                0 <= j < at ==> (#[trigger] replies[1][j]) is Err) ==> inject_result(
                names,
                content,
                None,
                replies,
            ) == around(head, replies[1][at], tail)
            &&& (forall|j: int| 0 <= j < replies[1].len() ==> (#[trigger] replies[1][j]) is Err)
                ==> inject_result(names, content, None, replies) == Err::<Seq<char>, Fault>(
                Fault::NotFound(key),
            )
        }),
{
    let inside = ":"@ + key;
    reveal_strlit(":");
    lemma_token_text(head, inside);
    lemma_open_token(head, key, rest);
    lemma_inject_token(names, head, inside, rest, Some(name), replies);
    lemma_inject_token(names, head, inside, rest, None, replies);
    law_token_key(key);
    law_read_by_position(names, key, name, replies[1], at);
}

/// A token that is closed behind its inside, after text that opens none.
proof fn lemma_token_text(head: Seq<char>, inside: Seq<char>)
    requires
        forall|k: int|
            0 <= k <= head.len() - 8 ==> #[trigger] head.subrange(k, k + 8) != "{{secret"@,
        forall|k: int|
            0 <= k < inside.len() ==> #[trigger] (inside + "}}"@).subrange(k, k + 2) != "}}"@,
    ensures
        first_match(head, "{{secret"@, 0) is None,
        closes_behind(inside),
{
    reveal_strlit("{{secret");
    reveal_strlit("}}");
    law_first_match(head, "{{secret"@, 0);
    let closed = inside + "}}"@;
    law_first_match(closed, "}}"@, 0);
    let j = inside.len() as int;
    assert(closed.subrange(j, j + 2) =~= "}}"@);
}

proof fn lemma_named_token(head: Seq<char>, name: Seq<char>, key: Seq<char>, rest: Seq<char>)
    ensures
        ({
            let inside = "@"@ + name + ":"@ + key;
            &&& head + "{{secret@"@ + name + ":"@ + key + "}}"@ + rest == head + "{{secret"@ + inside
                + "}}"@ + rest
            &&& "secret"@ + inside == "secret@"@ + name + ":"@ + key
        }),
{
    reveal_strlit("@");
    reveal_strlit(":");
    reveal_strlit("{{secret@");
    reveal_strlit("{{secret");
    reveal_strlit("secret@");
    reveal_strlit("secret");
    let inside = "@"@ + name + ":"@ + key;
    assert("{{secret@"@ =~= "{{secret"@ + "@"@);
    assert("secret@"@ =~= "secret"@ + "@"@);
    assert(head + "{{secret@"@ + name + ":"@ + key + "}}"@ + rest =~= head + "{{secret"@ + inside
        + "}}"@ + rest);
    assert("secret"@ + inside =~= "secret@"@ + name + ":"@ + key);
}

proof fn lemma_open_token(head: Seq<char>, key: Seq<char>, rest: Seq<char>)
    ensures
        ({
            let inside = ":"@ + key;
            &&& head + "{{secret:"@ + key + "}}"@ + rest == head + "{{secret"@ + inside + "}}"@
                + rest
            &&& "secret"@ + inside == "secret:"@ + key
        }),
{
    reveal_strlit(":");
    reveal_strlit("{{secret:");
    reveal_strlit("{{secret");
    reveal_strlit("secret:");
    reveal_strlit("secret");
    let inside = ":"@ + key;
    assert("{{secret:"@ =~= "{{secret"@ + ":"@);
    assert("secret:"@ =~= "secret"@ + ":"@);
    assert(head + "{{secret:"@ + key + "}}"@ + rest =~= head + "{{secret"@ + inside + "}}"@ + rest);
    assert("secret"@ + inside =~= "secret:"@ + key);
}

/// Filling from stores that hold these secrets: a token that names a store is replaced by the
/// secret of the first store of that name, and the whole fails if that store does not have the
/// key or no store has the name.
pub proof fn law_inject_secret_of_store<S: SecretStore>(
    registry: SecretRegistry<S>,
    contents: Seq<Map<Seq<char>, Seq<char>>>,
    head: Seq<char>,
    name: Seq<char>,
    key: Seq<char>,
    rest: Seq<char>,
    default: Option<Seq<char>>,
    replies: Seq<Seq<Result<Seq<char>, Fault>>>,
    at: int,
)
    requires
        contents.len() == registry.entries().len(),
        forall|i: int|
            0 <= i < contents.len() ==> holds(registry.entries()[i].1, #[trigger] contents[i]),
        forall|k: int|
            0 <= k <= head.len() - 8 ==> #[trigger] head.subrange(k, k + 8) != "{{secret"@,
        !name.contains(':'),
        forall|k: int|
            0 <= k < name.len() + key.len() + 2 ==> #[trigger] ("@"@ + name + ":"@ + key
                + "}}"@).subrange(k, k + 2) != "}}"@,
        registry.all_answered(
            head + "{{secret@"@ + name + ":"@ + key + "}}"@ + rest,
            default,
            replies,
        ),
        0 <= at < contents.len(),
        registry.entries()[at].0@ == name,
        forall|j: int| 0 <= j < at ==> (#[trigger] registry.entries()[j]).0@ != name,
    ensures
        ({
            let filled_in = inject_result(
                registry.names(),
                head + "{{secret@"@ + name + ":"@ + key + "}}"@ + rest,
                default,
                replies,
            );
            let tail = inject_result(registry.names(), rest, default, replies.skip(2));
            if contents[at].contains_key(key) {
                filled_in == around(head, Ok(contents[at][key]), tail)
            } else {
                filled_in is Err
            }
        }),
        registry.all_answered(rest, default, replies.skip(2)) || inject_result(
            registry.names(),
            head + "{{secret@"@ + name + ":"@ + key + "}}"@ + rest,
            default,
            replies,
        ) is Err,
{
    let names = registry.names();
    let content = head + "{{secret@"@ + name + ":"@ + key + "}}"@ + rest;
    let inside = "@"@ + name + ":"@ + key;
    reveal_strlit("@");
    reveal_strlit(":");
    lemma_token_text(head, inside);
    lemma_named_token(head, name, key, rest);
    law_token_store(name, key);
    lemma_token_parts(registry, head, inside, rest, default, replies);
    assert(registry.answered(key, Some(name), replies[1]));
    law_read_of_secrets(registry, contents, key, name, replies[1], at);
    lemma_inject_token(names, head, inside, rest, default, replies);
}

/// Filling from stores that hold these secrets: a token that names no store is replaced by the
/// secret of the first store that has the key, or of the default store if there is one.
pub proof fn law_inject_secret<S: SecretStore>(
    registry: SecretRegistry<S>,
    contents: Seq<Map<Seq<char>, Seq<char>>>,
    head: Seq<char>,
    key: Seq<char>,
    rest: Seq<char>,
    default: Option<Seq<char>>,
    replies: Seq<Seq<Result<Seq<char>, Fault>>>,
    at: int,
)
    requires
        contents.len() == registry.entries().len(),
        forall|i: int|
            0 <= i < contents.len() ==> holds(registry.entries()[i].1, #[trigger] contents[i]),
        forall|k: int|
            0 <= k <= head.len() - 8 ==> #[trigger] head.subrange(k, k + 8) != "{{secret"@,
        forall|k: int|
            0 <= k < key.len() + 1 ==> #[trigger] (":"@ + key + "}}"@).subrange(k, k + 2) != "}}"@,
        registry.all_answered(head + "{{secret:"@ + key + "}}"@ + rest, default, replies),
        0 <= at < contents.len(),
        contents[at].contains_key(key),
        match default {
            None => forall|j: int| 0 <= j < at ==> !(#[trigger] contents[j]).contains_key(key),
            Some(name) => registry.entries()[at].0@ == name && forall|j: int|
                0 <= j < at ==> (#[trigger] registry.entries()[j]).0@ != name,
        },
    ensures
        inject_result(
            registry.names(),
            head + "{{secret:"@ + key + "}}"@ + rest,
            default,
            replies,
        ) == around(
            head,
            Ok(contents[at][key]),
            inject_result(registry.names(), rest, default, replies.skip(2)),
        ),
        registry.all_answered(rest, default, replies.skip(2)),
{
    let names = registry.names();
    let inside = ":"@ + key;
    reveal_strlit(":");
    lemma_token_text(head, inside);
    lemma_open_token(head, key, rest);
    law_token_key(key);
    lemma_token_parts(registry, head, inside, rest, default, replies);
    assert(registry.answered(key, default, replies[1]));
    let name = match default {
        Some(name) => name,
        None => key,
    };
    law_read_of_secrets(registry, contents, key, name, replies[1], at);
    lemma_inject_token(names, head, inside, rest, default, replies);
}

/// What was answered for a text with a token in it, part by part.
proof fn lemma_token_parts<S: SecretStore>(
    registry: SecretRegistry<S>,
    head: Seq<char>,
    inside: Seq<char>,
    rest: Seq<char>,
    default: Option<Seq<char>>,
    replies: Seq<Seq<Result<Seq<char>, Fault>>>,
)
    requires
        first_match(head, "{{secret"@, 0) is None,
        closes_behind(inside),
        registry.all_answered(head + "{{secret"@ + inside + "}}"@ + rest, default, replies),
    ensures
        replies.len() == template(rest, 0).len() + 2,
        token_ref("secret"@ + inside) matches Ok((named, key)) ==> registry.answered(
            key,
            token_store(named, default),
            replies[1],
        ),
        resolved(registry.names(), "secret"@ + inside, default, replies[1]) is Ok
            ==> registry.all_answered(rest, default, replies.skip(2)),
{
    let names = registry.names();
    let content = head + "{{secret"@ + inside + "}}"@ + rest;
    law_token_found(head, inside, rest);
    let step = seq![PieceView::Text(head), PieceView::Token("secret"@ + inside)];
    let tail = template(rest, 0);
    let parts = step + tail;
    assert(parts[0] == step[0] && parts[1] == step[1]);
    reveal_with_fuel(filled, 3);
    assert(filled(names, parts, default, replies, 1) is Ok);
    assert(registry.token_answered(content, default, replies, 1, replies[1]));
    let later = replies.skip(2);
    if resolved(names, "secret"@ + inside, default, replies[1]) is Ok {
        let so_far = filled(names, parts, default, replies, 2)->Ok_0;
        assert forall|p: int| 0 <= p < later.len() implies registry.token_answered(
            rest,
            default,
            later,
            p,
            #[trigger] later[p],
        ) by {
            lemma_filled_tail(names, parts, tail, default, replies, later, so_far, p);
            assert(registry.token_answered(content, default, replies, p + 2, replies[p + 2]));
            assert(parts[p + 2] == tail[p]);
        }
    }
}

/// How filling goes on at a text and at a token: a text is copied, and a token begins the read of
/// its key in the store that it names, or else in the default store or in all.
pub proof fn law_inject_goes_on(
    names: Seq<Seq<char>>,
    parts: Seq<PieceView>,
    default: Option<Seq<char>>,
    at: int,
    out: Seq<char>,
    name: Seq<char>,
    key: Seq<char>,
)
    requires
        0 <= at < parts.len(),
    ensures
        parts[at] matches PieceView::Text(t) ==> inject_from(names, parts, default, at, out)
            == inject_from(names, parts, default, at + 1, out + t),
        inject_from(names, parts, default, parts.len() as int, out) == InjectView::Done(Ok(out)),
        parts[at] == PieceView::Token("secret:"@ + key) ==> inject_from(
            names,
            parts,
            default,
            at,
            out,
        ) == begun(read_start(names, key, default), parts, default, at, out, key),
        !name.contains(':') && parts[at] == PieceView::Token("secret@"@ + name + ":"@ + key)
            ==> inject_from(names, parts, default, at, out) == begun(
            read_start(names, key, Some(name)),
            parts,
            default,
            at,
            out,
            key,
        ),
{
    law_token_key(key);
    if !name.contains(':') {
        law_token_store(name, key);
    }
}

/// The step with which the read of a token begins.
pub open spec fn begun(
    read: ReadView,
    parts: Seq<PieceView>,
    default: Option<Seq<char>>,
    at: int,
    out: Seq<char>,
    key: Seq<char>,
) -> InjectView {
    match read {
        ReadView::Ask(store, cascade) => InjectView::Ask(
            InjectAt { parts, at, out, default, key, store, cascade },
        ),
        ReadView::Done(r) => InjectView::Done(r),
    }
}

/// How filling goes on once a store has replied: a store without the key leads to the one behind
/// it, a value is put behind what there is and the next part comes, and a read that fails makes
/// the whole fail.
pub proof fn law_inject_takes_reply(
    names: Seq<Seq<char>>,
    run: InjectAt,
    value: Seq<char>,
    f: Fault,
)
    requires
        0 <= run.store < names.len(),
    ensures
        inject_next(names, run, Ok(value)) == inject_from(
            names,
            run.parts,
            run.default,
            run.at + 1,
            run.out + value,
        ),
        !run.cascade ==> inject_next(names, run, Err(f)) == InjectView::Done(Err(f)),
        run.cascade && run.store + 1 < names.len() ==> inject_next(names, run, Err(f))
            == InjectView::Ask(InjectAt { store: run.store + 1, ..run }),
        run.cascade && run.store + 1 == names.len() ==> inject_next(names, run, Err(f))
            == InjectView::Done(Err(Fault::NotFound(run.key))),
{
}

/// Filling begins at the first part of the template, with nothing copied yet.
pub proof fn law_inject_begins(
    names: Seq<Seq<char>>,
    content: Seq<char>,
    default: Option<Seq<char>>,
)
    ensures
        inject_start(names, content, default) == inject_from(
            names,
            template(content, 0),
            default,
            0,
            seq![],
        ),
{
}

/// What counts for a token is what the stores replied when they were asked for exactly its key: the
/// store that it names, or else the default store or all.
pub proof fn law_token_is_read<S: SecretStore>(
    registry: SecretRegistry<S>,
    head: Seq<char>,
    name: Seq<char>,
    key: Seq<char>,
    rest: Seq<char>,
    default: Option<Seq<char>>,
    replies: Seq<Seq<Result<Seq<char>, Fault>>>,
)
    requires
        forall|k: int|
            0 <= k <= head.len() - 8 ==> #[trigger] head.subrange(k, k + 8) != "{{secret"@,
    ensures
        !name.contains(':') && (forall|k: int|
            0 <= k < name.len() + key.len() + 2 ==> #[trigger] ("@"@ + name + ":"@ + key
                + "}}"@).subrange(k, k + 2) != "}}"@) && registry.all_answered(
            head + "{{secret@"@ + name + ":"@ + key + "}}"@ + rest,
            default,
            replies,
        ) ==> registry.answered(key, Some(name), replies[1]),
        (forall|k: int|
            0 <= k < key.len() + 1 ==> #[trigger] (":"@ + key + "}}"@).subrange(k, k + 2) != "}}"@)
            && registry.all_answered(
            head + "{{secret:"@ + key + "}}"@ + rest,
            default,
            replies,
        ) ==> registry.answered(key, default, replies[1]),
{
    reveal_strlit("@");
    reveal_strlit(":");
    if !name.contains(':') && (forall|k: int|
        0 <= k < name.len() + key.len() + 2 ==> #[trigger] ("@"@ + name + ":"@ + key
            + "}}"@).subrange(k, k + 2) != "}}"@) && registry.all_answered(
        head + "{{secret@"@ + name + ":"@ + key + "}}"@ + rest,
        default,
        replies,
    ) {
        let inside = "@"@ + name + ":"@ + key;
        lemma_token_text(head, inside);
        lemma_named_token(head, name, key, rest);
        law_token_store(name, key);
        lemma_token_parts(registry, head, inside, rest, default, replies);
    }
    if (forall|k: int|
        0 <= k < key.len() + 1 ==> #[trigger] (":"@ + key + "}}"@).subrange(k, k + 2) != "}}"@)
        && registry.all_answered(head + "{{secret:"@ + key + "}}"@ + rest, default, replies) {
        let inside = ":"@ + key;
        lemma_token_text(head, inside);
        lemma_open_token(head, key, rest);
        law_token_key(key);
        lemma_token_parts(registry, head, inside, rest, default, replies);
    }
}

/// A token of neither form makes the whole fail, whatever the stores hold.
pub proof fn law_inject_bad_token(
    names: Seq<Seq<char>>,
    head: Seq<char>,
    inside: Seq<char>,
    rest: Seq<char>,
    default: Option<Seq<char>>,
    replies: Seq<Seq<Result<Seq<char>, Fault>>>,
)
    requires
        forall|k: int|
            0 <= k <= head.len() - 8 ==> #[trigger] head.subrange(k, k + 8) != "{{secret"@,
        forall|k: int|
            0 <= k < inside.len() ==> #[trigger] (inside + "}}"@).subrange(k, k + 2) != "}}"@,
        token_ref("secret"@ + inside) is Err,
        replies.len() == template(rest, 0).len() + 2,
    ensures
        inject_result(names, head + "{{secret"@ + inside + "}}"@ + rest, default, replies) == Err::<
            Seq<char>,
            Fault,
        >(token_ref("secret"@ + inside)->Err_0),
{
    lemma_token_text(head, inside);
    lemma_inject_token(names, head, inside, rest, default, replies);
}

/// A step of filling gives what is returned, whole.
pub proof fn law_inject_step(value: String, e: SecretError)
    ensures
        InjectStep::Done(Ok(value))@ == InjectView::Done(Ok(value@)),
        InjectStep::Done(Err(e))@ == InjectView::Done(Err(e@)),
{
}

} // verus!
