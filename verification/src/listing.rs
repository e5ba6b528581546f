//! Listing keys: of one store, or of all stores merged.

use vstd::hash_set::StringHashSet;
use vstd::prelude::*;
use crate::error::{list_outcome, Fault, SecretError};
use crate::key::{internal_key, is_internal, law_internal_key};
use crate::read::lemma_position_of;
use crate::registry::{named_store, SecretRegistry, SecretStore};
use crate::text::{opt_text, texts};

verus! {

/// `keys` with those of `more` added that are not among them yet, in order.
pub open spec fn with_new(keys: Seq<Seq<char>>, more: Seq<Seq<char>>) -> Seq<Seq<char>>
    decreases more.len(),
{
    if more.len() == 0 {
        keys
    } else {
        let so_far = with_new(keys, more.drop_last());
        if so_far.contains(more.last()) {
            so_far
        } else {
            so_far.push(more.last())
        }
    }
}

/// `keys` with those of a reply added; a reply that is a failure adds none.
pub open spec fn with_reply(keys: Seq<Seq<char>>, reply: Result<Seq<Seq<char>>, Fault>) -> Seq<
    Seq<char>,
> {
    match reply {
        Ok(more) => with_new(keys, more),
        Err(_) => keys,
    }
}

/// The keys of all replies, each where it first occurs.
pub open spec fn merged(replies: Seq<Result<Seq<Seq<char>>, Fault>>) -> Seq<Seq<char>>
    decreases replies.len(),
{
    if replies.len() == 0 {
        seq![]
    } else {
        with_reply(merged(replies.drop_last()), replies.last())
    }
}

/// The keys to show: all, or those that are not internal.
pub open spec fn shown(keys: Seq<Seq<char>>, show_internal: bool) -> Seq<Seq<char>> {
    if show_internal {
        keys
    } else {
        keys.filter(|k: Seq<char>| !internal_key(k))
    }
}

/// What a listing returns, where `replies` holds what each store replies when it is asked for
/// its keys: the keys of the named store, or those of all stores merged.
pub open spec fn list_result(
    names: Seq<Seq<char>>,
    store: Option<Seq<char>>,
    show_internal: bool,
    replies: Seq<Result<Seq<Seq<char>>, Fault>>,
) -> Result<Seq<Seq<char>>, Fault> {
    match store {
        Some(name) => match named_store(names, name) {
            Ok(i) => match replies[i] {
                Ok(keys) => Ok(shown(keys, show_internal)),
                Err(f) => Err(f),
            },
            Err(f) => Err(f),
        },
        None => Ok(shown(merged(replies), show_internal)),
    }
}

/// A listing in progress: the store that it asks, by position, whether that store alone
/// counts, and the keys found so far.
pub struct ListRun {
    store: usize,
    single: bool,
    keys: Vec<String>,
    seen: StringHashSet,
}

/// What a listing does next: ask a store for its keys, or return.
pub enum ListStep {
    Ask(ListRun),
    Done(Result<Vec<String>, SecretError>),
}

/// A listing in progress, over texts.
pub struct ListAt {
    pub store: int,
    pub single: bool,
    pub keys: Seq<Seq<char>>,
}

/// What a listing does next, over texts.
pub enum ListView {
    Ask(ListAt),
    Done(Result<Seq<Seq<char>>, Fault>),
}

impl View for ListRun {
    type V = ListAt;

    closed spec fn view(&self) -> ListAt {
        ListAt { store: self.store as int, single: self.single, keys: texts(self.keys@) }
    }
}

impl View for ListStep {
    type V = ListView;

    open spec fn view(&self) -> ListView {
        match self {
            ListStep::Ask(run) => ListView::Ask(run@),
            ListStep::Done(r) => ListView::Done(list_outcome(*r)),
        }
    }
}

impl ListRun {
    /// The set of keys found holds exactly the keys found.
    pub closed spec fn wf(&self) -> bool {
        forall|k: Seq<char>| #[trigger] self.seen@.contains(k) <==> texts(self.keys@).contains(k)
    }

    /// The position of the store to ask.
    pub fn store(&self) -> (r: usize)
        ensures
            r == self@.store,
    {
        self.store
    }

    /// Adds the keys of a store that are not among those found yet.
    fn absorb(&mut self, more: &Vec<String>)
        requires
            old(self).wf(),
        ensures
            final(self).wf(),
            final(self)@ == (ListAt {
                keys: with_new(old(self)@.keys, texts(more@)),
                ..old(self)@
            }),
    {
        let mut i: usize = 0;
        while i < more.len()
            invariant
                i <= more.len(),
                self.wf(),
                self@ == (ListAt {
                    keys: with_new(old(self)@.keys, texts(more@).take(i as int)),
                    ..old(self)@
                }),
            decreases more.len() - i,
        {
            let ghost before = self.keys@;
            let ghost k = more@[i as int]@;
            proof {
                let head = texts(more@).take(i + 1);
                assert(head.drop_last() =~= texts(more@).take(i as int));
                assert(head.last() == k);
            }
            if self.seen.insert(more[i].clone()) {
                self.keys.push(more[i].clone());
                assert(texts(self.keys@) =~= texts(before).push(k));
                assert forall|x: Seq<char>| #[trigger]
                    self.seen@.contains(x) <==> texts(self.keys@).contains(x) by {
                    let after = texts(self.keys@);
                    if texts(before).contains(x) {
                        let j = texts(before).index_of(x);
                        assert(after[j] == x);
                    }
                    assert(after[before.len() as int] == k);
                    if after.contains(x) && x != k {
                        let j = after.index_of(x);
                        assert(texts(before)[j] == x);
                    }
                }
            } else {
                assert(texts(before).contains(k));
            }
            i += 1;
        }
        assert(texts(more@).take(more.len() as int) =~= texts(more@));
    }
}

/// How a listing begins: with the named store alone, or with the first of all.
pub open spec fn list_start(names: Seq<Seq<char>>, store: Option<Seq<char>>) -> ListView {
    match store {
        Some(name) => match named_store(names, name) {
            Ok(i) => ListView::Ask(ListAt { store: i, single: true, keys: seq![] }),
            Err(f) => ListView::Done(Err(f)),
        },
        None => if names.len() > 0 {
            ListView::Ask(ListAt { store: 0, single: false, keys: seq![] })
        } else {
            ListView::Done(Ok(seq![]))
        },
    }
}

/// How a listing among `count` stores goes on once the store that it asks has replied.
pub open spec fn list_next(
    count: int,
    show_internal: bool,
    at: ListAt,
    reply: Result<Seq<Seq<char>>, Fault>,
) -> ListView {
    if at.single {
        ListView::Done(
            match reply {
                Ok(keys) => Ok(shown(keys, show_internal)),
                Err(f) => Err(f),
            },
        )
    } else {
        let keys = with_reply(at.keys, reply);
        if at.store + 1 < count {
            ListView::Ask(ListAt { store: at.store + 1, keys, ..at })
        } else {
            ListView::Done(Ok(shown(keys, show_internal)))
        }
    }
}

/// The keys to show: all, or those that are not internal.
fn show(keys: Vec<String>, show_internal: bool) -> (r: Vec<String>)
    ensures
        texts(r@) == shown(texts(keys@), show_internal),
{
    if show_internal {
        return keys;
    }
    let ghost wanted = |k: Seq<char>| !internal_key(k);
    let mut r: Vec<String> = Vec::new();
    let mut i: usize = 0;
    assert(texts(keys@).take(0).filter(wanted) =~= seq![]) by {
        reveal(Seq::filter);
    }
    while i < keys.len()
        invariant
            i <= keys.len(),
            wanted == (|k: Seq<char>| !internal_key(k)),
            texts(r@) == texts(keys@).take(i as int).filter(wanted),
        decreases keys.len() - i,
    {
        let ghost before = r@;
        if !is_internal(keys[i].as_str()) {
            r.push(keys[i].clone());
            assert(texts(r@) =~= texts(before).push(keys@[i as int]@));
        }
        proof {
            reveal(Seq::filter);
            let head = texts(keys@).take(i + 1);
            assert(head.drop_last() =~= texts(keys@).take(i as int));
            assert(head.last() == keys@[i as int]@);
        }
        i += 1;
    }
    assert(texts(keys@).take(keys.len() as int) =~= texts(keys@));
    r
}

impl<S> SecretRegistry<S> {
    /// Begins a listing, of the named store or of all stores in turn.
    pub fn start_list(&self, store: Option<&str>) -> (r: ListStep)
        ensures
            r@ == list_start(self.names(), opt_text(store)),
            r matches ListStep::Ask(run) ==> run.wf() && run@.store < self.entries().len(),
    {
        let none: Vec<String> = Vec::new();
        assert(texts(none@) =~= seq![]);
        match store {
            Some(name) => match self.position(name) {
                Ok(i) => ListStep::Ask(
                    ListRun { store: i, single: true, keys: none, seen: StringHashSet::new() },
                ),
                Err(e) => ListStep::Done(Err(e)),
            },
            None => if self.len() > 0 {
                ListStep::Ask(
                    ListRun { store: 0, single: false, keys: none, seen: StringHashSet::new() },
                )
            } else {
                ListStep::Done(Ok(none))
            },
        }
    }

    /// Goes on with a listing once the store that was asked has replied.
    pub fn resume_list(
        &self,
        run: ListRun,
        show_internal: bool,
        reply: Result<Vec<String>, SecretError>,
    ) -> (r: ListStep)
        requires
            run.wf(),
            run@.store < self.entries().len(),
        ensures
            r@ == list_next(self.names().len() as int, show_internal, run@, list_outcome(reply)),
            r matches ListStep::Ask(next) ==> next.wf() && next@.store < self.entries().len(),
    {
        let mut run = run;
        if run.single {
            return match reply {
                Ok(keys) => ListStep::Done(Ok(show(keys, show_internal))),
                Err(e) => ListStep::Done(Err(e)),
            };
        }
        match reply {
            Ok(more) => run.absorb(&more),
            Err(_) => {},
        }
        let count: usize = self.len();
        if run.store < count - 1 {
            run.store += 1;
            ListStep::Ask(run)
        } else {
            ListStep::Done(Ok(show(run.keys, show_internal)))
        }
    }
}

impl<S: SecretStore> SecretRegistry<S> {
    /// Whether the store at position `at` may reply `reply` when it is asked for its keys.
    pub open spec fn listed(&self, at: int, reply: Result<Seq<Seq<char>>, Fault>) -> bool {
        exists|r: Result<Vec<String>, SecretError>| #[trigger]
            call_ensures(S::list, (&self.entries()[at].1,), r) && list_outcome(r) == reply
    }

    /// Whether `replies` holds, for each store that a listing asks, what that store replied. The
    /// named store alone is asked, or else every store.
    pub open spec fn all_listed(
        &self,
        store: Option<Seq<char>>,
        replies: Seq<Result<Seq<Seq<char>>, Fault>>,
    ) -> bool {
        &&& replies.len() == self.names().len()
        &&& match store {
            Some(name) => named_store(self.names(), name) matches Ok(i) ==> self.listed(
                i,
                replies[i],
            ),
            None => forall|i: int|
                0 <= i < replies.len() ==> self.listed(i, #[trigger] replies[i]),
        }
    }

    /// Lists the keys of the named store, or those of all stores merged.
    pub fn list(&self, store: Option<&str>, show_internal: bool) -> (r: Result<
        Vec<String>,
        SecretError,
    >)
        ensures
            exists|replies: Seq<Result<Seq<Seq<char>>, Fault>>| #[trigger]
                self.all_listed(opt_text(store), replies) && list_outcome(r) == list_result(
                    self.names(),
                    opt_text(store),
                    show_internal,
                    replies,
                ),
    {
        let ghost names = self.names();
        let ghost wanted = opt_text(store);
        let ghost mut replies: Seq<Result<Seq<Seq<char>>, Fault>> = Seq::new(
            names.len(),
            |i: int| Err(Fault::NoStores),
        );
        let mut step = self.start_list(store);
        proof {
            if let Some(name) = wanted {
                lemma_position_of(names, name, 0);
            } else {
                assert(replies.take(0) =~= seq![]);
                if names.len() == 0 {
                    assert(replies =~= seq![]);
                    assert(shown(seq![], show_internal) =~= seq![]) by {
                        reveal(Seq::filter);
                    }
                }
            }
        }
        loop
            invariant
                names == self.names(),
                names.len() == self.entries().len(),
                wanted == opt_text(store),
                replies.len() == names.len(),
                step matches ListStep::Ask(run) ==> {
                    &&& run.wf()
                    &&& 0 <= run@.store < self.entries().len()
                    &&& run@.single <==> wanted is Some
                    &&& wanted matches Some(name) ==> named_store(names, name) == Ok::<int, Fault>(
                        run@.store,
                    )
                    &&& wanted is None ==> {
                        &&& forall|j: int|
                            0 <= j < run@.store ==> self.listed(j, #[trigger] replies[j])
                        &&& run@.keys == merged(replies.take(run@.store))
                    }
                },
                step matches ListStep::Done(r) ==> {
                    &&& self.all_listed(wanted, replies)
                    &&& list_outcome(r) == list_result(names, wanted, show_internal, replies)
                },
            decreases
                    (match step {
                        ListStep::Ask(run) => 1 + self.entries().len() - run@.store,
                        ListStep::Done(_) => 0,
                    }),
        {
            match step {
                ListStep::Done(r) => {
                    return r;
                },
                ListStep::Ask(run) => {
                    let i: usize = run.store();
                    let reply = self.store_at(i).list();
                    let ghost before = replies;
                    proof {
                        assert(call_ensures(S::list, (&self.entries()[i as int].1,), reply));
                        replies = before.update(i as int, list_outcome(reply));
                        assert(self.listed(i as int, replies[i as int]));
                        if wanted is None {
                            assert forall|j: int| 0 <= j <= i implies self.listed(
                                j,
                                #[trigger] replies[j],
                            ) by {
                                if j < i {
                                    assert(replies[j] == before[j]);
                                }
                            }
                            assert(replies.take(i + 1).drop_last() =~= before.take(i as int));
                            assert(replies.take(i + 1).last() == list_outcome(reply));
                            if i + 1 == names.len() {
                                assert(replies.take(i + 1) =~= replies);
                            }
                        }
                    }
                    step = self.resume_list(run, show_internal, reply);
                },
            }
        }
    }
}

/// What comes of a listing that is at `step` and goes on until it returns.
pub open spec fn list_run(
    count: int,
    show_internal: bool,
    step: ListView,
    replies: Seq<Result<Seq<Seq<char>>, Fault>>,
) -> Result<Seq<Seq<char>>, Fault>
    decreases
            (match step {
                ListView::Ask(at) => if at.single {
                    1
                } else {
                    count + 2 - at.store
                },
                ListView::Done(_) => 0,
            }),
{
    match step {
        ListView::Done(r) => r,
        ListView::Ask(at) => if !at.single && at.store >= count {
            Ok(shown(at.keys, show_internal))
        } else {
            list_run(
                count,
                show_internal,
                list_next(count, show_internal, at, replies[at.store]),
                replies,
            )
        },
    }
}

/// Asking the stores that the steps name, one after another, comes to `list_result`.
pub proof fn law_list_steps(
    names: Seq<Seq<char>>,
    store: Option<Seq<char>>,
    show_internal: bool,
    replies: Seq<Result<Seq<Seq<char>>, Fault>>,
)
    requires
        replies.len() == names.len(),
    ensures
        list_run(names.len() as int, show_internal, list_start(names, store), replies)
            == list_result(names, store, show_internal, replies),
{
    reveal_with_fuel(list_run, 3);
    if store is None {
        if names.len() > 0 {
            assert(replies.take(0) =~= seq![]);
            lemma_list_all_steps(
                names.len() as int,
                show_internal,
                ListAt { store: 0, single: false, keys: seq![] },
                replies,
            );
        } else {
            assert(replies =~= seq![]);
            assert(shown(seq![], show_internal) =~= seq![]) by {
                reveal(Seq::filter);
            }
        }
    }
}

proof fn lemma_list_all_steps(
    count: int,
    show_internal: bool,
    at: ListAt,
    replies: Seq<Result<Seq<Seq<char>>, Fault>>,
)
    requires
        replies.len() == count,
        0 <= at.store < count,
        !at.single,
        at.keys == merged(replies.take(at.store)),
    ensures
        list_run(count, show_internal, ListView::Ask(at), replies) == Ok::<Seq<Seq<char>>, Fault>(
            shown(merged(replies), show_internal),
        ),
    decreases count - at.store,
{
    reveal_with_fuel(list_run, 3);
    let i = at.store;
    assert(replies.take(i + 1).drop_last() =~= replies.take(i));
    assert(replies.take(i + 1).last() == replies[i]);
    if i + 1 < count {
        lemma_list_all_steps(
            count,
            show_internal,
            ListAt { store: i + 1, keys: with_reply(at.keys, replies[i]), ..at },
            replies,
        );
    } else {
        assert(replies.take(i + 1) =~= replies);
    }
}

/// Adding keys keeps those that are there where they are, adds none twice, and adds all.
proof fn lemma_with_new(keys: Seq<Seq<char>>, more: Seq<Seq<char>>)
    ensures
        keys.is_prefix_of(with_new(keys, more)),
        keys.no_duplicates() ==> with_new(keys, more).no_duplicates(),
        forall|k: Seq<char>| #[trigger]
            with_new(keys, more).contains(k) <==> keys.contains(k) || more.contains(k),
    decreases more.len(),
{
    let all = with_new(keys, more);
    if more.len() > 0 {
        let shorter = more.drop_last();
        let so_far = with_new(keys, shorter);
        lemma_with_new(keys, shorter);
        assert(more =~= shorter.push(more.last()));
        assert forall|k: Seq<char>| #[trigger] all.contains(k) <==> keys.contains(k)
            || more.contains(k) by {
            lemma_push_contains(shorter, more.last(), k);
            lemma_push_contains(so_far, more.last(), k);
        }
        assert(keys =~= all.subrange(0, keys.len() as int));
    } else {
        assert(keys =~= all.subrange(0, keys.len() as int));
    }
}

proof fn lemma_push_contains(s: Seq<Seq<char>>, x: Seq<char>, k: Seq<char>)
    ensures
        s.push(x).contains(k) <==> s.contains(k) || k == x,
{
    let t = s.push(x);
    if s.contains(k) {
        assert(t[s.index_of(k)] == k);
    }
    assert(t[s.len() as int] == x);
    if t.contains(k) && k != x {
        assert(s[t.index_of(k)] == k);
    }
}

/// The merged keys hold no key twice, and hold a key exactly when some store listed it.
pub proof fn law_merged_keys(replies: Seq<Result<Seq<Seq<char>>, Fault>>)
    ensures
        merged(replies).no_duplicates(),
        forall|k: Seq<char>| #[trigger]
            merged(replies).contains(k) <==> exists|i: int|
                0 <= i < replies.len() && (#[trigger] replies[i]) is Ok && replies[i]->Ok_0.contains(
                    k,
                ),
    decreases replies.len(),
{
    if replies.len() > 0 {
        let shorter = replies.drop_last();
        law_merged_keys(shorter);
        if let Ok(more) = replies.last() {
            lemma_with_new(merged(shorter), more);
        }
        assert forall|k: Seq<char>| #[trigger]
            merged(replies).contains(k) <==> exists|i: int|
                0 <= i < replies.len() && (#[trigger] replies[i]) is Ok && replies[i]->Ok_0.contains(
                    k,
                ) by {
            if exists|i: int|
                0 <= i < replies.len() && (#[trigger] replies[i]) is Ok && replies[i]->Ok_0.contains(
                    k,
                ) {
                let i = choose|i: int|
                    0 <= i < replies.len() && (#[trigger] replies[i]) is Ok
                        && replies[i]->Ok_0.contains(k);
                if i < shorter.len() {
                    assert(shorter[i] == replies[i]);
                }
            }
            if merged(replies).contains(k) {
                if merged(shorter).contains(k) {
                    let i = choose|i: int|
                        0 <= i < shorter.len() && (#[trigger] shorter[i]) is Ok
                            && shorter[i]->Ok_0.contains(k);
                    assert(replies[i] == shorter[i]);
                } else {
                    assert(replies[replies.len() - 1] is Ok);
                }
            }
        }
    } else {
        assert(merged(replies) =~= seq![]);
    }
}

/// The keys of a store keep their order and stand before those that only later stores list.
pub proof fn law_merged_order(replies: Seq<Result<Seq<Seq<char>>, Fault>>, count: int)
    requires
        0 <= count <= replies.len(),
    ensures
        merged(replies.take(count)).is_prefix_of(merged(replies)),
    decreases replies.len(),
{
    if count == replies.len() {
        assert(replies.take(count) =~= replies);
        assert(merged(replies) =~= merged(replies).subrange(0, merged(replies).len() as int));
    } else {
        let shorter = replies.drop_last();
        law_merged_order(shorter, count);
        assert(shorter.take(count) =~= replies.take(count));
        let first = merged(replies.take(count));
        let middle = merged(shorter);
        let all = merged(replies);
        if let Ok(more) = replies.last() {
            lemma_with_new(middle, more);
        } else {
            assert(middle =~= all.subrange(0, middle.len() as int));
        }
        assert(first =~= all.subrange(0, first.len() as int)) by {
            assert forall|i: int| 0 <= i < first.len() implies first[i] == all[i] by {
                assert(first[i] == middle.subrange(0, first.len() as int)[i]);
                assert(middle[i] == all.subrange(0, middle.len() as int)[i]);
            }
        }
    }
}

/// Hiding the internal keys hides all of them and nothing else.
pub proof fn law_shown_keys(keys: Seq<Seq<char>>, show_internal: bool)
    ensures
        forall|k: Seq<char>| #[trigger]
            shown(keys, show_internal).contains(k) <==> keys.contains(k) && (show_internal
                || !internal_key(k)),
        keys.no_duplicates() ==> shown(keys, show_internal).no_duplicates(),
    decreases keys.len(),
{
    reveal(Seq::filter);
    if !show_internal && keys.len() > 0 {
        let shorter = keys.drop_last();
        law_shown_keys(shorter, show_internal);
        assert(keys =~= shorter.push(keys.last()));
        assert forall|k: Seq<char>| #[trigger]
            shown(keys, show_internal).contains(k) <==> keys.contains(k) && !internal_key(k) by {
            lemma_push_contains(shorter, keys.last(), k);
            lemma_push_contains(shown(shorter, show_internal), keys.last(), k);
        }
        if keys.no_duplicates() {
            assert(shorter.no_duplicates());
            assert(!shorter.contains(keys.last())) by {
                if shorter.contains(keys.last()) {
                    let j = shorter.index_of(keys.last());
                    assert(keys[j] == keys[keys.len() - 1]);
                }
            }
            assert(!shown(shorter, show_internal).contains(keys.last()));
        }
    }
}

/// A listing of all stores never fails, shows no key twice, and shows a key exactly when some
/// store listed it and it is not hidden.
pub proof fn law_list_all(
    names: Seq<Seq<char>>,
    show_internal: bool,
    replies: Seq<Result<Seq<Seq<char>>, Fault>>,
)
    ensures
        list_result(names, None, show_internal, replies) matches Ok(keys) && {
            &&& keys.no_duplicates()
            &&& forall|k: Seq<char>| #[trigger]
                keys.contains(k) <==> (show_internal || !internal_key(k)) && exists|i: int|
                    0 <= i < replies.len() && (#[trigger] replies[i]) is Ok
                        && replies[i]->Ok_0.contains(k)
        },
{
    law_merged_keys(replies);
    law_shown_keys(merged(replies), show_internal);
}

/// Internal keys are never shown unless they are asked for, whichever stores are listed.
pub proof fn law_internal_keys_hidden(
    names: Seq<Seq<char>>,
    store: Option<Seq<char>>,
    replies: Seq<Result<Seq<Seq<char>>, Fault>>,
)
    ensures
        list_result(names, store, false, replies) matches Ok(keys) ==> forall|k: Seq<char>|
            #[trigger] keys.contains(k) ==> !internal_key(k),
{
    match store {
        Some(name) => {
            if let Ok(i) = named_store(names, name) {
                if let Ok(keys) = replies[i] {
                    law_shown_keys(keys, false);
                }
            }
        },
        None => {
            law_shown_keys(merged(replies), false);
        },
    }
}

/// Keys are shown in the order in which they are listed: what is shown of two lists, one behind the
/// other, is what is shown of each. A key alone is shown unless it begins with two underscores and
/// internal keys are not asked for.
pub proof fn law_shown_in_order(
    a: Seq<Seq<char>>,
    b: Seq<Seq<char>>,
    key: Seq<char>,
    show_internal: bool,
)
    ensures
        shown(a + b, show_internal) == shown(a, show_internal) + shown(b, show_internal),
        shown(seq![key], show_internal) == (if !show_internal && key.len() >= 2 && key[0] == '_'
            && key[1] == '_' {
            seq![]
        } else {
            seq![key]
        }),
        shown(a, true) == a,
    decreases b.len(),
{
    reveal(Seq::filter);
    law_internal_key(key);
    let one = seq![key];
    assert(one.drop_last() =~= seq![]);
    assert(shown(seq![], false) =~= seq![]);
    assert(shown(one, false) =~= (if internal_key(key) {
        seq![]
    } else {
        seq![key]
    }));
    if !show_internal {
        if b.len() == 0 {
            assert(a + b =~= a);
            assert(shown(b, false) =~= seq![]);
            assert(shown(a, false) + shown(b, false) =~= shown(a, false));
        } else {
            let shorter = b.drop_last();
            law_shown_in_order(a, shorter, key, show_internal);
            assert((a + b).drop_last() =~= a + shorter);
            assert((a + b).last() == b.last());
            assert(shown(a + b, false) =~= shown(a, false) + shown(b, false));
        }
    }
}

/// Stores are merged one after another: one that fails adds nothing, and one that lists keys adds
/// each of them behind all that came before, unless it came before.
pub proof fn law_merged_one_by_one(
    replies: Seq<Result<Seq<Seq<char>>, Fault>>,
    keys: Seq<Seq<char>>,
    key: Seq<char>,
    f: Fault,
)
    ensures
        merged(seq![]) == Seq::<Seq<char>>::empty(),
        merged(replies.push(Err(f))) == merged(replies),
        merged(replies.push(Ok(seq![]))) == merged(replies),
        merged(replies.push(Ok(keys.push(key)))) == (if merged(replies.push(Ok(keys))).contains(
            key,
        ) {
            merged(replies.push(Ok(keys)))
        } else {
            merged(replies.push(Ok(keys))).push(key)
        }),
{
    assert(replies.push(Err(f)).drop_last() =~= replies);
    assert(replies.push(Ok(seq![])).drop_last() =~= replies);
    assert(replies.push(Ok(keys)).drop_last() =~= replies);
    assert(replies.push(Ok(keys.push(key))).drop_last() =~= replies);
    assert(keys.push(key).drop_last() =~= keys);
}

/// A listing of one store is that store's own, in its order, or that store's fault; a listing of
/// all stores is what all of them list, merged.
pub proof fn law_list_by_position(
    names: Seq<Seq<char>>,
    name: Seq<char>,
    show_internal: bool,
    replies: Seq<Result<Seq<Seq<char>>, Fault>>,
    at: int,
)
    ensures
        0 <= at < names.len() && names[at] == name && (forall|j: int|
            0 <= j < at ==> #[trigger] names[j] != name) ==> match replies[at] {
            Ok(keys) => list_result(names, Some(name), show_internal, replies) == Ok::<
                Seq<Seq<char>>,
                Fault,
            >(shown(keys, show_internal)),
            Err(f) => list_result(names, Some(name), show_internal, replies) == Err::<
                Seq<Seq<char>>,
                Fault,
            >(f),
        },
        (forall|j: int| 0 <= j < names.len() ==> #[trigger] names[j] != name) ==> list_result(
            names,
            Some(name),
            show_internal,
            replies,
        ) == Err::<Seq<Seq<char>>, Fault>(Fault::UnknownStore(name)),
        list_result(names, None, show_internal, replies) == Ok::<Seq<Seq<char>>, Fault>(
            shown(merged(replies), show_internal),
        ),
{
    lemma_position_of(names, name, 0);
}

/// What counts as the reply of a store is what that store lists, whole and in its order, or its
/// fault: every store is asked, or the named one if one is named.
pub proof fn law_stores_are_listed<S: SecretStore>(
    registry: SecretRegistry<S>,
    store: Option<Seq<char>>,
    replies: Seq<Result<Seq<Seq<char>>, Fault>>,
    at: int,
)
    requires
        registry.all_listed(store, replies),
        0 <= at < registry.entries().len(),
        match store {
            None => true,
            Some(name) => registry.entries()[at].0@ == name && forall|j: int|
                0 <= j < at ==> (#[trigger] registry.entries()[j]).0@ != name,
        },
    ensures
        exists|r: Result<Vec<String>, SecretError>|
            {
                &&& #[trigger] call_ensures(S::list, (&registry.entries()[at].1,), r)
                &&& match r {
                    Ok(keys) => replies[at] matches Ok(listed) && listed.len() == keys@.len()
                        && forall|i: int|
                        0 <= i < listed.len() ==> #[trigger] listed[i] == keys@[i]@,
                    Err(e) => replies[at] == Err::<Seq<Seq<char>>, Fault>(e@),
                }
            },
{
    let names = registry.names();
    if let Some(name) = store {
        lemma_position_of(names, name, 0);
        assert forall|j: int| 0 <= j < at implies #[trigger] names[j] != name by {
            assert(registry.entries()[j].0@ != name);
        }
        assert(names[at] == name);
    }
    assert(registry.listed(at, replies[at]));
}

/// How a listing begins: with the first store that has the name, alone; or, without a name, with
/// the first store of all. No keys are found yet.
pub proof fn law_list_begins(names: Seq<Seq<char>>, name: Seq<char>, at: int)
    ensures
        0 <= at < names.len() && names[at] == name && (forall|j: int|
            0 <= j < at ==> #[trigger] names[j] != name) ==> list_start(names, Some(name))
            == ListView::Ask(ListAt { store: at, single: true, keys: seq![] }),
        (forall|j: int| 0 <= j < names.len() ==> #[trigger] names[j] != name) ==> list_start(
            names,
            Some(name),
        ) == ListView::Done(Err(Fault::UnknownStore(name))),
        names.len() > 0 ==> list_start(names, None) == ListView::Ask(
            ListAt { store: 0, single: false, keys: seq![] },
        ),
        names.len() == 0 ==> list_start(names, None) == ListView::Done(Ok(seq![])),
{
    lemma_position_of(names, name, 0);
}

/// How a listing goes on: the reply of a store that was named is final; any other store adds its
/// keys and leads to the one behind it, and the last of them to all that was found.
pub proof fn law_list_goes_on(
    show_internal: bool,
    before: Seq<Result<Seq<Seq<char>>, Fault>>,
    reply: Result<Seq<Seq<char>>, Fault>,
    count: int,
    at: int,
)
    requires
        before.len() < count,
    ensures
        list_next(
            count,
            show_internal,
            ListAt { store: at, single: true, keys: seq![] },
            reply,
        ) == ListView::Done(
            match reply {
                Ok(keys) => Ok(shown(keys, show_internal)),
                Err(f) => Err(f),
            },
        ),
        list_next(
            count,
            show_internal,
            ListAt { store: before.len() as int, single: false, keys: merged(before) },
            reply,
        ) == (if before.len() + 1 < count {
            ListView::Ask(
                ListAt {
                    store: before.len() as int + 1,
                    single: false,
                    keys: merged(before.push(reply)),
                },
            )
        } else {
            ListView::Done(Ok(shown(merged(before.push(reply)), show_internal)))
        }),
{
    assert(before.push(reply).drop_last() =~= before);
}

/// A step of a listing gives what is returned, every key and in order.
pub proof fn law_list_step(keys: Vec<String>, e: SecretError, i: int)
    ensures
        ListStep::Done(Ok(keys))@ matches ListView::Done(Ok(listed)) && listed.len() == keys@.len()
            && (0 <= i < listed.len() ==> listed[i] == keys@[i]@),
        ListStep::Done(Err(e))@ == ListView::Done(Err(e@)),
{
}

} // verus!
