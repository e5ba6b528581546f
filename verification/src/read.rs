//! Reading a secret: one store after another, the first that has the key wins.

use vstd::prelude::*;
use crate::error::{text_outcome, Fault, SecretError};
use crate::key::{law_key_fault, valid_key};
use crate::registry::{
    named_store, position_of, set_plan, write_target, SecretRegistry, SecretStore,
};
use crate::text::{opt_text, uppercase};

verus! {

/// The store that a read asks, by position, and whether it goes on to the next one if that
/// store does not have the key.
pub struct ReadAt {
    pub store: usize,
    pub cascade: bool,
}

/// What a read does next: ask a store for the key, or return.
pub enum ReadStep {
    Ask(ReadAt),
    Done(Result<String, SecretError>),
}

/// What a read does next, over texts.
pub enum ReadView {
    Ask(int, bool),
    Done(Result<Seq<char>, Fault>),
}

impl View for ReadStep {
    type V = ReadView;

    open spec fn view(&self) -> ReadView {
        match self {
            ReadStep::Ask(at) => ReadView::Ask(at.store as int, at.cascade),
            ReadStep::Done(r) => ReadView::Done(text_outcome(*r)),
        }
    }
}

/// What a read returns if no store has the key.
pub open spec fn not_found(key: Seq<char>) -> Result<Seq<char>, Fault> {
    Err(Fault::NotFound(key))
}

/// How a read begins: with the named store alone, or with the first of all.
pub open spec fn read_start(
    names: Seq<Seq<char>>,
    key: Seq<char>,
    store: Option<Seq<char>>,
) -> ReadView {
    match store {
        Some(name) => match named_store(names, name) {
            Ok(i) => ReadView::Ask(i, false),
            Err(f) => ReadView::Done(Err(f)),
        },
        None => if names.len() > 0 {
            ReadView::Ask(0, true)
        } else {
            ReadView::Done(not_found(key))
        },
    }
}

/// How a read among `count` stores goes on once the store at position `at` has replied.
pub open spec fn read_next(
    count: int,
    key: Seq<char>,
    at: int,
    cascade: bool,
    reply: Result<Seq<char>, Fault>,
) -> ReadView {
    if !cascade || reply is Ok {
        ReadView::Done(reply)
    } else if at + 1 < count {
        ReadView::Ask(at + 1, true)
    } else {
        ReadView::Done(not_found(key))
    }
}

/// What the first of the replies from position `from` on that is a value says.
pub open spec fn first_hit(
    replies: Seq<Result<Seq<char>, Fault>>,
    key: Seq<char>,
    from: int,
) -> Result<Seq<char>, Fault>
    decreases replies.len() - from,
{
    if from >= replies.len() {
        not_found(key)
    } else if replies[from] is Ok {
        replies[from]
    } else {
        first_hit(replies, key, from + 1)
    }
}

/// What a read returns, where `replies` holds what each store replies when it is asked for the
/// key: the reply of the named store, or else the first value that any store has.
pub open spec fn read_result(
    names: Seq<Seq<char>>,
    key: Seq<char>,
    store: Option<Seq<char>>,
    replies: Seq<Result<Seq<char>, Fault>>,
) -> Result<Seq<char>, Fault> {
    match store {
        Some(name) => match named_store(names, name) {
            Ok(i) => replies[i],
            Err(f) => Err(f),
        },
        None => first_hit(replies, key, 0),
    }
}

/// Whether a read asks the store at position `at`: the named store and no other, or each store
/// that only stores without the key precede.
pub open spec fn read_asks(
    names: Seq<Seq<char>>,
    store: Option<Seq<char>>,
    replies: Seq<Result<Seq<char>, Fault>>,
    at: int,
) -> bool {
    match store {
        Some(name) => named_store(names, name) == Ok::<int, Fault>(at),
        None => 0 <= at < names.len() && forall|j: int| 0 <= j < at ==> #[trigger] replies[j] is Err,
    }
}

/// What comes of a read that is at `step` and goes on until it returns.
pub open spec fn read_run(
    count: int,
    key: Seq<char>,
    step: ReadView,
    replies: Seq<Result<Seq<char>, Fault>>,
) -> Result<Seq<char>, Fault>
    decreases
            (match step {
                ReadView::Ask(at, true) => count + 2 - at,
                ReadView::Ask(_, false) => 1,
                ReadView::Done(_) => 0,
            }),
{
    match step {
        ReadView::Done(r) => r,
        ReadView::Ask(at, cascade) => if cascade && at >= count {
            not_found(key)
        } else {
            read_run(count, key, read_next(count, key, at, cascade, replies[at]), replies)
        },
    }
}

impl<S> SecretRegistry<S> {
    /// Begins a read of `key`, in the named store or in all stores in turn.
    pub fn start_read(&self, key: &str, store: Option<&str>) -> (r: ReadStep)
        ensures
            r@ == read_start(self.names(), key@, opt_text(store)),
            r matches ReadStep::Ask(at) ==> at.store < self.entries().len(),
    {
        match store {
            Some(name) => match self.position(name) {
                Ok(i) => ReadStep::Ask(ReadAt { store: i, cascade: false }),
                Err(e) => ReadStep::Done(Err(e)),
            },
            None => if self.len() > 0 {
                ReadStep::Ask(ReadAt { store: 0, cascade: true })
            } else {
                ReadStep::Done(Err(SecretError::NotFound { key: key.to_owned() }))
            },
        }
    }

    /// Goes on with a read of `key` once the store that was asked has replied.
    pub fn resume_read(&self, key: &str, at: ReadAt, reply: Result<String, SecretError>) -> (r:
        ReadStep)
        requires
            at.store < self.entries().len(),
        ensures
            r@ == read_next(
                self.names().len() as int,
                key@,
                at.store as int,
                at.cascade,
                text_outcome(reply),
            ),
            r matches ReadStep::Ask(next) ==> next.store < self.entries().len(),
    {
        if !at.cascade {
            return ReadStep::Done(reply);
        }
        let count: usize = self.len();
        match reply {
            Ok(value) => ReadStep::Done(Ok(value)),
            Err(_) => if at.store < count - 1 {
                ReadStep::Ask(ReadAt { store: at.store + 1, cascade: true })
            } else {
                ReadStep::Done(Err(SecretError::NotFound { key: key.to_owned() }))
            },
        }
    }
}

impl<S: SecretStore> SecretRegistry<S> {
    /// Whether `replies` holds, for each store that a read of `key` asks, what that store replied.
    pub open spec fn answered(
        &self,
        key: Seq<char>,
        store: Option<Seq<char>>,
        replies: Seq<Result<Seq<char>, Fault>>,
    ) -> bool {
        &&& replies.len() == self.names().len()
        &&& forall|i: int| #[trigger]
            read_asks(self.names(), store, replies, i) ==> self.replied(key, i, replies[i])
    }

    /// Whether the store at position `at` may reply `reply` when it is asked for `key`.
    pub open spec fn replied(&self, key: Seq<char>, at: int, reply: Result<Seq<char>, Fault>) -> bool {
        exists|k: &str, r: Result<String, SecretError>|
            k@ == key && #[trigger] call_ensures(S::get, (&self.entries()[at].1, k), r)
                && text_outcome(r) == reply
    }

    /// Reads a secret: from the named store, or from the first store that has the key.
    pub fn get(&self, key: &str, store: Option<&str>) -> (r: Result<String, SecretError>)
        ensures
            exists|replies: Seq<Result<Seq<char>, Fault>>| #[trigger]
                self.answered(key@, opt_text(store), replies) && text_outcome(r) == read_result(
                    self.names(),
                    key@,
                    opt_text(store),
                    replies,
                ),
    {
        let ghost names = self.names();
        let ghost wanted = opt_text(store);
        let ghost mut replies = Seq::new(names.len(), |i: int| not_found(key@));
        let mut step = self.start_read(key, store);
        proof {
            lemma_position(names, wanted);
        }
        loop
            invariant
                names == self.names(),
                names.len() == self.entries().len(),
                wanted == opt_text(store),
                replies.len() == names.len(),
                step matches ReadStep::Ask(at) ==> {
                    &&& at.store < self.entries().len()
                    &&& at.cascade <==> wanted is None
                    &&& wanted matches Some(name) ==> named_store(names, name) == Ok::<int, Fault>(
                        at.store as int,
                    )
                    &&& at.cascade ==> {
                        &&& forall|j: int|
                            0 <= j < at.store ==> (#[trigger] replies[j]) is Err && self.replied(
                                key@,
                                j,
                                replies[j],
                            )
                        &&& first_hit(replies, key@, 0) == first_hit(replies, key@, at.store as int)
                    }
                },
                step matches ReadStep::Done(r) ==> {
                    &&& self.answered(key@, wanted, replies)
                    &&& text_outcome(r) == read_result(names, key@, wanted, replies)
                },
            decreases
                    (match step {
                        ReadStep::Ask(at) => 1 + self.entries().len() - at.store,
                        ReadStep::Done(_) => 0,
                    }),
        {
            match step {
                ReadStep::Done(r) => {
                    return r;
                },
                ReadStep::Ask(at) => {
                    let i: usize = at.store;
                    let reply = self.store_at(i).get(key);
                    let ghost before = replies;
                    proof {
                        assert(call_ensures(S::get, (&self.entries()[i as int].1, key), reply));
                        replies = before.update(i as int, text_outcome(reply));
                        assert(self.replied(key@, i as int, replies[i as int]));
                        if wanted is None {
                            lemma_first_hit_update(before, key@, i as int, text_outcome(reply));
                            assert forall|j: int| 0 <= j < i implies (#[trigger] replies[j]) is Err
                                && self.replied(key@, j, replies[j]) by {
                                assert(replies[j] == before[j]);
                            }
                        }
                    }
                    step = self.resume_read(key, at, reply);
                    proof {
                        if step is Done {
                            assert forall|j: int| #[trigger]
                                read_asks(names, wanted, replies, j) implies self.replied(
                                key@,
                                j,
                                replies[j],
                            ) by {
                                if wanted is None && j > i {
                                    assert(replies[i as int] is Err);
                                    assert(i + 1 == names.len());
                                }
                            }
                        }
                    }
                },
            }
        }
    }
}

/// A position that a name leads to lies within the names.
proof fn lemma_position(names: Seq<Seq<char>>, store: Option<Seq<char>>)
    ensures
        store matches Some(name) ==> (named_store(names, name) matches Ok(i) ==> 0 <= i
            < names.len() && names[i] == name),
{
    if let Some(name) = store {
        lemma_position_of(names, name, 0);
    }
}

/// `position_of` gives the least position at which the name stands, if it stands anywhere.
pub proof fn lemma_position_of(names: Seq<Seq<char>>, name: Seq<char>, from: int)
    requires
        0 <= from,
    ensures
        match position_of(names, name, from) {
            Some(i) => {
                &&& from <= i < names.len()
                &&& names[i] == name
                &&& forall|j: int| from <= j < i ==> #[trigger] names[j] != name
            },
            None => forall|j: int| from <= j < names.len() ==> #[trigger] names[j] != name,
        },
    decreases names.len() - from,
{
    if from < names.len() && names[from] != name {
        lemma_position_of(names, name, from + 1);
    }
}

proof fn lemma_first_hit_update(
    replies: Seq<Result<Seq<char>, Fault>>,
    key: Seq<char>,
    at: int,
    reply: Result<Seq<char>, Fault>,
)
    requires
        0 <= at < replies.len(),
        forall|j: int| 0 <= j < at ==> (#[trigger] replies[j]) is Err,
    ensures
        first_hit(replies.update(at, reply), key, 0) == (if reply is Ok {
            reply
        } else {
            first_hit(replies.update(at, reply), key, at + 1)
        }),
{
    let updated = replies.update(at, reply);
    assert forall|j: int| 0 <= j < at implies (#[trigger] updated[j]) is Err by {
        assert(updated[j] == replies[j]);
    }
    lemma_skip_misses(updated, key, 0, at);
}

/// Replies that are no value do not matter to what the first value is.
proof fn lemma_skip_misses(
    replies: Seq<Result<Seq<char>, Fault>>,
    key: Seq<char>,
    from: int,
    to: int,
)
    requires
        0 <= from <= to <= replies.len(),
        forall|j: int| from <= j < to ==> (#[trigger] replies[j]) is Err,
    ensures
        first_hit(replies, key, from) == first_hit(replies, key, to),
    decreases to - from,
{
    if from < to {
        lemma_skip_misses(replies, key, from + 1, to);
    }
}

/// Asking the stores that the steps name, one after another, comes to `read_result`.
pub proof fn law_read_steps(
    names: Seq<Seq<char>>,
    key: Seq<char>,
    store: Option<Seq<char>>,
    replies: Seq<Result<Seq<char>, Fault>>,
)
    requires
        replies.len() == names.len(),
    ensures
        read_run(names.len() as int, key, read_start(names, key, store), replies) == read_result(
            names,
            key,
            store,
            replies,
        ),
{
    reveal_with_fuel(read_run, 3);
    match store {
        Some(name) => {},
        None => {
            if names.len() > 0 {
                lemma_cascade_steps(names.len() as int, key, 0, replies);
            }
        },
    }
}

proof fn lemma_cascade_steps(
    count: int,
    key: Seq<char>,
    at: int,
    replies: Seq<Result<Seq<char>, Fault>>,
)
    requires
        replies.len() == count,
        0 <= at < count,
    ensures
        read_run(count, key, ReadView::Ask(at, true), replies) == first_hit(replies, key, at),
    decreases count - at,
{
    reveal_with_fuel(read_run, 3);
    reveal_with_fuel(first_hit, 2);
    if replies[at] is Err && at + 1 < count {
        lemma_cascade_steps(count, key, at + 1, replies);
    }
}

/// The order of the stores is the order of precedence: the value of the first store that has
/// the key is returned, whatever the stores after it hold.
pub proof fn law_first_store_wins(
    names: Seq<Seq<char>>,
    key: Seq<char>,
    replies: Seq<Result<Seq<char>, Fault>>,
    at: int,
)
    requires
        0 <= at < replies.len(),
        replies[at] is Ok,
        forall|j: int| 0 <= j < at ==> (#[trigger] replies[j]) is Err,
    ensures
        read_result(names, key, None, replies) == replies[at],
{
    lemma_skip_misses(replies, key, 0, at);
}

/// A read without a store name fails only if no store has the key, and then says so.
pub proof fn law_missing_everywhere(
    names: Seq<Seq<char>>,
    key: Seq<char>,
    replies: Seq<Result<Seq<char>, Fault>>,
)
    ensures
        read_result(names, key, None, replies) is Err <==> forall|j: int|
            0 <= j < replies.len() ==> (#[trigger] replies[j]) is Err,
        read_result(names, key, None, replies) is Err ==> read_result(names, key, None, replies)
            == not_found(key),
{
    lemma_first_hit_fails(replies, key, 0);
}

proof fn lemma_first_hit_fails(
    replies: Seq<Result<Seq<char>, Fault>>,
    key: Seq<char>,
    from: int,
)
    requires
        0 <= from,
    ensures
        first_hit(replies, key, from) is Err <==> forall|j: int|
            from <= j < replies.len() ==> (#[trigger] replies[j]) is Err,
        first_hit(replies, key, from) is Err ==> first_hit(replies, key, from) == not_found(key),
    decreases replies.len() - from,
{
    if from < replies.len() && replies[from] is Err {
        lemma_first_hit_fails(replies, key, from + 1);
    }
}

/// A read that names a store gives that store's reply, whatever the other stores hold. Of
/// several stores with one name it is the first.
pub proof fn law_named_store_alone(
    names: Seq<Seq<char>>,
    key: Seq<char>,
    name: Seq<char>,
    replies: Seq<Result<Seq<char>, Fault>>,
    at: int,
)
    requires
        0 <= at < names.len(),
        names[at] == name,
        forall|j: int| 0 <= j < at ==> #[trigger] names[j] != name,
    ensures
        read_result(names, key, Some(name), replies) == replies[at],
{
    lemma_position_of(names, name, 0);
}

/// A name that no store has is refused.
pub proof fn law_unknown_store(
    names: Seq<Seq<char>>,
    key: Seq<char>,
    name: Seq<char>,
    replies: Seq<Result<Seq<char>, Fault>>,
)
    requires
        !names.contains(name),
    ensures
        read_result(names, key, Some(name), replies) == Err::<Seq<char>, Fault>(
            Fault::UnknownStore(name),
        ),
        write_target(names, Some(name)) == Err::<int, Fault>(Fault::UnknownStore(name)),
{
    lemma_position_of(names, name, 0);
}

/// What stores that hold these secrets reply when they are asked for a key.
pub open spec fn replies_of(contents: Seq<Map<Seq<char>, Seq<char>>>, key: Seq<char>) -> Seq<
    Result<Seq<char>, Fault>,
> {
    contents.map_values(
        |m: Map<Seq<char>, Seq<char>>|
            if m.contains_key(key) {
                Ok(m[key])
            } else {
                not_found(key)
            },
    )
}

/// What a write without a store name stores, a read without a store name gives back: both begin
/// with the first store. The key is the one that was written, in capitals.
pub proof fn law_write_then_read(
    names: Seq<Seq<char>>,
    contents: Seq<Map<Seq<char>, Seq<char>>>,
    key: Seq<char>,
    value: Seq<char>,
)
    requires
        names.len() > 0,
        contents.len() == names.len(),
        valid_key(key),
    ensures
        set_plan(names, key, None) matches Ok((at, stored)) && read_result(
            names,
            stored,
            None,
            replies_of(contents.update(at, contents[at].insert(stored, value)), stored),
        ) == Ok::<Seq<char>, Fault>(value),
{
    law_key_fault(key);
}

/// Deleting a key from the first store uncovers what the stores after it hold under that key.
pub proof fn law_delete_then_read(
    names: Seq<Seq<char>>,
    contents: Seq<Map<Seq<char>, Seq<char>>>,
    key: Seq<char>,
)
    requires
        names.len() > 0,
        contents.len() == names.len(),
    ensures
        write_target(names, None) matches Ok(at) && {
            let after = contents.update(at, contents[at].remove(key));
            read_result(names, key, None, replies_of(after, key)) == first_hit(
                replies_of(contents, key),
                key,
                1,
            )
        },
{
    let after = contents.update(0, contents[0].remove(key));
    let replies = replies_of(after, key);
    assert(replies[0] is Err);
    assert(replies =~= replies_of(contents, key).update(0, not_found(key)));
    lemma_same_hits(replies, replies_of(contents, key), key, 1);
}

/// Replies before `from` do not matter to the first value from there on.
proof fn lemma_same_hits(
    a: Seq<Result<Seq<char>, Fault>>,
    b: Seq<Result<Seq<char>, Fault>>,
    key: Seq<char>,
    from: int,
)
    requires
        a.len() == b.len(),
        0 <= from,
        forall|j: int| from <= j < a.len() ==> #[trigger] a[j] == b[j],
    ensures
        first_hit(a, key, from) == first_hit(b, key, from),
    decreases a.len() - from,
{
    if from < a.len() {
        assert(a[from] == b[from]);
        lemma_same_hits(a, b, key, from + 1);
    }
}

/// What a write stores in a named store, a read from that store gives back, and so does a read
/// without a store name unless a store before it has the key.
pub proof fn law_named_write_then_read(
    names: Seq<Seq<char>>,
    contents: Seq<Map<Seq<char>, Seq<char>>>,
    key: Seq<char>,
    value: Seq<char>,
    name: Seq<char>,
)
    requires
        names.contains(name),
        contents.len() == names.len(),
        valid_key(key),
    ensures
        set_plan(names, key, Some(name)) matches Ok((at, stored)) && {
            let after = contents.update(at, contents[at].insert(stored, value));
            &&& read_result(names, stored, Some(name), replies_of(after, stored)) == Ok::<
                Seq<char>,
                Fault,
            >(value)
            &&& (forall|j: int| 0 <= j < at ==> !(#[trigger] contents[j]).contains_key(stored))
                ==> read_result(names, stored, None, replies_of(after, stored)) == Ok::<
                Seq<char>,
                Fault,
            >(value)
        },
{
    law_key_fault(key);
    lemma_position_of(names, name, 0);
    let i = names.index_of(name);
    assert(names[i] == name);
    let at = position_of(names, name, 0)->0;
    let stored = uppercase(key);
    let after = contents.update(at, contents[at].insert(stored, value));
    let replies = replies_of(after, stored);
    assert(replies[at] == Ok::<Seq<char>, Fault>(value));
    if forall|j: int| 0 <= j < at ==> !(#[trigger] contents[j]).contains_key(stored) {
        assert forall|j: int| 0 <= j < at implies (#[trigger] replies[j]) is Err by {
            assert(after[j] == contents[j]);
        }
        law_first_store_wins(names, stored, replies, at);
    }
}

/// How a read begins: with the first store that has the name, alone; or, without a name, with the
/// first store of all, to go on from there.
pub proof fn law_read_begins(
    names: Seq<Seq<char>>,
    key: Seq<char>,
    name: Seq<char>,
    at: int,
)
    ensures
        0 <= at < names.len() && names[at] == name && (forall|j: int|
            0 <= j < at ==> #[trigger] names[j] != name) ==> read_start(names, key, Some(name))
            == ReadView::Ask(at, false),
        (forall|j: int| 0 <= j < names.len() ==> #[trigger] names[j] != name) ==> read_start(
            names,
            key,
            Some(name),
        ) == ReadView::Done(Err(Fault::UnknownStore(name))),
        names.len() > 0 ==> read_start(names, key, None) == ReadView::Ask(0, true),
        names.len() == 0 ==> read_start(names, key, None) == ReadView::Done(
            Err(Fault::NotFound(key)),
        ),
{
    lemma_position_of(names, name, 0);
}

/// How a read goes on: the reply of a store that was named is final, and so is a value; a store
/// without the key leads to the one behind it, and the last of them to the fault that names the
/// key.
pub proof fn law_read_goes_on(
    count: int,
    key: Seq<char>,
    at: int,
    value: Seq<char>,
    f: Fault,
)
    requires
        0 <= at < count,
    ensures
        read_next(count, key, at, false, Ok(value)) == ReadView::Done(Ok(value)),
        read_next(count, key, at, false, Err(f)) == ReadView::Done(Err(f)),
        read_next(count, key, at, true, Ok(value)) == ReadView::Done(Ok(value)),
        at < count - 1 ==> read_next(count, key, at, true, Err(f)) == ReadView::Ask(at + 1, true),
        at == count - 1 ==> read_next(count, key, at, true, Err(f)) == ReadView::Done(
            Err(Fault::NotFound(key)),
        ),
{
}

/// A read that finds nothing in any store names the key that was asked for.
pub proof fn law_not_found(
    names: Seq<Seq<char>>,
    key: Seq<char>,
    replies: Seq<Result<Seq<char>, Fault>>,
)
    requires
        forall|j: int| 0 <= j < replies.len() ==> (#[trigger] replies[j]) is Err,
    ensures
        read_result(names, key, None, replies) == Err::<Seq<char>, Fault>(Fault::NotFound(key)),
{
    law_missing_everywhere(names, key, replies);
}

/// A read gives the reply of the first store that has the name, if one is named, and the first
/// value that any store replies if none is.
pub proof fn law_read_by_position(
    names: Seq<Seq<char>>,
    key: Seq<char>,
    name: Seq<char>,
    replies: Seq<Result<Seq<char>, Fault>>,
    at: int,
)
    ensures
        0 <= at < names.len() && names[at] == name && (forall|j: int|
            0 <= j < at ==> #[trigger] names[j] != name) ==> read_result(
            names,
            key,
            Some(name),
            replies,
        ) == replies[at],
        (forall|j: int| 0 <= j < names.len() ==> #[trigger] names[j] != name) ==> read_result(
            names,
            key,
            Some(name),
            replies,
        ) == Err::<Seq<char>, Fault>(Fault::UnknownStore(name)),
        0 <= at < replies.len() && replies[at] is Ok && (forall|j: int|
            0 <= j < at ==> (#[trigger] replies[j]) is Err) ==> read_result(
            names,
            key,
            None,
            replies,
        ) == replies[at],
        (forall|j: int| 0 <= j < replies.len() ==> (#[trigger] replies[j]) is Err) ==> read_result(
            names,
            key,
            None,
            replies,
        ) == Err::<Seq<char>, Fault>(Fault::NotFound(key)),
{
    lemma_position_of(names, name, 0);
    if 0 <= at < replies.len() && replies[at] is Ok && (forall|j: int|
        0 <= j < at ==> (#[trigger] replies[j]) is Err) {
        law_first_store_wins(names, key, replies, at);
    }
    if forall|j: int| 0 <= j < replies.len() ==> (#[trigger] replies[j]) is Err {
        law_not_found(names, key, replies);
    }
}

/// Whether a store answers reads as a map says: it has the keys of the map and no others, with
/// their values.
pub open spec fn holds<S: SecretStore>(store: S, m: Map<Seq<char>, Seq<char>>) -> bool {
    forall|k: &str, r: Result<String, SecretError>| #[trigger]
        call_ensures(S::get, (&store, k), r) ==> match r {
            Ok(v) => m.contains_key(k@) && v@ == m[k@],
            Err(_) => !m.contains_key(k@),
        }
}

/// A read from stores that hold these secrets gives the secret of the first store that has the
/// key, and of the named store if one is named; else it says that the key or the name is not
/// there.
pub proof fn law_read_of_secrets<S: SecretStore>(
    registry: SecretRegistry<S>,
    contents: Seq<Map<Seq<char>, Seq<char>>>,
    key: Seq<char>,
    name: Seq<char>,
    replies: Seq<Result<Seq<char>, Fault>>,
    at: int,
)
    requires
        contents.len() == registry.entries().len(),
        forall|i: int|
            0 <= i < contents.len() ==> holds(registry.entries()[i].1, #[trigger] contents[i]),
    ensures
        registry.answered(key, None, replies) ==> {
            let got = read_result(registry.names(), key, None, replies);
            &&& 0 <= at < contents.len() && contents[at].contains_key(key) && (forall|j: int|
                0 <= j < at ==> !(#[trigger] contents[j]).contains_key(key)) ==> got == Ok::<
                Seq<char>,
                Fault,
            >(contents[at][key])
            &&& (forall|j: int|
                0 <= j < contents.len() ==> !(#[trigger] contents[j]).contains_key(key)) ==> got
                == Err::<Seq<char>, Fault>(Fault::NotFound(key))
        },
        registry.answered(key, Some(name), replies) ==> {
            let got = read_result(registry.names(), key, Some(name), replies);
            &&& 0 <= at < contents.len() && registry.entries()[at].0@ == name && (forall|j: int|
                0 <= j < at ==> (#[trigger] registry.entries()[j]).0@ != name) ==> (
            if contents[at].contains_key(key) {
                got == Ok::<Seq<char>, Fault>(contents[at][key])
            } else {
                got is Err
            })
            &&& (forall|j: int|
                0 <= j < contents.len() ==> (#[trigger] registry.entries()[j]).0@ != name) ==> got
                == Err::<Seq<char>, Fault>(Fault::UnknownStore(name))
        },
{
    let names = registry.names();
    lemma_position_of(names, name, 0);
    if registry.answered(key, None, replies) {
        if 0 <= at < contents.len() && contents[at].contains_key(key) && (forall|j: int|
            0 <= j < at ==> !(#[trigger] contents[j]).contains_key(key)) {
            lemma_misses(registry, contents, key, replies, at);
            assert(read_asks(names, None, replies, at));
            lemma_reply_of(registry, contents, key, replies[at], at);
            law_first_store_wins(names, key, replies, at);
        }
        if forall|j: int|
            0 <= j < contents.len() ==> !(#[trigger] contents[j]).contains_key(key) {
            lemma_misses(registry, contents, key, replies, contents.len() as int);
            law_not_found(names, key, replies);
        }
    }
    if registry.answered(key, Some(name), replies) {
        if 0 <= at < contents.len() && registry.entries()[at].0@ == name && (forall|j: int|
            0 <= j < at ==> (#[trigger] registry.entries()[j]).0@ != name) {
            assert forall|j: int| 0 <= j < at implies #[trigger] names[j] != name by {
                assert(registry.entries()[j].0@ != name);
            }
            assert(names[at] == name);
            law_named_store_alone(names, key, name, replies, at);
            assert(named_store(names, name) == Ok::<int, Fault>(at));
            assert(read_asks(names, Some(name), replies, at));
            lemma_reply_of(registry, contents, key, replies[at], at);
        }
        if forall|j: int|
            0 <= j < contents.len() ==> (#[trigger] registry.entries()[j]).0@ != name {
            if names.contains(name) {
                let j = names.index_of(name);
                assert(registry.entries()[j].0@ == name);
            }
            law_unknown_store(names, key, name, replies);
        }
    }
}

proof fn lemma_reply_of<S: SecretStore>(
    registry: SecretRegistry<S>,
    contents: Seq<Map<Seq<char>, Seq<char>>>,
    key: Seq<char>,
    reply: Result<Seq<char>, Fault>,
    at: int,
)
    requires
        0 <= at < contents.len(),
        holds(registry.entries()[at].1, contents[at]),
        registry.replied(key, at, reply),
    ensures
        contents[at].contains_key(key) ==> reply == Ok::<Seq<char>, Fault>(contents[at][key]),
        !contents[at].contains_key(key) ==> reply is Err,
{
}

proof fn lemma_misses<S: SecretStore>(
    registry: SecretRegistry<S>,
    contents: Seq<Map<Seq<char>, Seq<char>>>,
    key: Seq<char>,
    replies: Seq<Result<Seq<char>, Fault>>,
    upto: int,
)
    requires
        0 <= upto <= contents.len(),
        contents.len() == registry.entries().len(),
        forall|i: int|
            0 <= i < contents.len() ==> holds(registry.entries()[i].1, #[trigger] contents[i]),
        forall|j: int| 0 <= j < upto ==> !(#[trigger] contents[j]).contains_key(key),
        registry.answered(key, None, replies),
    ensures
        forall|j: int| 0 <= j < upto ==> (#[trigger] replies[j]) is Err,
    decreases upto,
{
    if upto > 0 {
        lemma_misses(registry, contents, key, replies, upto - 1);
        assert(read_asks(registry.names(), None, replies, upto - 1));
        assert(!contents[upto - 1].contains_key(key));
        lemma_reply_of(registry, contents, key, replies[upto - 1], upto - 1);
    }
}

/// What counts as the reply of a store is what that store returned for exactly the key that was
/// asked for: its whole value, or its own fault.
pub proof fn law_reply_is_the_stores<S: SecretStore>(
    registry: SecretRegistry<S>,
    key: Seq<char>,
    at: int,
    reply: Result<Seq<char>, Fault>,
)
    requires
        registry.replied(key, at, reply),
    ensures
        exists|k: &str, r: Result<String, SecretError>| #[trigger]
            call_ensures(S::get, (&registry.entries()[at].1, k), r) && k@ == key && match r {
                Ok(v) => reply == Ok::<Seq<char>, Fault>(v@),
                Err(e) => reply == Err::<Seq<char>, Fault>(e@),
            },
{
}

/// The first store that has the name is asked, if one is named; without a name every store is asked
/// before which no store has the key.
pub proof fn law_stores_are_asked<S: SecretStore>(
    registry: SecretRegistry<S>,
    key: Seq<char>,
    name: Seq<char>,
    replies: Seq<Result<Seq<char>, Fault>>,
    at: int,
)
    requires
        0 <= at < registry.entries().len(),
    ensures
        registry.answered(key, Some(name), replies) && registry.entries()[at].0@ == name && (forall|
            j: int,
        |
            0 <= j < at ==> (#[trigger] registry.entries()[j]).0@ != name) ==> registry.replied(
            key,
            at,
            replies[at],
        ),
        registry.answered(key, None, replies) && (forall|j: int|
            0 <= j < at ==> (#[trigger] replies[j]) is Err) ==> registry.replied(
            key,
            at,
            replies[at],
        ),
        registry.answered(key, None, replies) ==> replies.len() == registry.entries().len(),
{
    let names = registry.names();
    lemma_position_of(names, name, 0);
    if registry.entries()[at].0@ == name && (forall|j: int|
        0 <= j < at ==> (#[trigger] registry.entries()[j]).0@ != name) {
        assert forall|j: int| 0 <= j < at implies #[trigger] names[j] != name by {
            assert(registry.entries()[j].0@ != name);
        }
        assert(names[at] == name);
        assert(read_asks(names, Some(name), replies, at));
    }
    if forall|j: int| 0 <= j < at ==> (#[trigger] replies[j]) is Err {
        assert(read_asks(names, None, replies, at));
    }
}

/// A step of a read names the store to ask and whether to go on, or what is returned, whole.
pub proof fn law_read_step(at: ReadAt, value: String, e: SecretError)
    ensures
        ReadStep::Ask(at)@ == ReadView::Ask(at.store as int, at.cascade),
        ReadStep::Done(Ok(value))@ == ReadView::Done(Ok(value@)),
        ReadStep::Done(Err(e))@ == ReadView::Done(Err(e@)),
{
}

} // verus!
