//! An ordered collection of named secret stores.
//!
//! The order of the stores is the order of precedence: a read asks one store after another and
//! the first that has the key wins; a write goes to the first store. Naming a store overrides
//! both.
//!
//! The operations come in two forms. `get`, `set`, `list`, `delete` and `inject` call stores that
//! implement `SecretStore`. The functions that return steps ask nothing themselves: they say
//! which store to ask next, take its reply, and go on, so that stores of any kind can be asked.

use vstd::prelude::*;
use crate::error::{Fault, SecretError};
use crate::key::{key_fault, law_key_fault, valid_key, validate_key};
use crate::read::lemma_position_of;
use crate::text::{law_capitals, opt_text, same_text, to_uppercase, uppercase};

verus! {

/// A place that keeps secrets by key.
pub trait SecretStore {
    /// The value of a key.
    fn get(&self, key: &str) -> Result<String, SecretError>;

    /// Stores a value under a key.
    fn set(&self, key: &str, value: &str) -> Result<(), SecretError>;

    /// The keys that have a value.
    fn list(&self) -> Result<Vec<String>, SecretError>;

    /// Removes a key and its value.
    fn delete(&self, key: &str) -> Result<(), SecretError>;
}

/// A store of which it is known what kind of store it is.
pub trait Backend {
    /// The kind of store, such as `local` or `external`.
    fn backend(&self) -> &str;
}

/// Named stores in order of precedence.
pub struct SecretRegistry<S> {
    stores: Vec<(String, S)>,
}

/// A configured store, for display.
#[derive(Debug, Clone)]
pub struct StoreInfo {
    /// The name of the store.
    pub name: String,
    /// What kind of store it is.
    pub backend: String,
    /// Whether writes go to this store when none is named.
    pub is_default: bool,
}

/// The first position at or after `from` at which `name` stands.
pub open spec fn position_of(names: Seq<Seq<char>>, name: Seq<char>, from: int) -> Option<int>
    decreases names.len() - from,
{
    if from >= names.len() {
        None
    } else if names[from] == name {
        Some(from)
    } else {
        position_of(names, name, from + 1)
    }
}

/// The position of the first store with a name.
pub open spec fn named_store(names: Seq<Seq<char>>, name: Seq<char>) -> Result<int, Fault> {
    match position_of(names, name, 0) {
        Some(i) => Ok(i),
        None => Err(Fault::UnknownStore(name)),
    }
}

/// The position of the store that a write goes to: the named one, or the first.
pub open spec fn write_target(names: Seq<Seq<char>>, store: Option<Seq<char>>) -> Result<
    int,
    Fault,
> {
    match store {
        Some(name) => named_store(names, name),
        None => if names.len() > 0 {
            Ok(0)
        } else {
            Err(Fault::NoStores)
        },
    }
}

/// What a `set` does: the store that it writes to and the key that it writes, in capitals. An
/// invalid key is refused before the store is looked for.
pub open spec fn set_plan(
    names: Seq<Seq<char>>,
    key: Seq<char>,
    store: Option<Seq<char>>,
) -> Result<(int, Seq<char>), Fault> {
    match key_fault(key) {
        Some(f) => Err(f),
        None => match write_target(names, store) {
            Ok(i) => Ok((i, uppercase(key))),
            Err(f) => Err(f),
        },
    }
}

impl<S> SecretRegistry<S> {
    /// The stores with their names.
    pub closed spec fn entries(&self) -> Seq<(String, S)> {
        self.stores@
    }

    /// The names of the stores.
    pub open spec fn names(&self) -> Seq<Seq<char>> {
        self.entries().map_values(|e: (String, S)| e.0@)
    }

    /// A registry of these stores, in this order of precedence.
    pub fn new(stores: Vec<(String, S)>) -> (r: Self)
        ensures
            r.entries() == stores@,
    {
        SecretRegistry { stores }
    }

    /// The stores with their names, in order.
    pub fn into_stores(self) -> (r: Vec<(String, S)>)
        ensures
            r@ == self.entries(),
    {
        self.stores
    }

    /// How many stores there are.
    pub fn len(&self) -> (r: usize)
        ensures
            r == self.entries().len(),
    {
        self.stores.len()
    }

    /// The store at a position.
    pub fn store_at(&self, at: usize) -> (r: &S)
        requires
            at < self.entries().len(),
        ensures
            *r == self.entries()[at as int].1,
    {
        &self.stores[at].1
    }

    /// The position of the first store with a name.
    pub(crate) fn position(&self, name: &str) -> (r: Result<usize, SecretError>)
        ensures
            match r {
                Ok(i) => named_store(self.names(), name@) == Ok::<int, Fault>(i as int) && i
                    < self.entries().len(),
                Err(e) => named_store(self.names(), name@) == Err::<int, Fault>(e@),
            },
    {
        let mut i: usize = 0;
        while i < self.stores.len()
            invariant
                i <= self.stores.len(),
                position_of(self.names(), name@, 0) == position_of(self.names(), name@, i as int),
            decreases self.stores.len() - i,
        {
            if same_text(self.stores[i].0.as_str(), name) {
                return Ok(i);
            }
            i += 1;
        }
        Err(SecretError::UnknownStore { name: name.to_owned() })
    }

    /// The first store with a name.
    pub fn named(&self, name: &str) -> (r: Result<&S, SecretError>)
        ensures
            match r {
                Ok(s) => named_store(self.names(), name@) matches Ok(i) && 0 <= i
                    < self.entries().len() && *s == self.entries()[i].1,
                Err(e) => named_store(self.names(), name@) == Err::<int, Fault>(e@),
            },
    {
        match self.position(name) {
            Ok(i) => Ok(self.store_at(i)),
            Err(e) => Err(e),
        }
    }

    /// The store that a write goes to: the named one, or the first.
    pub fn named_or_first(&self, name: Option<&str>) -> (r: Result<&S, SecretError>)
        ensures
            match r {
                Ok(s) => write_target(self.names(), opt_text(name)) matches Ok(i) && 0 <= i
                    < self.entries().len() && *s == self.entries()[i].1,
                Err(e) => write_target(self.names(), opt_text(name)) == Err::<int, Fault>(e@),
            },
    {
        match name {
            Some(n) => self.named(n),
            None => if self.stores.len() > 0 {
                Ok(self.store_at(0))
            } else {
                Err(SecretError::NoStores)
            },
        }
    }

    /// The store that a `set` writes to and the key that it writes.
    pub fn plan_set(&self, key: &str, store: Option<&str>) -> (r: Result<
        (&S, String),
        SecretError,
    >)
        ensures
            match r {
                Ok((s, k)) => set_plan(self.names(), key@, opt_text(store)) matches Ok((i, up)) && 0
                    <= i < self.entries().len() && *s == self.entries()[i].1 && k@ == up,
                Err(e) => set_plan(self.names(), key@, opt_text(store)) == Err::<
                    (int, Seq<char>),
                    Fault,
                >(e@),
            },
    {
        match validate_key(key) {
            Ok(()) => {},
            Err(e) => {
                return Err(e);
            },
        }
        match self.named_or_first(store) {
            Ok(s) => Ok((s, to_uppercase(key))),
            Err(e) => Err(e),
        }
    }
}

impl<S: Backend> SecretRegistry<S> {
    /// Whether the store at position `at` may tell that it is of this kind.
    pub open spec fn told(&self, at: int, backend: Seq<char>) -> bool {
        exists|b: &str| #[trigger]
            call_ensures(S::backend, (&self.entries()[at].1,), b) && b@ == backend
    }

    /// The names of the stores, the kind of each, and which one is the default.
    pub fn store_info(&self) -> (r: Vec<StoreInfo>)
        ensures
            r.len() == self.names().len(),
            forall|i: int|
                0 <= i < r.len() ==> {
                    &&& (#[trigger] r[i]).name@ == self.names()[i]
                    &&& self.told(i, r[i].backend@)
                    &&& r[i].is_default == (i == 0)
                },
    {
        let mut r: Vec<StoreInfo> = Vec::new();
        let mut i: usize = 0;
        while i < self.stores.len()
            invariant
                i <= self.stores.len(),
                r.len() == i,
                forall|j: int|
                    0 <= j < i ==> {
                        &&& (#[trigger] r[j]).name@ == self.names()[j]
                        &&& self.told(j, r[j].backend@)
                        &&& r[j].is_default == (j == 0)
                    },
            decreases self.stores.len() - i,
        {
            let backend = self.stores[i].1.backend();
            assert(call_ensures(S::backend, (&self.entries()[i as int].1,), backend));
            r.push(
                StoreInfo {
                    name: self.stores[i].0.clone(),
                    backend: backend.to_owned(),
                    is_default: i == 0,
                },
            );
            i += 1;
        }
        r
    }
}

/// The names are those that the registry was made with, in order.
pub proof fn law_names<S>(registry: SecretRegistry<S>, i: int)
    ensures
        registry.names().len() == registry.entries().len(),
        0 <= i < registry.entries().len() ==> registry.names()[i] == registry.entries()[i].0@,
{
}

/// A name leads to the first store that has it, wherever that store stands and whatever the name
/// is, and a name that no store has leads nowhere. Without a name a write goes to the first store.
pub proof fn law_target_by_position(names: Seq<Seq<char>>, name: Seq<char>, at: int)
    ensures
        0 <= at < names.len() && names[at] == name && (forall|j: int|
            0 <= j < at ==> #[trigger] names[j] != name) ==> {
            &&& named_store(names, name) == Ok::<int, Fault>(at)
            &&& write_target(names, Some(name)) == Ok::<int, Fault>(at)
        },
        (forall|j: int| 0 <= j < names.len() ==> #[trigger] names[j] != name) ==> {
            &&& named_store(names, name) == Err::<int, Fault>(Fault::UnknownStore(name))
            &&& write_target(names, Some(name)) == Err::<int, Fault>(Fault::UnknownStore(name))
        },
        names.len() > 0 ==> write_target(names, None) == Ok::<int, Fault>(0),
        names.len() == 0 ==> write_target(names, None) == Err::<int, Fault>(Fault::NoStores),
{
    lemma_position_of(names, name, 0);
}

/// A write of a key of digits, letters and underscores goes to the target of the write, under the
/// key in capitals; any other key is refused, whatever the target.
pub proof fn law_set_plan(names: Seq<Seq<char>>, key: Seq<char>, store: Option<Seq<char>>)
    ensures
        valid_key(key) ==> match write_target(names, store) {
            Ok(at) => set_plan(names, key, store) matches Ok((i, stored)) && i == at && stored.len()
                == key.len() && forall|k: int|
                0 <= k < key.len() ==> (#[trigger] stored[k]) as int == (if 97 <= key[k] as int
                    <= 122 {
                    key[k] as int - 32
                } else {
                    key[k] as int
                }),
            Err(f) => set_plan(names, key, store) == Err::<(int, Seq<char>), Fault>(f),
        },
        !valid_key(key) ==> (set_plan(names, key, store) matches Err(f) && (f == Fault::EmptyKey
            || (f matches Fault::InvalidKey(k, _) && k == key))),
{
    law_key_fault(key);
    if valid_key(key) {
        assert forall|k: int| 0 <= k < key.len() implies (#[trigger] uppercase(key)[k]) as int == (
        if 97 <= key[k] as int <= 122 {
            key[k] as int - 32
        } else {
            key[k] as int
        }) by {
            law_capitals(key, k);
        }
        if key.len() > 0 {
            law_capitals(key, 0);
        }
    }
}

/// What the registry tells of the kind of a store is what the store tells.
pub proof fn law_kind_told<S: Backend>(
    registry: SecretRegistry<S>,
    at: int,
    backend: Seq<char>,
    kind: Seq<char>,
)
    requires
        registry.told(at, backend),
        forall|b: &str| #[trigger]
            call_ensures(S::backend, (&registry.entries()[at].1,), b) ==> b@ == kind,
    ensures
        backend == kind,
{
}

} // verus!
