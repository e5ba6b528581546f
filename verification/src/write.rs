//! Writing and deleting secrets: in the named store, or in the first.

use vstd::prelude::*;
use crate::error::{unit_outcome, Fault, SecretError};
use crate::key::{law_key_fault, law_uppercase_key, valid_key};
use crate::registry::{law_set_plan, set_plan, write_target, SecretRegistry, SecretStore};
use crate::text::{opt_text, uppercase};

verus! {

impl<S: SecretStore> SecretRegistry<S> {
    /// Whether `outcome` may come of storing a value under a key. A store that is asked is handed
    /// the key in capitals and the value, and decides.
    pub open spec fn stored(
        &self,
        key: Seq<char>,
        value: Seq<char>,
        store: Option<Seq<char>>,
        outcome: Result<(), Fault>,
    ) -> bool {
        match set_plan(self.names(), key, store) {
            Ok((at, stored)) => exists|k: &str, v: &str, r: Result<(), SecretError>|
                k@ == stored && v@ == value && #[trigger] call_ensures(
                    S::set,
                    (&self.entries()[at].1, k, v),
                    r,
                ) && unit_outcome(r) == outcome,
            Err(f) => outcome == Err::<(), Fault>(f),
        }
    }

    /// Whether `outcome` may come of deleting a key. A store that is asked is handed the key as it
    /// is written, and decides.
    pub open spec fn deleted(
        &self,
        key: Seq<char>,
        store: Option<Seq<char>>,
        outcome: Result<(), Fault>,
    ) -> bool {
        match write_target(self.names(), store) {
            Ok(at) => exists|k: &str, r: Result<(), SecretError>|
                k@ == key && #[trigger] call_ensures(S::delete, (&self.entries()[at].1, k), r)
                    && unit_outcome(r) == outcome,
            Err(f) => outcome == Err::<(), Fault>(f),
        }
    }

    /// Stores a value under a key in capitals: in the named store, or in the first. The store
    /// decides what is returned, unless the key is invalid or there is no such store.
    pub fn set(&self, key: &str, value: &str, store: Option<&str>) -> (r: Result<(), SecretError>)
        ensures
            self.stored(key@, value@, opt_text(store), unit_outcome(r)),
    {
        match self.plan_set(key, store) {
            Ok((s, k)) => {
                let normalized = k.as_str();
                let r = s.set(normalized, value);
                assert(call_ensures(S::set, (s, normalized, value), r));
                r
            },
            Err(e) => Err(e),
        }
    }

    /// Deletes a key, as it is written: from the named store, or from the first. The store
    /// decides what is returned, unless there is no such store.
    pub fn delete(&self, key: &str, store: Option<&str>) -> (r: Result<(), SecretError>)
        ensures
            self.deleted(key@, opt_text(store), unit_outcome(r)),
    {
        match self.named_or_first(store) {
            Ok(s) => {
                let r = s.delete(key);
                assert(call_ensures(S::delete, (s, key), r));
                r
            },
            Err(e) => Err(e),
        }
    }
}

/// Every key that is handed to a store is valid and in capitals.
pub proof fn law_stored_keys(names: Seq<Seq<char>>, key: Seq<char>, store: Option<Seq<char>>)
    ensures
        set_plan(names, key, store) matches Ok((at, stored)) ==> {
            &&& valid_key(key)
            &&& valid_key(stored)
            &&& stored == uppercase(key)
            &&& uppercase(stored) == stored
        },
{
    law_key_fault(key);
    law_uppercase_key(key);
}

/// Writing again under the key that was stored changes nothing about where it is stored.
pub proof fn law_stored_key_is_stable(
    names: Seq<Seq<char>>,
    key: Seq<char>,
    store: Option<Seq<char>>,
)
    ensures
        set_plan(names, key, store) matches Ok((at, stored)) ==> set_plan(names, stored, store)
            == Ok::<(int, Seq<char>), Fault>((at, stored)),
{
    law_stored_keys(names, key, store);
    law_key_fault(uppercase(key));
}

/// Without a store name a write goes to the first store, whatever the others are called.
pub proof fn law_default_target(names: Seq<Seq<char>>)
    ensures
        names.len() > 0 ==> write_target(names, None) == Ok::<int, Fault>(0),
        names.len() == 0 ==> write_target(names, None) == Err::<int, Fault>(Fault::NoStores),
{
}

/// A valid key is handed, with the value, to the store that the write goes to, and that store
/// decides: the key that it gets has the length of the one that was given and its characters, but
/// for the small letters, which are capitals; the value that it gets is the whole value.
pub proof fn law_store_is_handed<S: SecretStore>(
    registry: SecretRegistry<S>,
    key: Seq<char>,
    value: Seq<char>,
    store: Option<Seq<char>>,
    outcome: Result<(), Fault>,
    at: int,
)
    requires
        registry.stored(key, value, store, outcome),
        valid_key(key),
        write_target(registry.names(), store) == Ok::<int, Fault>(at),
    ensures
        exists|k: &str, v: &str, r: Result<(), SecretError>|
            {
                &&& #[trigger] call_ensures(S::set, (&registry.entries()[at].1, k, v), r)
                &&& k@.len() == key.len()
                &&& forall|i: int|
                    0 <= i < key.len() ==> (#[trigger] k@[i]) as int == (if 97 <= key[i] as int
                        <= 122 {
                        key[i] as int - 32
                    } else {
                        key[i] as int
                    })
                &&& v@ == value
                &&& unit_outcome(r) == outcome
            },
{
    law_set_plan(registry.names(), key, store);
}

/// A write that no store can take comes to the fault of the key or else of the target.
pub proof fn law_refused_write<S: SecretStore>(
    registry: SecretRegistry<S>,
    key: Seq<char>,
    value: Seq<char>,
    store: Option<Seq<char>>,
    outcome: Result<(), Fault>,
)
    requires
        registry.stored(key, value, store, outcome),
        !valid_key(key) || write_target(registry.names(), store) is Err,
    ensures
        outcome is Err,
        valid_key(key) ==> outcome == Err::<(), Fault>(
            write_target(registry.names(), store)->Err_0,
        ),
        !valid_key(key) ==> outcome == Err::<(), Fault>(Fault::EmptyKey) || (outcome matches Err(
            Fault::InvalidKey(k, _),
        ) && k == key),
{
    law_set_plan(registry.names(), key, store);
}

/// A deletion hands the key, as it is written, to the store that it goes to, and that store
/// decides; without such a store it comes to the fault of the target.
pub proof fn law_deletion_is_handed<S: SecretStore>(
    registry: SecretRegistry<S>,
    key: Seq<char>,
    store: Option<Seq<char>>,
    outcome: Result<(), Fault>,
)
    requires
        registry.deleted(key, store, outcome),
    ensures
        match write_target(registry.names(), store) {
            Ok(at) => exists|k: &str, r: Result<(), SecretError>| #[trigger]
                call_ensures(S::delete, (&registry.entries()[at].1, k), r) && k@ == key
                    && unit_outcome(r) == outcome,
            Err(f) => outcome == Err::<(), Fault>(f),
        },
{
}

} // verus!
