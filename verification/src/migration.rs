//! Moving credentials from the configuration into the secret store.
//!
//! Four credentials can stand in the configuration: the provider's API key and the tokens of three
//! channels. Each that is there and not empty is stored under a reserved key in the default store,
//! and is then removed from the configuration. A store that refuses one ends the migration; what
//! was moved before stays moved. The configuration is saved once, if anything was moved.

use vstd::prelude::*;
use crate::config::{ChannelConfig, Config};
use crate::error::{unit_outcome, Fault, SecretError};
use crate::key::{internal_key, valid_key};
use crate::registry::{SecretRegistry, SecretStore};
use crate::text::{opt_string, opt_text, uppercase};

verus! {

/// The token of a channel, if the channel is configured.
pub open spec fn channel_token(channel: Option<ChannelConfig>) -> Option<Seq<char>> {
    match channel {
        Some(c) => Some(c.bot_token@),
        None => None,
    }
}

/// The credentials in the configuration, in the order in which they are moved.
pub open spec fn credentials(c: Config) -> Seq<Option<Seq<char>>> {
    seq![
        opt_string(c.api_key),
        channel_token(c.channels_config.telegram),
        channel_token(c.channels_config.discord),
        channel_token(c.channels_config.slack),
    ]
}

/// The keys under which the credentials are stored, in the same order.
pub open spec fn reserved_keys() -> Seq<Seq<char>> {
    seq!["__API_KEY"@, "__TELEGRAM_TOKEN"@, "__DISCORD_TOKEN"@, "__SLACK_TOKEN"@]
}

/// What stands in the configuration in place of a credential that was moved: no API key, or an
/// empty token.
pub open spec fn emptied(slot: int) -> Option<Seq<char>> {
    if slot == 0 {
        None
    } else {
        Some(Seq::empty())
    }
}

/// Whether a credential is there to be moved.
pub open spec fn pending(creds: Seq<Option<Seq<char>>>, slot: int) -> bool {
    creds[slot] matches Some(text) && text.len() > 0
}

/// The first credential at or after `from` that is there to be moved.
pub open spec fn next_pending(creds: Seq<Option<Seq<char>>>, from: int) -> Option<int>
    decreases creds.len() - from,
{
    if from >= creds.len() {
        None
    } else if pending(creds, from) {
        Some(from)
    } else {
        next_pending(creds, from + 1)
    }
}

/// How many of the credentials before `upto` are there to be moved.
pub open spec fn pending_count(creds: Seq<Option<Seq<char>>>, upto: int) -> int
    decreases upto,
{
    if upto <= 0 {
        0
    } else if pending(creds, upto - 1) {
        pending_count(creds, upto - 1) + 1
    } else {
        pending_count(creds, upto - 1)
    }
}

/// The credentials that are left once those before `upto` were moved.
pub open spec fn left(creds: Seq<Option<Seq<char>>>, upto: int) -> Seq<Option<Seq<char>>> {
    Seq::new(
        creds.len(),
        |i: int|
            if i < upto && pending(creds, i) {
                emptied(i)
            } else {
                creds[i]
            },
    )
}

/// The first credential at or after `from` that is there to be moved and that the store refuses,
/// where `replies` holds what the store replies for each credential.
pub open spec fn first_refused(
    creds: Seq<Option<Seq<char>>>,
    replies: Seq<Result<(), Fault>>,
    from: int,
) -> Option<int>
    decreases creds.len() - from,
{
    if from >= creds.len() {
        None
    } else if pending(creds, from) && replies[from] is Err {
        Some(from)
    } else {
        first_refused(creds, replies, from + 1)
    }
}

/// The credentials that are left after a migration: those that come before the first one that
/// the store refuses are moved.
pub open spec fn credentials_left(
    creds: Seq<Option<Seq<char>>>,
    replies: Seq<Result<(), Fault>>,
) -> Seq<Option<Seq<char>>> {
    match first_refused(creds, replies, 0) {
        Some(slot) => left(creds, slot),
        None => left(creds, creds.len() as int),
    }
}

/// Whether a migration asks the store to keep the credential at `slot`.
pub open spec fn stores_credential(
    creds: Seq<Option<Seq<char>>>,
    replies: Seq<Result<(), Fault>>,
    slot: int,
) -> bool {
    &&& 0 <= slot < creds.len()
    &&& pending(creds, slot)
    &&& forall|j: int| 0 <= j < slot && #[trigger] pending(creds, j) ==> replies[j] is Ok
}

/// Whether a migration saves the configuration: if something was moved and nothing was refused.
pub open spec fn saves_config(
    creds: Seq<Option<Seq<char>>>,
    replies: Seq<Result<(), Fault>>,
) -> bool {
    first_refused(creds, replies, 0) is None && pending_count(creds, creds.len() as int) > 0
}

/// What a migration returns, where `saved` is what saving the configuration comes to.
pub open spec fn migration_result(
    creds: Seq<Option<Seq<char>>>,
    replies: Seq<Result<(), Fault>>,
    saved: Result<(), Fault>,
) -> Result<int, Fault> {
    match first_refused(creds, replies, 0) {
        Some(slot) => Err(replies[slot]->Err_0),
        None => if saves_config(creds, replies) && saved is Err {
            Err(saved->Err_0)
        } else {
            Ok(pending_count(creds, creds.len() as int))
        },
    }
}

/// Where a migration is: the credential that is being stored, and how many were moved before.
pub struct MigrationAt {
    pub slot: usize,
    pub migrated: usize,
}

/// What a migration does next: store a credential under a key in the default store, save the
/// configuration, or return.
pub enum MigrationStep {
    Store { at: MigrationAt, key: String, value: String },
    Save { migrated: usize },
    Done(Result<usize, SecretError>),
}

/// What a migration does next, over texts.
pub enum MigrationView {
    Store { slot: int, migrated: int, key: Seq<char>, value: Seq<char> },
    Save { migrated: int },
    Done(Result<int, Fault>),
}

/// The number of credentials moved or a fault.
pub open spec fn count_outcome(r: Result<usize, SecretError>) -> Result<int, Fault> {
    match r {
        Ok(n) => Ok(n as int),
        Err(e) => Err(e@),
    }
}

impl View for MigrationStep {
    type V = MigrationView;

    open spec fn view(&self) -> MigrationView {
        match self {
            MigrationStep::Store { at, key, value } => MigrationView::Store {
                slot: at.slot as int,
                migrated: at.migrated as int,
                key: key@,
                value: value@,
            },
            MigrationStep::Save { migrated } => MigrationView::Save { migrated: *migrated as int },
            MigrationStep::Done(r) => MigrationView::Done(count_outcome(*r)),
        }
    }
}

/// How a migration goes on at `from`, once `migrated` credentials were moved.
pub open spec fn migration_from(
    creds: Seq<Option<Seq<char>>>,
    from: int,
    migrated: int,
) -> MigrationView {
    match next_pending(creds, from) {
        Some(slot) => MigrationView::Store {
            slot,
            migrated,
            key: reserved_keys()[slot],
            value: creds[slot]->0,
        },
        None => if migrated > 0 {
            MigrationView::Save { migrated }
        } else {
            MigrationView::Done(Ok(0))
        },
    }
}

/// The credentials that are left once the store has replied for the one at `slot`.
pub open spec fn after_reply(
    creds: Seq<Option<Seq<char>>>,
    slot: int,
    reply: Result<(), Fault>,
) -> Seq<Option<Seq<char>>> {
    match reply {
        Ok(()) => creds.update(slot, emptied(slot)),
        Err(_) => creds,
    }
}

/// How a migration goes on once the store has replied for the credential at `slot`.
pub open spec fn migration_next(
    creds: Seq<Option<Seq<char>>>,
    slot: int,
    migrated: int,
    reply: Result<(), Fault>,
) -> MigrationView {
    match reply {
        Ok(()) => migration_from(after_reply(creds, slot, reply), slot + 1, migrated + 1),
        Err(f) => MigrationView::Done(Err(f)),
    }
}

/// What a migration returns once saving the configuration came to `saved`.
pub open spec fn migration_end(migrated: int, saved: Result<(), Fault>) -> Result<int, Fault> {
    match saved {
        Ok(()) => Ok(migrated),
        Err(f) => Err(f),
    }
}

/// What comes of a migration that is at `step` and goes on until it returns: the credentials that
/// are left, and what is returned.
pub open spec fn migration_run(
    creds: Seq<Option<Seq<char>>>,
    step: MigrationView,
    replies: Seq<Result<(), Fault>>,
    saved: Result<(), Fault>,
) -> (Seq<Option<Seq<char>>>, Result<int, Fault>)
    decreases
            (match step {
                MigrationView::Store { slot, .. } => creds.len() + 2 - slot,
                _ => 0,
            }),
{
    match step {
        MigrationView::Done(r) => (creds, r),
        MigrationView::Save { migrated } => (creds, migration_end(migrated, saved)),
        MigrationView::Store { slot, migrated, .. } => if 0 <= slot < creds.len() {
            proof {
                lemma_next_pending(after_reply(creds, slot, replies[slot]), slot + 1);
            }
            migration_run(
                after_reply(creds, slot, replies[slot]),
                migration_next(creds, slot, migrated, replies[slot]),
                replies,
                saved,
            )
        } else {
            (creds, Ok(migrated))
        },
    }
}

/// Everything in the configuration but the credentials is as before.
pub open spec fn same_but_credentials(a: Config, b: Config) -> bool {
    &&& a.in_directory == b.in_directory
    &&& a.secrets == b.secrets
    &&& a.channels_config.telegram is Some == b.channels_config.telegram is Some
    &&& a.channels_config.discord is Some == b.channels_config.discord is Some
    &&& a.channels_config.slack is Some == b.channels_config.slack is Some
}

/// The credential at `slot`.
fn credential(config: &Config, slot: usize) -> (r: Option<&str>)
    requires
        slot < 4,
    ensures
        opt_text(r) == credentials(*config)[slot as int],
{
    if slot == 0 {
        return match &config.api_key {
            Some(key) => Some(key.as_str()),
            None => None,
        };
    }
    let channel = if slot == 1 {
        &config.channels_config.telegram
    } else if slot == 2 {
        &config.channels_config.discord
    } else {
        &config.channels_config.slack
    };
    match channel {
        Some(c) => Some(c.bot_token.as_str()),
        None => None,
    }
}

/// The key under which the credential at `slot` is stored.
fn reserved_key(slot: usize) -> (r: &'static str)
    requires
        slot < 4,
    ensures
        r@ == reserved_keys()[slot as int],
{
    if slot == 0 {
        "__API_KEY"
    } else if slot == 1 {
        "__TELEGRAM_TOKEN"
    } else if slot == 2 {
        "__DISCORD_TOKEN"
    } else {
        "__SLACK_TOKEN"
    }
}

/// Removes the credential at `slot`.
fn empty_credential(config: &mut Config, slot: usize)
    requires
        slot < 4,
        credentials(*old(config))[slot as int] is Some,
    ensures
        credentials(*final(config)) == credentials(*old(config)).update(
            slot as int,
            emptied(slot as int),
        ),
        same_but_credentials(*final(config), *old(config)),
{
    if slot == 0 {
        config.api_key = None;
    } else {
        let empty = Some(ChannelConfig { bot_token: String::new() });
        if slot == 1 {
            config.channels_config.telegram = empty;
        } else if slot == 2 {
            config.channels_config.discord = empty;
        } else {
            config.channels_config.slack = empty;
        }
    }
}

/// How a migration goes on at `from`, once `migrated` credentials were moved.
fn continue_migration(config: &Config, from: usize, migrated: usize) -> (r: MigrationStep)
    requires
        from <= 4,
        migrated <= from,
    ensures
        r@ == migration_from(credentials(*config), from as int, migrated as int),
        r matches MigrationStep::Store { at, .. } ==> at.slot < 4 && at.migrated <= at.slot,
{
    let ghost creds = credentials(*config);
    let mut slot: usize = from;
    while slot < 4
        invariant
            from <= slot <= 4,
            migrated <= from,
            creds == credentials(*config),
            next_pending(creds, from as int) == next_pending(creds, slot as int),
        decreases 4 - slot,
    {
        if let Some(text) = credential(config, slot) {
            if !text.is_empty() {
                return MigrationStep::Store {
                    at: MigrationAt { slot, migrated },
                    key: reserved_key(slot).to_owned(),
                    value: text.to_owned(),
                };
            }
        }
        slot += 1;
    }
    if migrated > 0 {
        MigrationStep::Save { migrated }
    } else {
        MigrationStep::Done(Ok(0))
    }
}

/// Begins a migration.
pub fn start_migration(config: &Config) -> (r: MigrationStep)
    ensures
        r@ == migration_from(credentials(*config), 0, 0),
        r matches MigrationStep::Store { at, .. } ==> at.slot < 4 && at.migrated <= at.slot,
{
    continue_migration(config, 0, 0)
}

/// Goes on with a migration once the store has replied.
pub fn resume_migration(
    config: &mut Config,
    at: MigrationAt,
    reply: Result<(), SecretError>,
) -> (r: MigrationStep)
    requires
        at.slot < 4,
        at.migrated <= at.slot,
        pending(credentials(*old(config)), at.slot as int),
    ensures
        credentials(*final(config)) == after_reply(
            credentials(*old(config)),
            at.slot as int,
            unit_outcome(reply),
        ),
        same_but_credentials(*final(config), *old(config)),
        reply is Err ==> *final(config) == *old(config),
        r@ == migration_next(
            credentials(*old(config)),
            at.slot as int,
            at.migrated as int,
            unit_outcome(reply),
        ),
        r matches MigrationStep::Store { at, .. } ==> at.slot < 4 && at.migrated <= at.slot,
{
    match reply {
        Err(e) => MigrationStep::Done(Err(e)),
        Ok(()) => {
            empty_credential(config, at.slot);
            continue_migration(config, at.slot + 1, at.migrated + 1)
        },
    }
}

/// What a migration returns once the configuration was saved.
pub fn finish_migration(migrated: usize, saved: Result<(), SecretError>) -> (r: Result<
    usize,
    SecretError,
>)
    ensures
        count_outcome(r) == migration_end(migrated as int, unit_outcome(saved)),
{
    match saved {
        Ok(()) => Ok(migrated),
        Err(e) => Err(e),
    }
}

/// Whether `replies` holds, for each credential that a migration stores, what came of it.
pub open spec fn all_stored<S: SecretStore>(
    registry: SecretRegistry<S>,
    creds: Seq<Option<Seq<char>>>,
    replies: Seq<Result<(), Fault>>,
) -> bool {
    &&& replies.len() == creds.len()
    &&& forall|slot: int| #[trigger]
        stores_credential(creds, replies, slot) ==> registry.stored(
            reserved_keys()[slot],
            creds[slot]->0,
            None,
            replies[slot],
        )
}

/// Whether `outcome` may come of saving the configuration.
pub open spec fn config_saved<F: Fn(&Config) -> Result<(), SecretError>>(
    save: F,
    config: Config,
    outcome: Result<(), Fault>,
) -> bool {
    exists|r: Result<(), SecretError>| #[trigger]
        call_ensures(save, (&config,), r) && unit_outcome(r) == outcome
}

/// Whether `config` is to be saved in a migration that began with `before`: something was moved,
/// nothing was refused, and `config` is what is left.
pub open spec fn save_due<S: SecretStore>(
    registry: SecretRegistry<S>,
    before: Config,
    config: Config,
) -> bool {
    exists|replies: Seq<Result<(), Fault>>|
        {
            &&& #[trigger] all_stored(registry, credentials(before), replies)
            &&& saves_config(credentials(before), replies)
            &&& credentials(config) == credentials_left(credentials(before), replies)
            &&& same_but_credentials(config, before)
        }
}

/// Moves the credentials from the configuration into the default store, and saves the
/// configuration if any was moved. Returns how many were moved. Only a configuration that is to be
/// saved is handed to `save`.
pub fn migrate_config_credentials<S: SecretStore, F: Fn(&Config) -> Result<(), SecretError>>(
    config: &mut Config,
    registry: &SecretRegistry<S>,
    save: F,
) -> (r: Result<usize, SecretError>)
    requires
        forall|c: &Config|
            save_due(*registry, *old(config), *c) ==> #[trigger] call_requires(save, (c,)),
    ensures
        exists|replies: Seq<Result<(), Fault>>, saved: Result<(), Fault>|
            {
                &&& #[trigger] all_stored(*registry, credentials(*old(config)), replies)
                &&& count_outcome(r) == #[trigger] migration_result(
                    credentials(*old(config)),
                    replies,
                    saved,
                )
                &&& credentials(*final(config)) == credentials_left(
                    credentials(*old(config)),
                    replies,
                )
                &&& saves_config(credentials(*old(config)), replies) ==> config_saved(
                    save,
                    *final(config),
                    saved,
                )
            },
        same_but_credentials(*final(config), *old(config)),
{
    let ghost before = *config;
    let ghost creds = credentials(before);
    let ghost mut replies: Seq<Result<(), Fault>> = Seq::new(4, |i: int| Ok(()));
    let mut step = start_migration(config);
    proof {
        lemma_next_pending(creds, 0);
        assert(left(creds, 0) =~= creds);
        if let Some(slot) = next_pending(creds, 0) {
            lemma_none_pending(creds, 0, slot);
        } else {
            lemma_none_pending(creds, 0, 4);
            lemma_kept(*registry, creds, replies);
            assert(left(creds, 4) =~= creds);
        }
    }
    loop
        invariant
            before == *old(config),
            creds == credentials(before),
            creds.len() == 4,
            replies.len() == 4,
            forall|c: &Config|
                save_due(*registry, before, *c) ==> #[trigger] call_requires(save, (c,)),
            same_but_credentials(*config, before),
            step matches MigrationStep::Store { at, key, value } ==> {
                &&& at.slot < 4
                &&& at.migrated <= at.slot
                &&& pending(creds, at.slot as int)
                &&& key@ == reserved_keys()[at.slot as int]
                &&& value@ == creds[at.slot as int]->0
                &&& credentials(*config) == left(creds, at.slot as int)
                &&& at.migrated == pending_count(creds, at.slot as int)
                &&& kept(*registry, creds, replies, at.slot as int)
            },
            step matches MigrationStep::Save { migrated } ==> {
                &&& migrated > 0
                &&& credentials(*config) == left(creds, 4)
                &&& migrated == pending_count(creds, 4)
                &&& kept(*registry, creds, replies, 4)
            },
            step matches MigrationStep::Done(r) ==> {
                &&& all_stored(*registry, creds, replies)
                &&& !saves_config(creds, replies)
                &&& credentials(*config) == credentials_left(creds, replies)
                &&& count_outcome(r) == migration_result(creds, replies, Ok(()))
            },
        decreases
                (match step {
                    MigrationStep::Store { at, .. } => 6 - at.slot,
                    MigrationStep::Save { .. } => 1,
                    MigrationStep::Done(_) => 0,
                }),
    {
        match step {
            MigrationStep::Done(r) => {
                return r;
            },
            MigrationStep::Save { migrated } => {
                let current: &Config = &*config;
                proof {
                    lemma_kept(*registry, creds, replies);
                    assert(save_due(*registry, before, *current));
                }
                let saved = save(current);
                proof {
                    assert(config_saved(save, *config, unit_outcome(saved)));
                    let result = migration_result(creds, replies, unit_outcome(saved));
                }
                return finish_migration(migrated, saved);
            },
            MigrationStep::Store { at, key, value } => {
                let reply = registry.set(key.as_str(), value.as_str(), None);
                let ghost slot = at.slot as int;
                let ghost earlier = replies;
                proof {
                    replies = earlier.update(slot, unit_outcome(reply));
                    assert forall|j: int| 0 <= j < slot && #[trigger] pending(creds, j) implies {
                        &&& replies[j] is Ok
                        &&& registry.stored(reserved_keys()[j], creds[j]->0, None, replies[j])
                    } by {
                        assert(replies[j] == earlier[j]);
                    }
                    lemma_next_pending(creds, slot + 1);
                }
                step = resume_migration(config, at, reply);
                proof {
                    if reply is Err {
                        lemma_refused(creds, replies, 0, slot);
                        assert(all_stored(*registry, creds, replies));
                    } else {
                        assert(kept(*registry, creds, replies, slot + 1));
                        assert(left(creds, slot).update(slot, emptied(slot)) =~= left(
                            creds,
                            slot + 1,
                        ));
                        lemma_same_next(left(creds, slot + 1), creds, slot + 1);
                        match next_pending(creds, slot + 1) {
                            Some(next) => {
                                lemma_none_pending(creds, slot + 1, next);
                                assert(left(creds, slot + 1) =~= left(creds, next));
                            },
                            None => {
                                lemma_none_pending(creds, slot + 1, 4);
                                assert(left(creds, slot + 1) =~= left(creds, 4));
                            },
                        }
                    }
                }
            },
        }
    }
}

/// Whether every credential before `upto` that was there to be moved was stored.
spec fn kept<S: SecretStore>(
    registry: SecretRegistry<S>,
    creds: Seq<Option<Seq<char>>>,
    replies: Seq<Result<(), Fault>>,
    upto: int,
) -> bool {
    forall|j: int|
        0 <= j < upto && #[trigger] pending(creds, j) ==> replies[j] is Ok && registry.stored(
            reserved_keys()[j],
            creds[j]->0,
            None,
            replies[j],
        )
}

/// `next_pending` gives the first credential from `from` on that is there to be moved, if any is.
pub proof fn lemma_next_pending(creds: Seq<Option<Seq<char>>>, from: int)
    requires
        0 <= from <= creds.len(),
    ensures
        match next_pending(creds, from) {
            Some(slot) => {
                &&& from <= slot < creds.len()
                &&& pending(creds, slot)
                &&& forall|j: int| from <= j < slot ==> !#[trigger] pending(creds, j)
            },
            None => forall|j: int| from <= j < creds.len() ==> !#[trigger] pending(creds, j),
        },
    decreases creds.len() - from,
{
    if from < creds.len() && !pending(creds, from) {
        lemma_next_pending(creds, from + 1);
    }
}

/// What comes before `from` does not matter to what is pending from there on.
proof fn lemma_same_next(a: Seq<Option<Seq<char>>>, b: Seq<Option<Seq<char>>>, from: int)
    requires
        a.len() == b.len(),
        0 <= from,
        forall|i: int| from <= i < a.len() ==> #[trigger] a[i] == b[i],
    ensures
        next_pending(a, from) == next_pending(b, from),
    decreases a.len() - from,
{
    if from < a.len() {
        assert(a[from] == b[from]);
        lemma_same_next(a, b, from + 1);
    }
}

proof fn lemma_none_pending(creds: Seq<Option<Seq<char>>>, from: int, to: int)
    requires
        0 <= from <= to,
        forall|j: int| from <= j < to ==> !#[trigger] pending(creds, j),
    ensures
        pending_count(creds, to) == pending_count(creds, from),
    decreases to - from,
{
    if from < to {
        lemma_none_pending(creds, from, to - 1);
    }
}

proof fn lemma_refused(
    creds: Seq<Option<Seq<char>>>,
    replies: Seq<Result<(), Fault>>,
    from: int,
    slot: int,
)
    requires
        0 <= from <= slot < creds.len(),
        pending(creds, slot),
        replies[slot] is Err,
        forall|j: int| 0 <= j < slot && #[trigger] pending(creds, j) ==> replies[j] is Ok,
    ensures
        first_refused(creds, replies, from) == Some(slot),
    decreases slot - from,
{
    if from < slot {
        lemma_refused(creds, replies, from + 1, slot);
    }
}

proof fn lemma_not_refused(
    creds: Seq<Option<Seq<char>>>,
    replies: Seq<Result<(), Fault>>,
    from: int,
)
    requires
        0 <= from,
        forall|j: int| 0 <= j < creds.len() && #[trigger] pending(creds, j) ==> replies[j] is Ok,
    ensures
        first_refused(creds, replies, from) is None,
    decreases creds.len() - from,
{
    if from < creds.len() {
        lemma_not_refused(creds, replies, from + 1);
    }
}

proof fn lemma_kept<S: SecretStore>(
    registry: SecretRegistry<S>,
    creds: Seq<Option<Seq<char>>>,
    replies: Seq<Result<(), Fault>>,
)
    requires
        replies.len() == creds.len(),
        kept(registry, creds, replies, creds.len() as int),
    ensures
        all_stored(registry, creds, replies),
        first_refused(creds, replies, 0) is None,
{
    lemma_not_refused(creds, replies, 0);
}

/// Running the steps of a migration, one after another, leaves `credentials_left` and comes to
/// `migration_result`.
pub proof fn law_migration_steps(
    creds: Seq<Option<Seq<char>>>,
    replies: Seq<Result<(), Fault>>,
    saved: Result<(), Fault>,
)
    requires
        replies.len() == creds.len(),
    ensures
        migration_run(creds, migration_from(creds, 0, 0), replies, saved) == (
            credentials_left(creds, replies),
            migration_result(creds, replies, saved),
        ),
{
    assert(left(creds, 0) =~= creds);
    lemma_run_from(creds, replies, saved, 0);
}

/// Running the steps from `from` on, where every credential before it was accepted.
proof fn lemma_run_from(
    creds: Seq<Option<Seq<char>>>,
    replies: Seq<Result<(), Fault>>,
    saved: Result<(), Fault>,
    from: int,
)
    requires
        replies.len() == creds.len(),
        0 <= from <= creds.len(),
        forall|j: int| 0 <= j < from && #[trigger] pending(creds, j) ==> replies[j] is Ok,
    ensures
        migration_run(
            left(creds, from),
            migration_from(left(creds, from), from, pending_count(creds, from)),
            replies,
            saved,
        ) == (credentials_left(creds, replies), migration_result(creds, replies, saved)),
    decreases creds.len() - from,
{
    reveal_with_fuel(migration_run, 2);
    let now = left(creds, from);
    let count = creds.len() as int;
    lemma_same_next(now, creds, from);
    lemma_next_pending(creds, from);
    lemma_pending_count(creds, from);
    match next_pending(creds, from) {
        None => {
            lemma_none_pending(creds, from, count);
            lemma_not_refused(creds, replies, 0);
            assert(now =~= left(creds, count));
        },
        Some(slot) => {
            lemma_none_pending(creds, from, slot);
            assert(now =~= left(creds, slot));
            if replies[slot] is Err {
                lemma_refused(creds, replies, 0, slot);
            } else {
                assert(now.update(slot, emptied(slot)) =~= left(creds, slot + 1));
                lemma_run_from(creds, replies, saved, slot + 1);
            }
        },
    }
}

/// The reserved keys are valid, in capitals and internal: they can be stored, and listings hide
/// them. No two are the same.
pub proof fn law_reserved_keys(i: int, j: int)
    requires
        0 <= i < reserved_keys().len(),
        0 <= j < reserved_keys().len(),
    ensures
        valid_key(reserved_keys()[i]),
        uppercase(reserved_keys()[i]) == reserved_keys()[i],
        internal_key(reserved_keys()[i]),
        i != j ==> reserved_keys()[i] != reserved_keys()[j],
{
    reveal_strlit("__");
    reveal_strlit("__API_KEY");
    reveal_strlit("__TELEGRAM_TOKEN");
    reveal_strlit("__DISCORD_TOKEN");
    reveal_strlit("__SLACK_TOKEN");
    let key = reserved_keys()[i];
    assert(uppercase(key) =~= key);
    assert(key.subrange(0, 2) =~= "__"@);
    assert(key[2] != reserved_keys()[j][2] || i == j);
}

/// No credential is lost: one that has left the configuration was accepted by the store, and one
/// that the store refused is still there.
pub proof fn law_no_credential_lost(
    creds: Seq<Option<Seq<char>>>,
    replies: Seq<Result<(), Fault>>,
    slot: int,
)
    requires
        0 <= slot < creds.len(),
    ensures
        credentials_left(creds, replies)[slot] != creds[slot] ==> stores_credential(
            creds,
            replies,
            slot,
        ) && replies[slot] is Ok && credentials_left(creds, replies)[slot] == emptied(slot),
{
    lemma_first_refused(creds, replies, 0);
}

/// A migration that nothing refuses leaves no credential behind, and running it again moves none
/// and does not save.
pub proof fn law_migration_happens_once(
    creds: Seq<Option<Seq<char>>>,
    replies: Seq<Result<(), Fault>>,
    again: Seq<Result<(), Fault>>,
    saved: Result<(), Fault>,
)
    requires
        first_refused(creds, replies, 0) is None,
    ensures
        ({
            let after = credentials_left(creds, replies);
            &&& forall|slot: int| 0 <= slot < after.len() ==> !#[trigger] pending(after, slot)
            &&& migration_result(after, again, saved) == Ok::<int, Fault>(0)
            &&& !saves_config(after, again)
            &&& credentials_left(after, again) == after
        }),
{
    let after = credentials_left(creds, replies);
    lemma_none_pending(after, 0, after.len() as int);
    lemma_not_refused(after, again, 0);
    assert(left(after, after.len() as int) =~= after);
}

/// Where nothing is left to be moved no configuration is ever handed to `save`, and so not by a
/// second migration after one that nothing refused.
pub proof fn law_no_needless_save<S: SecretStore>(
    registry: SecretRegistry<S>,
    before: Config,
    config: Config,
)
    requires
        forall|slot: int| 0 <= slot < 4 ==> !#[trigger] pending(credentials(before), slot),
    ensures
        !save_due(registry, before, config),
{
    lemma_none_pending(credentials(before), 0, 4);
}

/// A migration that moves nothing does not save, and one that a store refuses does not either.
pub proof fn law_saved_if_moved(
    creds: Seq<Option<Seq<char>>>,
    replies: Seq<Result<(), Fault>>,
    saved: Result<(), Fault>,
)
    ensures
        migration_result(creds, replies, saved) matches Ok(n) ==> (saves_config(creds, replies)
            <==> n > 0),
        first_refused(creds, replies, 0) is Some ==> !saves_config(creds, replies),
{
    lemma_pending_count(creds, creds.len() as int);
}

proof fn lemma_pending_count(creds: Seq<Option<Seq<char>>>, upto: int)
    ensures
        pending_count(creds, upto) >= 0,
    decreases upto,
{
    if upto > 0 {
        lemma_pending_count(creds, upto - 1);
    }
}

proof fn lemma_first_refused(
    creds: Seq<Option<Seq<char>>>,
    replies: Seq<Result<(), Fault>>,
    from: int,
)
    requires
        0 <= from <= creds.len(),
    ensures
        match first_refused(creds, replies, from) {
            Some(slot) => {
                &&& from <= slot < creds.len()
                &&& pending(creds, slot)
                &&& replies[slot] is Err
                &&& forall|j: int|
                    from <= j < slot && #[trigger] pending(creds, j) ==> replies[j] is Ok
            },
            None => forall|j: int|
                from <= j < creds.len() && #[trigger] pending(creds, j) ==> replies[j] is Ok,
        },
    decreases creds.len() - from,
{
    if from < creds.len() && !(pending(creds, from) && replies[from] is Err) {
        lemma_first_refused(creds, replies, from + 1);
    }
}

/// The four places for credentials, whole and in order: the API key and the tokens of Telegram,
/// Discord and Slack, with the keys under which they are stored.
pub proof fn law_places(c: Config)
    ensures
        credentials(c).len() == 4,
        reserved_keys().len() == 4,
        reserved_keys()[0] == "__API_KEY"@,
        reserved_keys()[1] == "__TELEGRAM_TOKEN"@,
        reserved_keys()[2] == "__DISCORD_TOKEN"@,
        reserved_keys()[3] == "__SLACK_TOKEN"@,
        credentials(c)[0] == (match c.api_key {
            Some(k) => Some(k@),
            None => None,
        }),
        credentials(c)[1] == (match c.channels_config.telegram {
            Some(t) => Some(t.bot_token@),
            None => None,
        }),
        credentials(c)[2] == (match c.channels_config.discord {
            Some(t) => Some(t.bot_token@),
            None => None,
        }),
        credentials(c)[3] == (match c.channels_config.slack {
            Some(t) => Some(t.bot_token@),
            None => None,
        }),
{
}

/// A migration in which the store refuses nothing moves every credential that is not empty, however
/// long it is: the store is asked to keep exactly that text under the reserved key, the place is
/// empty afterwards, everything else is as before, and the number returned is how many there were.
pub proof fn law_every_credential_moves<S: SecretStore>(
    registry: SecretRegistry<S>,
    before: Config,
    replies: Seq<Result<(), Fault>>,
    saved: Result<(), Fault>,
    slot: int,
)
    requires
        all_stored(registry, credentials(before), replies),
        forall|j: int|
            0 <= j < 4 ==> ((#[trigger] credentials(before)[j]) matches Some(text) ==> text.len()
                > 0 ==> replies[j] is Ok),
        0 <= slot < 4,
    ensures
        credentials_left(credentials(before), replies).len() == 4,
        credentials_left(credentials(before), replies)[slot] matches Some(text) ==> text.len() == 0,
        match credentials(before)[slot] {
            Some(text) => if text.len() > 0 {
                registry.stored(reserved_keys()[slot], text, None, Ok(()))
            } else {
                credentials_left(credentials(before), replies)[slot] == credentials(before)[slot]
            },
            None => credentials_left(credentials(before), replies)[slot] is None,
        },
        ({
            let held = credentials(before);
            let count = nonempty(held[0]) + nonempty(held[1]) + nonempty(held[2]) + nonempty(
                held[3],
            );
            &&& saves_config(held, replies) <==> count > 0
            &&& count > 0 && saved is Err ==> migration_result(held, replies, saved) == Err::<
                int,
                Fault,
            >(saved->Err_0)
            &&& count == 0 || saved is Ok ==> migration_result(held, replies, saved) == Ok::<
                int,
                Fault,
            >(count)
        }),
{
    let held = credentials(before);
    assert forall|j: int| 0 <= j < held.len() && #[trigger] pending(held, j) implies replies[j]
        is Ok by {
        assert(held[j] is Some);
    }
    lemma_not_refused(held, replies, 0);
    reveal_with_fuel(pending_count, 5);
    if held[slot] is Some && held[slot]->0.len() > 0 {
        assert(stores_credential(held, replies, slot));
    }
}

/// One if there is a text that is not empty, and else nothing.
pub open spec fn nonempty(held: Option<Seq<char>>) -> int {
    match held {
        Some(text) => if text.len() > 0 {
            1
        } else {
            0
        },
        None => 0,
    }
}

/// A migration ends at the first credential that the store refuses: its fault is returned, those
/// before it have left the configuration, and it and those behind it are still there.
pub proof fn law_refusal_ends_migration(
    creds: Seq<Option<Seq<char>>>,
    replies: Seq<Result<(), Fault>>,
    saved: Result<(), Fault>,
    refused: int,
    f: Fault,
    slot: int,
)
    requires
        0 <= refused < creds.len(),
        creds[refused] is Some,
        creds[refused]->0.len() > 0,
        replies[refused] == Err::<(), Fault>(f),
        forall|j: int|
            0 <= j < refused ==> ((#[trigger] creds[j]) matches Some(text) ==> text.len() > 0
                ==> replies[j] is Ok),
        0 <= slot < creds.len(),
    ensures
        migration_result(creds, replies, saved) == Err::<int, Fault>(f),
        !saves_config(creds, replies),
        slot >= refused ==> credentials_left(creds, replies)[slot] == creds[slot],
        slot < refused ==> (credentials_left(creds, replies)[slot] matches Some(text) ==> text.len()
            == 0),
        slot < refused && creds[slot] is None ==> credentials_left(creds, replies)[slot] is None,
{
    assert forall|j: int| 0 <= j < refused && #[trigger] pending(creds, j) implies replies[j]
        is Ok by {
        assert(creds[j] is Some);
    }
    lemma_refused(creds, replies, 0, refused);
}

/// The place of the API key is cleared, and the place of a token is left with an empty one.
pub proof fn law_emptied_places(
    creds: Seq<Option<Seq<char>>>,
    replies: Seq<Result<(), Fault>>,
    slot: int,
)
    requires
        0 <= slot < creds.len(),
        creds[slot] is Some,
        creds[slot]->0.len() > 0,
        forall|j: int|
            0 <= j < creds.len() ==> ((#[trigger] creds[j]) matches Some(text) ==> text.len() > 0
                ==> replies[j] is Ok),
    ensures
        slot == 0 ==> credentials_left(creds, replies)[slot] is None,
        slot > 0 ==> credentials_left(creds, replies)[slot] == Some(Seq::<char>::empty()),
{
    assert forall|j: int| 0 <= j < creds.len() && #[trigger] pending(creds, j) implies replies[j]
        is Ok by {
        assert(creds[j] is Some);
    }
    lemma_not_refused(creds, replies, 0);
}

/// The store is asked for every credential that is not empty and that only accepted ones precede,
/// and is handed exactly that text.
pub proof fn law_store_gets_credential<S: SecretStore>(
    registry: SecretRegistry<S>,
    creds: Seq<Option<Seq<char>>>,
    replies: Seq<Result<(), Fault>>,
    slot: int,
)
    requires
        all_stored(registry, creds, replies),
        0 <= slot < creds.len(),
        creds[slot] is Some,
        creds[slot]->0.len() > 0,
        forall|j: int|
            0 <= j < slot ==> ((#[trigger] creds[j]) matches Some(text) ==> text.len() > 0
                ==> replies[j] is Ok),
    ensures
        replies.len() == creds.len(),
        registry.stored(reserved_keys()[slot], creds[slot]->0, None, replies[slot]),
{
    assert forall|j: int| 0 <= j < slot && #[trigger] pending(creds, j) implies replies[j]
        is Ok by {
        assert(creds[j] is Some);
    }
    assert(stores_credential(creds, replies, slot));
}

/// What a migration does next is to store the first credential from `from` on that is not empty,
/// whole and under its reserved key; without one it saves if anything was moved, and else is done.
pub proof fn law_migration_goes_on(
    creds: Seq<Option<Seq<char>>>,
    from: int,
    migrated: int,
    slot: int,
)
    requires
        0 <= from <= creds.len(),
    ensures
        from <= slot < creds.len() && creds[slot] is Some && creds[slot]->0.len() > 0 && (forall|
            j: int,
        |
            from <= j < slot ==> ((#[trigger] creds[j]) matches Some(text) ==> text.len() == 0))
            ==> migration_from(creds, from, migrated) == (MigrationView::Store {
            slot,
            migrated,
            key: reserved_keys()[slot],
            value: creds[slot]->0,
        }),
        (forall|j: int|
            from <= j < creds.len() ==> ((#[trigger] creds[j]) matches Some(text) ==> text.len()
                == 0)) ==> migration_from(creds, from, migrated) == (if migrated > 0 {
            MigrationView::Save { migrated }
        } else {
            MigrationView::Done(Ok(0))
        }),
{
    lemma_next_pending(creds, from);
    if from <= slot < creds.len() && creds[slot] is Some && creds[slot]->0.len() > 0 {
        assert(pending(creds, slot));
    }
    if let Some(i) = next_pending(creds, from) {
        assert(creds[i] is Some);
    }
}

/// Once the store has replied for a credential: a refusal ends the migration and changes nothing;
/// otherwise the place is emptied, no other changes, and the migration goes on behind it with one
/// more moved. What saving comes to decides at the end.
pub proof fn law_migration_takes_reply(
    creds: Seq<Option<Seq<char>>>,
    slot: int,
    migrated: int,
    f: Fault,
    other: int,
)
    requires
        0 <= slot < creds.len(),
        0 <= other < creds.len(),
    ensures
        after_reply(creds, slot, Err(f)) == creds,
        migration_next(creds, slot, migrated, Err(f)) == MigrationView::Done(Err(f)),
        other != slot ==> after_reply(creds, slot, Ok(()))[other] == creds[other],
        after_reply(creds, slot, Ok(()))[slot] matches Some(text) ==> text.len() == 0,
        after_reply(creds, slot, Ok(())).len() == creds.len(),
        migration_next(creds, slot, migrated, Ok(())) == migration_from(
            after_reply(creds, slot, Ok(())),
            slot + 1,
            migrated + 1,
        ),
        migration_end(migrated, Ok(())) == Ok::<int, Fault>(migrated),
        migration_end(migrated, Err(f)) == Err::<int, Fault>(f),
{
}

/// Nothing but credentials is ever changed.
pub proof fn law_rest_of_config_kept(a: Config, b: Config)
    requires
        same_but_credentials(a, b),
    ensures
        a.in_directory == b.in_directory,
        a.secrets == b.secrets,
        a.channels_config.telegram is Some <==> b.channels_config.telegram is Some,
        a.channels_config.discord is Some <==> b.channels_config.discord is Some,
        a.channels_config.slack is Some <==> b.channels_config.slack is Some,
{
}

/// What saving comes to is what the caller's function returned for the configuration that is left.
pub proof fn law_save_decides<F: Fn(&Config) -> Result<(), SecretError>>(
    save: F,
    config: Config,
    outcome: Result<(), Fault>,
)
    requires
        config_saved(save, config, outcome),
    ensures
        exists|r: Result<(), SecretError>| #[trigger]
            call_ensures(save, (&config,), r) && match r {
                Ok(()) => outcome is Ok,
                Err(e) => outcome == Err::<(), Fault>(e@),
            },
{
}

/// A step of a migration names the place, the key and the value to store, whole, or how many were
/// moved, or what is returned.
pub proof fn law_migration_step(at: MigrationAt, key: String, value: String, n: usize, e: SecretError)
    ensures
        (MigrationStep::Store { at, key, value })@ == (MigrationView::Store {
            slot: at.slot as int,
            migrated: at.migrated as int,
            key: key@,
            value: value@,
        }),
        (MigrationStep::Save { migrated: n })@ == (MigrationView::Save { migrated: n as int }),
        MigrationStep::Done(Ok(n))@ == MigrationView::Done(Ok(n as int)),
        MigrationStep::Done(Err(e))@ == MigrationView::Done(Err(e@)),
        count_outcome(Ok(n)) == Ok::<int, Fault>(n as int),
        count_outcome(Err(e)) == Err::<int, Fault>(e@),
{
}

/// A configuration is due to be saved only if there was a credential that is not empty, the store
/// accepted every such one, and none is left in it.
pub proof fn law_save_when_due<S: SecretStore>(
    registry: SecretRegistry<S>,
    before: Config,
    config: Config,
    slot: int,
)
    requires
        save_due(registry, before, config),
        0 <= slot < 4,
    ensures
        exists|j: int|
            0 <= j < 4 && (#[trigger] credentials(before)[j]) is Some && credentials(
                before,
            )[j]->0.len() > 0,
        credentials(before)[slot] matches Some(text) ==> text.len() > 0 ==> registry.stored(
            reserved_keys()[slot],
            text,
            None,
            Ok(()),
        ),
        credentials(config)[slot] matches Some(text) ==> text.len() == 0,
        config.secrets == before.secrets,
        config.in_directory == before.in_directory,
{
    let held = credentials(before);
    let replies = choose|replies: Seq<Result<(), Fault>>|
        {
            &&& #[trigger] all_stored(registry, held, replies)
            &&& saves_config(held, replies)
            &&& credentials(config) == credentials_left(held, replies)
            &&& same_but_credentials(config, before)
        };
    lemma_first_refused(held, replies, 0);
    assert forall|j: int| 0 <= j < 4 implies ((#[trigger] held[j]) matches Some(text) ==> text.len()
        > 0 ==> replies[j] is Ok) by {
        if held[j] is Some && held[j]->0.len() > 0 {
            assert(pending(held, j));
        }
    }
    law_every_credential_moves(registry, before, replies, Ok(()), slot);
    if forall|j: int| 0 <= j < 4 ==> !((#[trigger] held[j]) is Some && held[j]->0.len() > 0) {
        assert(nonempty(held[0]) + nonempty(held[1]) + nonempty(held[2]) + nonempty(held[3]) == 0);
    }
}

} // verus!
