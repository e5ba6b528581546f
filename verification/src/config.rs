//! The part of the configuration that concerns secrets, and the registry that it describes.

use vstd::prelude::*;
use crate::error::{Fault, SecretError};
use crate::external::ExternalSecretStore;
use crate::registry::{position_of, write_target, Backend, SecretRegistry};
use crate::text::{opt_string, opt_text, same_text, texts};

verus! {

/// `shellexpand::tilde`, which puts the home directory in place of a leading tilde. The home
/// directory comes from the environment. Claimed: the path comes back as it is, or it is a tilde
/// alone or before a separator, and what comes back is some directory in place of that tilde.
#[verifier::external_body]
fn tilde(path: &str) -> (r: String)
    ensures
        expands_to(path@, r@),
{
    shellexpand::tilde(path).into_owned()
}

/// Whether a path may be expanded to another one. Only a leading tilde is ever expanded, and only
/// if it stands alone or before a separator.
pub open spec fn expands_to(path: Seq<char>, expanded: Seq<char>) -> bool {
    ||| expanded == path
    ||| {
        &&& path.len() > 0 && path[0] == '~'
        &&& path.len() == 1 || path[1] == '/' || path[1] == '\\'
        &&& exists|home: Seq<char>| expanded == #[trigger] (home + path.skip(1))
    }
}

/// Whether `expanded` is what the home directory in place of a leading tilde makes of a path on
/// this machine.
pub closed spec fn tilde_expanded(path: Seq<char>, expanded: Seq<char>) -> bool {
    exists|p: &str, r: String|
        p@ == path && r@ == expanded && #[trigger] call_ensures(tilde, (p,), r)
}

/// One configured store.
pub struct StoreEntry {
    /// The name by which the store is addressed.
    pub name: String,
    /// The kind of store: `local` or `external`.
    pub backend: String,
    /// Where a local store keeps its file, seen from the workspace; `.secrets` if left out.
    pub store_path: Option<String>,
    /// The program that keeps an external store.
    pub provider_binary: Option<String>,
}

/// One configured store, over texts.
pub struct EntryView {
    pub name: Seq<char>,
    pub backend: Seq<char>,
    pub store_path: Option<Seq<char>>,
    pub provider_binary: Option<Seq<char>>,
}

impl View for StoreEntry {
    type V = EntryView;

    open spec fn view(&self) -> EntryView {
        EntryView {
            name: self.name@,
            backend: self.backend@,
            store_path: opt_string(self.store_path),
            provider_binary: opt_string(self.provider_binary),
        }
    }
}

/// The `secrets` section.
pub struct SecretsConfig {
    /// Whether secrets are encrypted.
    pub encrypt: bool,
    /// The stores, in order of precedence.
    pub stores: Vec<StoreEntry>,
}

impl SecretsConfig {
    /// The stores, over texts.
    pub open spec fn entries(&self) -> Seq<EntryView> {
        self.stores@.map_values(|e: StoreEntry| e@)
    }
}

/// A channel that is spoken to through a bot.
pub struct ChannelConfig {
    pub bot_token: String,
}

/// The channels.
pub struct ChannelsConfig {
    pub telegram: Option<ChannelConfig>,
    pub discord: Option<ChannelConfig>,
    pub slack: Option<ChannelConfig>,
}

/// The configuration, as far as it concerns secrets.
pub struct Config {
    /// Whether the configuration file lies in a directory.
    pub in_directory: bool,
    /// The provider's API key.
    pub api_key: Option<String>,
    pub channels_config: ChannelsConfig,
    pub secrets: SecretsConfig,
}

/// A store that is to be opened. The path of a local store's file is seen from the workspace: an
/// absolute path stands for itself, and any other lies in the workspace.
pub enum StorePlan {
    Local { path: String, encrypt: bool },
    External(ExternalSecretStore),
}

/// A store that is to be opened, over texts.
pub enum PlanView {
    Local(Seq<char>, bool),
    External(Seq<char>),
}

impl View for StorePlan {
    type V = PlanView;

    open spec fn view(&self) -> PlanView {
        match self {
            StorePlan::Local { path, encrypt } => PlanView::Local(path@, *encrypt),
            StorePlan::External(store) => PlanView::External(store@),
        }
    }
}

/// The kind of store that is to be opened.
pub open spec fn backend_of(plan: PlanView) -> Seq<char> {
    match plan {
        PlanView::Local(..) => "local"@,
        PlanView::External(_) => "external"@,
    }
}

/// The path in an entry that the kind of store asks for, as it is written.
pub open spec fn written_path(e: EntryView) -> Option<Seq<char>> {
    if e.backend == "local"@ {
        e.store_path
    } else if e.backend == "external"@ {
        e.provider_binary
    } else {
        None
    }
}

/// The store that an entry describes, where `expanded` is its path with the home directory in
/// place of a tilde.
pub open spec fn entry_plan(e: EntryView, encrypt: bool, expanded: Seq<char>) -> Result<
    PlanView,
    Fault,
> {
    if e.backend == "local"@ {
        Ok(
            PlanView::Local(
                match e.store_path {
                    Some(_) => expanded,
                    None => ".secrets"@,
                },
                encrypt,
            ),
        )
    } else if e.backend == "external"@ {
        match e.provider_binary {
            Some(_) => Ok(PlanView::External(expanded)),
            None => Err(Fault::MissingProvider(e.name)),
        }
    } else {
        Err(Fault::UnknownBackend(e.backend))
    }
}

/// The stores that the entries from position `from` on describe; the fault of the first entry
/// that describes none.
pub open spec fn entry_plans(
    entries: Seq<EntryView>,
    encrypt: bool,
    expanded: Seq<Seq<char>>,
    from: int,
) -> Result<Seq<(Seq<char>, PlanView)>, Fault>
    decreases entries.len() - from,
{
    if from >= entries.len() {
        Ok(Seq::empty())
    } else {
        match entry_plan(entries[from], encrypt, expanded[from]) {
            Err(f) => Err(f),
            Ok(plan) => match entry_plans(entries, encrypt, expanded, from + 1) {
                Err(f) => Err(f),
                Ok(rest) => Ok(seq![(entries[from].name, plan)] + rest),
            },
        }
    }
}

/// The stores of the registry, where `expanded` holds the path of each entry with the home
/// directory in place of a tilde. Without entries there is one local store, in the workspace.
pub open spec fn registry_plan(c: Config, expanded: Seq<Seq<char>>) -> Result<
    Seq<(Seq<char>, PlanView)>,
    Fault,
> {
    if !c.in_directory {
        Err(Fault::NoConfigDir)
    } else if c.secrets.entries().len() == 0 {
        Ok(seq![("local"@, PlanView::Local(".secrets"@, c.secrets.encrypt))])
    } else {
        entry_plans(c.secrets.entries(), c.secrets.encrypt, expanded, 0)
    }
}

/// The stores of a registry, over texts.
pub open spec fn plans(stores: Seq<(String, StorePlan)>) -> Seq<(Seq<char>, PlanView)> {
    stores.map_values(|s: (String, StorePlan)| (s.0@, s.1@))
}

/// A registry or a fault, over texts.
pub open spec fn registry_outcome(r: Result<SecretRegistry<StorePlan>, SecretError>) -> Result<
    Seq<(Seq<char>, PlanView)>,
    Fault,
> {
    match r {
        Ok(registry) => Ok(plans(registry.entries())),
        Err(e) => Err(e@),
    }
}

impl StoreEntry {
    /// The path in the entry that the kind of store asks for, as it is written.
    pub fn written_path(&self) -> (r: Option<&str>)
        ensures
            opt_text(r) == written_path(self@),
    {
        let path = if same_text(self.backend.as_str(), "local") {
            &self.store_path
        } else if same_text(self.backend.as_str(), "external") {
            &self.provider_binary
        } else {
            return None;
        };
        match path {
            Some(path) => Some(path.as_str()),
            None => None,
        }
    }

    /// The store that the entry describes, where `expanded` is its path with the home directory in
    /// place of a tilde.
    pub fn plan(&self, encrypt: bool, expanded: &str) -> (r: Result<StorePlan, SecretError>)
        ensures
            match r {
                Ok(plan) => entry_plan(self@, encrypt, expanded@) == Ok::<PlanView, Fault>(plan@),
                Err(e) => entry_plan(self@, encrypt, expanded@) == Err::<PlanView, Fault>(e@),
            },
    {
        if same_text(self.backend.as_str(), "local") {
            let path = if self.store_path.is_some() {
                expanded.to_owned()
            } else {
                ".secrets".to_owned()
            };
            Ok(StorePlan::Local { path, encrypt })
        } else if same_text(self.backend.as_str(), "external") {
            if self.provider_binary.is_some() {
                Ok(StorePlan::External(ExternalSecretStore::new(expanded.to_owned())))
            } else {
                Err(SecretError::MissingProvider { store: self.name.clone() })
            }
        } else {
            Err(SecretError::UnknownBackend { backend: self.backend.clone() })
        }
    }
}

/// The registry that the configuration describes, where `expanded` holds the path of each entry
/// with the home directory in place of a tilde.
pub fn plan_registry(config: &Config, expanded: &Vec<String>) -> (r: Result<
    SecretRegistry<StorePlan>,
    SecretError,
>)
    requires
        expanded.len() == config.secrets.stores.len(),
    ensures
        registry_outcome(r) == registry_plan(*config, texts(expanded@)),
{
    if !config.in_directory {
        return Err(SecretError::NoConfigDir);
    }
    let encrypt: bool = config.secrets.encrypt;
    let mut stores: Vec<(String, StorePlan)> = Vec::new();
    if config.secrets.stores.len() == 0 {
        let path = ".secrets".to_owned();
        stores.push(("local".to_owned(), StorePlan::Local { path, encrypt }));
        assert(plans(stores@) =~= seq![("local"@, PlanView::Local(".secrets"@, encrypt))]);
        return Ok(SecretRegistry::new(stores));
    }
    let ghost entries = config.secrets.entries();
    let ghost paths = texts(expanded@);
    let mut i: usize = 0;
    assert(plans(stores@) =~= Seq::empty());
    while i < config.secrets.stores.len()
        invariant
            i <= config.secrets.stores.len(),
            expanded.len() == config.secrets.stores.len(),
            encrypt == config.secrets.encrypt,
            config.in_directory,
            config.secrets.stores.len() > 0,
            entries == config.secrets.entries(),
            paths == texts(expanded@),
            entry_plans(entries, encrypt, paths, 0) == after(
                plans(stores@),
                entry_plans(entries, encrypt, paths, i as int),
            ),
        decreases config.secrets.stores.len() - i,
    {
        let entry = &config.secrets.stores[i];
        match entry.plan(encrypt, expanded[i].as_str()) {
            Err(e) => {
                return Err(e);
            },
            Ok(plan) => {
                let ghost before_push = plans(stores@);
                stores.push((entry.name.clone(), plan));
                proof {
                    let rest = entry_plans(entries, encrypt, paths, i + 1);
                    assert(plans(stores@) =~= before_push.push((entries[i as int].name, plan@)));
                    if let Ok(more) = rest {
                        assert(before_push + (seq![(entries[i as int].name, plan@)] + more)
                            =~= plans(stores@) + more);
                    }
                }
            },
        }
        i += 1;
    }
    assert(plans(stores@) + Seq::<(Seq<char>, PlanView)>::empty() =~= plans(stores@));
    Ok(SecretRegistry::new(stores))
}

/// Stores that are already known, and the rest of them or a fault.
spec fn after(
    known: Seq<(Seq<char>, PlanView)>,
    rest: Result<Seq<(Seq<char>, PlanView)>, Fault>,
) -> Result<Seq<(Seq<char>, PlanView)>, Fault> {
    match rest {
        Ok(more) => Ok(known + more),
        Err(f) => Err(f),
    }
}

/// Whether `expanded` holds the written paths of the entries, each expanded on this machine.
pub open spec fn all_expanded(entries: Seq<EntryView>, expanded: Seq<Seq<char>>) -> bool {
    &&& expanded.len() == entries.len()
    &&& forall|i: int|
        0 <= i < entries.len() ==> (written_path(#[trigger] entries[i]) matches Some(path)
            ==> tilde_expanded(path, expanded[i]) && expands_to(path, expanded[i]))
}

/// The registry that the configuration describes.
pub fn build_registry(config: &Config) -> (r: Result<SecretRegistry<StorePlan>, SecretError>)
    ensures
        exists|expanded: Seq<Seq<char>>| #[trigger]
            all_expanded(config.secrets.entries(), expanded) && registry_outcome(r)
                == registry_plan(*config, expanded),
{
    let ghost entries = config.secrets.entries();
    let mut expanded: Vec<String> = Vec::new();
    let mut i: usize = 0;
    while i < config.secrets.stores.len()
        invariant
            i <= config.secrets.stores.len(),
            entries == config.secrets.entries(),
            expanded.len() == i,
            forall|j: int|
                0 <= j < i ==> (written_path(#[trigger] entries[j]) matches Some(path)
                    ==> tilde_expanded(path, expanded[j]@) && expands_to(path, expanded[j]@)),
        decreases config.secrets.stores.len() - i,
    {
        let path = match config.secrets.stores[i].written_path() {
            Some(written) => {
                let path = tilde(written);
                assert(call_ensures(tilde, (written,), path));
                path
            },
            None => String::new(),
        };
        expanded.push(path);
        i += 1;
    }
    assert(all_expanded(entries, texts(expanded@)));
    plan_registry(config, &expanded)
}

impl Backend for StorePlan {
    fn backend(&self) -> (r: &str)
        ensures
            r@ == backend_of(self@),
    {
        match self {
            StorePlan::Local { .. } => "local",
            StorePlan::External(_) => "external",
        }
    }
}

/// What the registry tells of the kind of a store that is to be opened is its kind, `local` or
/// `external`.
pub proof fn law_backend_told(registry: SecretRegistry<StorePlan>, at: int, backend: Seq<char>)
    requires
        registry.told(at, backend),
    ensures
        backend == backend_of(registry.entries()[at].1@),
{
}

/// The default path of a local store may be written out: it is the same store as when the path is
/// left out.
pub proof fn law_default_path(e: EntryView, encrypt: bool, expanded: Seq<char>, unused: Seq<char>)
    requires
        e.backend == "local"@,
        expands_to(".secrets"@, expanded),
    ensures
        entry_plan(EntryView { store_path: Some(".secrets"@), ..e }, encrypt, expanded)
            == entry_plan(EntryView { store_path: None, ..e }, encrypt, unused),
{
    reveal_strlit(".secrets");
}

/// Without configured stores there is exactly one, named `local`, in the workspace, and it is the
/// one that writes go to.
pub proof fn law_zero_config(c: Config, expanded: Seq<Seq<char>>)
    requires
        c.in_directory,
        c.secrets.entries().len() == 0,
    ensures
        registry_plan(c, expanded) matches Ok(stores) && {
            &&& stores.len() == 1
            &&& stores[0].0 == "local"@
            &&& stores[0].1 == PlanView::Local(".secrets"@, c.secrets.encrypt)
            &&& write_target(seq!["local"@], None) == Ok::<int, Fault>(0)
            &&& write_target(seq!["local"@], Some("local"@)) == Ok::<int, Fault>(0)
        },
{
    reveal_with_fuel(position_of, 2);
}

/// The stores of the registry are the configured ones, each of the configured kind, in the
/// configured order.
pub proof fn law_config_order(c: Config, expanded: Seq<Seq<char>>)
    requires
        c.secrets.entries().len() > 0,
    ensures
        registry_plan(c, expanded) matches Ok(stores) ==> {
            &&& stores.len() == c.secrets.entries().len()
            &&& forall|i: int|
                0 <= i < stores.len() ==> (#[trigger] stores[i]).0 == c.secrets.entries()[i].name
                    && backend_of(stores[i].1) == c.secrets.entries()[i].backend
                    && entry_plan(c.secrets.entries()[i], c.secrets.encrypt, expanded[i]) == Ok::<
                    PlanView,
                    Fault,
                >(stores[i].1)
        },
{
    lemma_entry_plans(c.secrets.entries(), c.secrets.encrypt, expanded, 0);
}

/// A registry is refused if and only if the configuration file lies in no directory or an entry
/// describes no store, and the first such entry says why.
pub proof fn law_first_bad_entry(c: Config, expanded: Seq<Seq<char>>)
    ensures
        match registry_plan(c, expanded) {
            Ok(_) => c.in_directory && forall|i: int|
                0 <= i < c.secrets.entries().len() ==> entry_plan(
                    #[trigger] c.secrets.entries()[i],
                    c.secrets.encrypt,
                    expanded[i],
                ) is Ok,
            Err(f) => if c.in_directory {
                exists|i: int| #[trigger]
                    first_bad(c.secrets.entries(), c.secrets.encrypt, expanded, i, f)
            } else {
                f == Fault::NoConfigDir
            },
        },
{
    let entries = c.secrets.entries();
    let encrypt = c.secrets.encrypt;
    if c.in_directory && entries.len() > 0 {
        lemma_entry_plans(entries, encrypt, expanded, 0);
        if let Err(f) = registry_plan(c, expanded) {
            let i = choose|i: int|
                #![trigger entries[i]]
                0 <= i < entries.len() && entry_plan(entries[i], encrypt, expanded[i]) == Err::<
                    PlanView,
                    Fault,
                >(f) && forall|j: int|
                    0 <= j < i ==> entry_plan(#[trigger] entries[j], encrypt, expanded[j]) is Ok;
            assert(first_bad(entries, encrypt, expanded, i, f));
        }
    }
}

/// Whether the entry at position `i` is the first that describes no store, with this fault.
pub open spec fn first_bad(
    entries: Seq<EntryView>,
    encrypt: bool,
    expanded: Seq<Seq<char>>,
    i: int,
    f: Fault,
) -> bool {
    &&& 0 <= i < entries.len()
    &&& entry_plan(entries[i], encrypt, expanded[i]) == Err::<PlanView, Fault>(f)
    &&& forall|j: int|
        0 <= j < i ==> entry_plan(#[trigger] entries[j], encrypt, expanded[j]) is Ok
}

proof fn lemma_entry_plans(
    entries: Seq<EntryView>,
    encrypt: bool,
    expanded: Seq<Seq<char>>,
    from: int,
)
    requires
        0 <= from <= entries.len(),
    ensures
        match entry_plans(entries, encrypt, expanded, from) {
            Ok(stores) => {
                &&& stores.len() == entries.len() - from
                &&& forall|i: int|
                    #![trigger entries[i]]
                    from <= i < entries.len() ==> stores[i - from].0 == entries[i].name
                        && entry_plan(entries[i], encrypt, expanded[i]) == Ok::<PlanView, Fault>(
                        stores[i - from].1,
                    )
            },
            Err(f) => exists|i: int|
                #![trigger entries[i]]
                from <= i < entries.len() && entry_plan(entries[i], encrypt, expanded[i]) == Err::<
                    PlanView,
                    Fault,
                >(f) && forall|j: int|
                    from <= j < i ==> entry_plan(#[trigger] entries[j], encrypt, expanded[j]) is Ok,
        },
    decreases entries.len() - from,
{
    if from < entries.len() {
        lemma_entry_plans(entries, encrypt, expanded, from + 1);
        if entry_plan(entries[from], encrypt, expanded[from]) is Err {
            assert(entries[from].name == entries[from].name);
        }
    }
}

/// An entry, a plan and the list of stores are kept whole and in order.
pub proof fn law_config_texts(
    e: StoreEntry,
    path: String,
    encrypt: bool,
    stores: Seq<(String, StorePlan)>,
    c: SecretsConfig,
    i: int,
)
    ensures
        e@.name == e.name@,
        e@.backend == e.backend@,
        e.store_path matches Some(p) ==> e@.store_path == Some(p@),
        e.store_path is None ==> e@.store_path is None,
        e.provider_binary matches Some(p) ==> e@.provider_binary == Some(p@),
        e.provider_binary is None ==> e@.provider_binary is None,
        (StorePlan::Local { path, encrypt })@ == PlanView::Local(path@, encrypt),
        plans(stores).len() == stores.len(),
        0 <= i < stores.len() ==> plans(stores)[i].0 == stores[i].0@ && plans(stores)[i].1
            == stores[i].1@,
        c.entries().len() == c.stores@.len(),
        0 <= i < c.stores@.len() ==> c.entries()[i] == c.stores@[i]@,
{
}

/// The kind of an entry decides what it describes: a local store at its path, or `.secrets` if it
/// has none; an external store kept by its program, which it must have; and nothing for any other
/// kind. The whole expanded path is used, and the flag is passed on.
pub proof fn law_entry_describes(e: EntryView, encrypt: bool, expanded: Seq<char>)
    ensures
        e.backend == "local"@ && e.store_path is Some ==> written_path(e) == e.store_path
            && entry_plan(e, encrypt, expanded) == Ok::<PlanView, Fault>(
            PlanView::Local(expanded, encrypt),
        ),
        e.backend == "local"@ && e.store_path is None ==> written_path(e) is None && entry_plan(
            e,
            encrypt,
            expanded,
        ) == Ok::<PlanView, Fault>(PlanView::Local(".secrets"@, encrypt)),
        e.backend == "external"@ && e.provider_binary is Some ==> written_path(e)
            == e.provider_binary && entry_plan(e, encrypt, expanded) == Ok::<PlanView, Fault>(
            PlanView::External(expanded),
        ),
        e.backend == "external"@ && e.provider_binary is None ==> written_path(e) is None
            && entry_plan(e, encrypt, expanded) == Err::<PlanView, Fault>(
            Fault::MissingProvider(e.name),
        ),
        e.backend != "local"@ && e.backend != "external"@ ==> written_path(e) is None
            && entry_plan(e, encrypt, expanded) == Err::<PlanView, Fault>(
            Fault::UnknownBackend(e.backend),
        ),
{
    reveal_strlit("local");
    reveal_strlit("external");
    assert("local"@.len() != "external"@.len());
}

/// Every path that is written is expanded. One that does not begin with a tilde, or in which
/// another character than a separator follows the tilde, stays as it is.
pub proof fn law_paths_are_expanded(entries: Seq<EntryView>, expanded: Seq<Seq<char>>, i: int)
    requires
        all_expanded(entries, expanded),
        0 <= i < entries.len(),
    ensures
        expanded.len() == entries.len(),
        written_path(entries[i]) matches Some(path) ==> {
            &&& tilde_expanded(path, expanded[i])
            &&& path.len() == 0 || path[0] != '~' ==> expanded[i] == path
            &&& path.len() > 1 && path[1] != '/' && path[1] != '\\' ==> expanded[i] == path
        },
{
}

/// A path that was expanded on this machine is what the one function made of that path.
proof fn law_tilde_is_asked(path: Seq<char>, expanded: Seq<char>)
    requires
        tilde_expanded(path, expanded),
    ensures
        exists|p: &str, r: String| #[trigger]
            call_ensures(tilde, (p,), r) && p@ == path && r@ == expanded,
{
}

/// The registry that comes of a configuration holds the stores that were planned, or the fault that
/// was found.
pub proof fn law_registry_outcome(registry: SecretRegistry<StorePlan>, e: SecretError, i: int)
    ensures
        registry_outcome(Ok(registry)) matches Ok(stores) && stores.len()
            == registry.entries().len() && (0 <= i < stores.len() ==> stores[i].0
            == registry.entries()[i].0@ && stores[i].1 == registry.entries()[i].1@),
        registry_outcome(Err(e)) == Err::<Seq<(Seq<char>, PlanView)>, Fault>(e@),
{
}

/// The two kinds of store have the names that the configuration gives them.
pub proof fn law_kinds(path: Seq<char>, encrypt: bool)
    ensures
        backend_of(PlanView::Local(path, encrypt)) == "local"@,
        backend_of(PlanView::External(path)) == "external"@,
{
}

} // verus!
