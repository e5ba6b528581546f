use std::cell::{Cell, RefCell};

use secret_registry::config::{
    build_registry, plan_registry, ChannelConfig, ChannelsConfig, Config, SecretsConfig, StoreEntry,
    StorePlan,
};
use secret_registry::error::SecretError;
use secret_registry::migration::{
    finish_migration, migrate_config_credentials, resume_migration, start_migration, MigrationStep,
};
use secret_registry::registry::{SecretRegistry, SecretStore};

fn entry(name: &str, backend: &str, path: Option<&str>, program: Option<&str>) -> StoreEntry {
    StoreEntry {
        name: name.to_string(),
        backend: backend.to_string(),
        store_path: path.map(|p| p.to_string()),
        provider_binary: program.map(|p| p.to_string()),
    }
}

fn config(stores: Vec<StoreEntry>) -> Config {
    Config {
        in_directory: true,
        api_key: None,
        channels_config: ChannelsConfig { telegram: None, discord: None, slack: None },
        secrets: SecretsConfig { encrypt: true, stores },
    }
}

fn describe(plan: &StorePlan) -> String {
    match plan {
        StorePlan::Local { path, encrypt } => format!("file {path} {encrypt}"),
        StorePlan::External(store) => format!("program {}", store.binary_path()),
    }
}

fn stores(registry: SecretRegistry<StorePlan>) -> Vec<(String, String)> {
    registry.into_stores().into_iter().map(|(name, plan)| (name, describe(&plan))).collect()
}

fn pair(a: &str, b: &str) -> (String, String) {
    (a.to_string(), b.to_string())
}

#[test]
fn without_stores_there_is_a_local_one() {
    let registry = build_registry(&config(vec![])).ok().unwrap();
    assert_eq!(stores(registry), vec![pair("local", "file .secrets true")]);
    let mut plain = config(vec![]);
    plain.secrets.encrypt = false;
    let registry = build_registry(&plain).ok().unwrap();
    assert_eq!(stores(registry), vec![pair("local", "file .secrets false")]);
}

#[test]
fn stores_keep_the_configured_order() {
    let registry = build_registry(&config(vec![
        entry("work", "external", Some("/ignored"), Some("/opt/vault")),
        entry("local", "local", Some("/var/secrets"), Some("/ignored")),
        entry("spare", "local", None, None),
    ]))
    .ok()
    .unwrap();
    let info = registry.store_info();
    assert!(info[0].is_default && !info[1].is_default && !info[2].is_default);
    let kinds: Vec<&str> = info.iter().map(|i| i.backend.as_str()).collect();
    assert_eq!(kinds, vec!["external", "local", "local"]);
    assert_eq!(
        stores(registry),
        vec![
            pair("work", "program /opt/vault"),
            pair("local", "file /var/secrets true"),
            pair("spare", "file .secrets true"),
        ]
    );
}

#[test]
fn the_default_path_may_be_written_out() {
    let registry = build_registry(&config(vec![
        entry("written", "local", Some(".secrets"), None),
        entry("left_out", "local", None, None),
    ]))
    .ok()
    .unwrap();
    assert_eq!(
        stores(registry),
        vec![pair("written", "file .secrets true"), pair("left_out", "file .secrets true")]
    );
}

#[test]
fn a_leading_tilde_is_the_home_directory() {
    let home = shellexpand::tilde("~").into_owned();
    let registry = build_registry(&config(vec![
        entry("a", "local", Some("~/.secrets"), None),
        entry("b", "external", None, Some("~/bin/vault")),
        entry("c", "local", Some("~other/x"), None),
        entry("d", "local", Some("/a/~/b"), None),
        entry("e", "local", Some("~"), None),
    ]))
    .ok()
    .unwrap();
    assert_eq!(
        stores(registry),
        vec![
            pair("a", &format!("file {home}/.secrets true")),
            pair("b", &format!("program {home}/bin/vault")),
            pair("c", "file ~other/x true"),
            pair("d", "file /a/~/b true"),
            pair("e", &format!("file {home} true")),
        ]
    );
}

#[test]
fn expanded_paths_are_used_where_a_path_is_written() {
    let config = config(vec![
        entry("a", "local", Some("~/x"), None),
        entry("b", "local", None, None),
        entry("c", "external", None, Some("~/y")),
    ]);
    let expanded = vec!["/home/x".to_string(), "unused".to_string(), "/home/y".to_string()];
    let registry = plan_registry(&config, &expanded).ok().unwrap();
    assert_eq!(
        stores(registry),
        vec![
            pair("a", "file /home/x true"),
            pair("b", "file .secrets true"),
            pair("c", "program /home/y"),
        ]
    );
}

#[test]
fn the_first_bad_entry_is_reported() {
    let missing = build_registry(&config(vec![
        entry("ok", "local", None, None),
        entry("bw", "external", Some("/x"), None),
        entry("odd", "vault", None, None),
    ]));
    assert_eq!(missing.err(), Some(SecretError::MissingProvider { store: "bw".to_string() }));
    let unknown = build_registry(&config(vec![
        entry("odd", "vault", None, None),
        entry("bw", "external", None, None),
    ]));
    assert_eq!(unknown.err(), Some(SecretError::UnknownBackend { backend: "vault".to_string() }));
    let mut nowhere = config(vec![entry("odd", "vault", None, None)]);
    nowhere.in_directory = false;
    assert_eq!(build_registry(&nowhere).err(), Some(SecretError::NoConfigDir));
}

struct Recorder {
    written: RefCell<Vec<(String, String)>>,
    refuses: Option<String>,
}

impl Recorder {
    fn new(refuses: Option<&str>) -> SecretRegistry<Recorder> {
        SecretRegistry::new(vec![(
            "local".to_string(),
            Recorder {
                written: RefCell::new(Vec::new()),
                refuses: refuses.map(|k| k.to_string()),
            },
        )])
    }
}

impl SecretStore for Recorder {
    fn get(&self, key: &str) -> Result<String, SecretError> {
        Err(SecretError::NotFound { key: key.to_string() })
    }

    fn set(&self, key: &str, value: &str) -> Result<(), SecretError> {
        if self.refuses.as_deref() == Some(key) {
            return Err(SecretError::Backend { message: "refused".to_string() });
        }
        self.written.borrow_mut().push((key.to_string(), value.to_string()));
        Ok(())
    }

    fn list(&self) -> Result<Vec<String>, SecretError> {
        Ok(self.written.borrow().iter().map(|(k, _)| k.clone()).collect())
    }

    fn delete(&self, key: &str) -> Result<(), SecretError> {
        Err(SecretError::NotFound { key: key.to_string() })
    }
}

fn channel(token: &str) -> Option<ChannelConfig> {
    Some(ChannelConfig { bot_token: token.to_string() })
}

fn full_config() -> Config {
    let mut c = config(vec![]);
    c.api_key = Some("sk".to_string());
    c.channels_config.telegram = channel("t");
    c.channels_config.discord = channel("d");
    c.channels_config.slack = channel("s");
    c
}

fn tokens(c: &Config) -> Vec<Option<String>> {
    let token = |c: &Option<ChannelConfig>| c.as_ref().map(|c| c.bot_token.clone());
    vec![
        c.api_key.clone(),
        token(&c.channels_config.telegram),
        token(&c.channels_config.discord),
        token(&c.channels_config.slack),
    ]
}

fn some(text: &str) -> Option<String> {
    Some(text.to_string())
}

#[test]
fn migration_moves_every_credential() {
    let registry = Recorder::new(None);
    let mut c = full_config();
    let saves: Cell<usize> = Cell::new(0);
    let save = |_c: &Config| -> Result<(), SecretError> {
        saves.set(saves.get() + 1);
        Ok(())
    };
    assert_eq!(migrate_config_credentials(&mut c, &registry, save), Ok(4));
    assert_eq!(tokens(&c), vec![None, some(""), some(""), some("")]);
    assert_eq!(
        *registry.store_at(0).written.borrow(),
        vec![
            pair("__API_KEY", "sk"),
            pair("__TELEGRAM_TOKEN", "t"),
            pair("__DISCORD_TOKEN", "d"),
            pair("__SLACK_TOKEN", "s"),
        ]
    );
    assert_eq!(saves.get(), 1);
    assert_eq!(registry.list(None, false), Ok(vec![]));
    assert_eq!(registry.list(None, true).unwrap().len(), 4);
    assert_eq!(migrate_config_credentials(&mut c, &registry, save), Ok(0));
    assert_eq!(saves.get(), 1);
}

#[test]
fn migration_passes_over_what_is_not_there() {
    let registry = Recorder::new(None);
    let mut c = full_config();
    c.api_key = Some(String::new());
    c.channels_config.telegram = None;
    c.channels_config.discord = channel("");
    let save = |c: &Config| -> Result<(), SecretError> {
        assert_eq!(tokens(c), vec![some(""), None, some(""), some("")]);
        Ok(())
    };
    assert_eq!(migrate_config_credentials(&mut c, &registry, save), Ok(1));
    assert_eq!(tokens(&c), vec![some(""), None, some(""), some("")]);
    assert_eq!(*registry.store_at(0).written.borrow(), vec![pair("__SLACK_TOKEN", "s")]);
}

#[test]
fn migration_ends_at_the_first_refusal() {
    let registry = Recorder::new(Some("__DISCORD_TOKEN"));
    let mut c = full_config();
    let save = |_c: &Config| -> Result<(), SecretError> { panic!("must not be saved") };
    assert_eq!(
        migrate_config_credentials(&mut c, &registry, save),
        Err(SecretError::Backend { message: "refused".to_string() })
    );
    assert_eq!(tokens(&c), vec![None, some(""), some("d"), some("s")]);
}

#[test]
fn migration_needs_a_store() {
    let registry: SecretRegistry<Recorder> = SecretRegistry::new(vec![]);
    let mut c = full_config();
    let save = |_c: &Config| -> Result<(), SecretError> { Ok(()) };
    assert_eq!(migrate_config_credentials(&mut c, &registry, save), Err(SecretError::NoStores));
    assert_eq!(tokens(&c), tokens(&full_config()));
}

#[test]
fn migration_reports_a_failed_save() {
    let registry = Recorder::new(None);
    let mut c = full_config();
    let save = |_c: &Config| -> Result<(), SecretError> {
        Err(SecretError::Backend { message: "read-only".to_string() })
    };
    assert_eq!(
        migrate_config_credentials(&mut c, &registry, save),
        Err(SecretError::Backend { message: "read-only".to_string() })
    );
    assert_eq!(tokens(&c), vec![None, some(""), some(""), some("")]);
}

#[test]
fn migration_can_be_run_step_by_step() {
    let mut c = full_config();
    c.channels_config.telegram = None;
    let mut stored = Vec::new();
    let mut step = start_migration(&c);
    let outcome = loop {
        match step {
            MigrationStep::Store { at, key, value } => {
                stored.push((key, value));
                step = resume_migration(&mut c, at, Ok(()));
            }
            MigrationStep::Save { migrated } => break finish_migration(migrated, Ok(())),
            MigrationStep::Done(r) => break r,
        }
    };
    assert_eq!(outcome, Ok(3));
    assert_eq!(
        stored,
        vec![pair("__API_KEY", "sk"), pair("__DISCORD_TOKEN", "d"), pair("__SLACK_TOKEN", "s")]
    );
    assert!(matches!(start_migration(&c), MigrationStep::Done(Ok(0))));
}
