use guild_auth::config::{ConfigStore, ConfigStoreError, CreateScript, GuildMetaConfig, JoinedGuild, ScriptContext};

fn new_script(name: &str, source: &str) -> CreateScript {
    CreateScript { name: name.to_string(), original_source: source.to_string(), compiled_js: format!("compiled({})", source) }
}

fn joined(id: u64, name: &str) -> JoinedGuild {
    JoinedGuild { id, name: name.to_string(), icon: "icon".to_string(), owner_id: 7 }
}

#[test]
fn created_script_is_found_and_not_overwritten() {
    let mut store = ConfigStore::new();
    let created = store.create_script(10, new_script("greet", "a")).unwrap();
    assert_eq!(created.name, "greet");
    assert_eq!(created.original_source, "a");
    let got = store.get_script(10, "greet".to_string()).unwrap();
    assert_eq!(got.name, "greet");
    assert_eq!(got.id, created.id);
    let again = store.create_script(10, new_script("greet", "b"));
    assert!(matches!(again, Err(ConfigStoreError::ScriptAlreadyExists)));
    assert_eq!(store.get_script(10, "greet".to_string()).unwrap().original_source, "a");
}

#[test]
fn same_name_in_other_guild_is_separate() {
    let mut store = ConfigStore::new();
    let a = store.create_script(1, new_script("s", "a")).unwrap();
    let b = store.create_script(2, new_script("s", "b")).unwrap();
    assert_ne!(a.id, b.id);
    assert_eq!(store.get_script(2, "s".to_string()).unwrap().original_source, "b");
    assert_eq!(store.list_scripts(1).len(), 1);
    assert_eq!(store.list_scripts(3).len(), 0);
}

#[test]
fn missing_script_errors() {
    let mut store = ConfigStore::new();
    assert!(matches!(store.get_script(1, "x".to_string()), Err(ConfigStoreError::ScriptNotFound)));
    assert!(matches!(store.del_script(1, "x".to_string()), Err(ConfigStoreError::ScriptNotFound)));
    assert!(matches!(store.link_script(1, "x".to_string(), ScriptContext::Guild), Err(ConfigStoreError::ScriptNotFound)));
    assert!(matches!(store.unlink_script(1, "x".to_string(), ScriptContext::Guild), Err(ConfigStoreError::LinkNotFound)));
    let missing = store.create_script(1, new_script("y", "a")).unwrap();
    let mut renamed = missing;
    renamed.name = "z".to_string();
    assert!(matches!(store.update_script(1, renamed), Err(ConfigStoreError::ScriptNotFound)));
}

#[test]
fn update_keeps_id_and_replaces_source() {
    let mut store = ConfigStore::new();
    let s = store.create_script(4, new_script("s", "old")).unwrap();
    let mut changed = store.get_script(4, "s".to_string()).unwrap();
    changed.id = 999;
    changed.original_source = "new".to_string();
    let updated = store.update_script(4, changed).unwrap();
    assert_eq!(updated.id, s.id);
    assert_eq!(updated.original_source, "new");
    assert_eq!(store.get_script(4, "s".to_string()).unwrap().original_source, "new");
}

#[test]
fn deleting_a_script_removes_its_links() {
    let mut store = ConfigStore::new();
    store.create_script(5, new_script("s", "a")).unwrap();
    store.create_script(5, new_script("t", "a")).unwrap();
    store.link_script(5, "s".to_string(), ScriptContext::Guild).unwrap();
    store.link_script(5, "s".to_string(), ScriptContext::Channel(3)).unwrap();
    store.link_script(5, "t".to_string(), ScriptContext::Role(8)).unwrap();
    assert_eq!(store.list_script_links(5, "s".to_string()).len(), 2);
    store.del_script(5, "s".to_string()).unwrap();
    assert_eq!(store.list_script_links(5, "s".to_string()).len(), 0);
    assert_eq!(store.list_links(5).len(), 1);
    assert!(matches!(store.get_script(5, "s".to_string()), Err(ConfigStoreError::ScriptNotFound)));
}

#[test]
fn link_then_unlink_changes_context_scripts() {
    let mut store = ConfigStore::new();
    store.create_script(6, new_script("s", "a")).unwrap();
    store.create_script(6, new_script("other", "a")).unwrap();
    let link = store.link_script(6, "s".to_string(), ScriptContext::Guild).unwrap();
    assert_eq!(link.script_name, "s");
    assert_eq!(link.context, ScriptContext::Guild);
    let listed = store.list_context_scripts(6, ScriptContext::Guild);
    assert_eq!(listed.len(), 1);
    assert_eq!(listed[0].name, "s");
    assert_eq!(store.list_context_scripts(6, ScriptContext::Channel(1)).len(), 0);
    store.unlink_script(6, "s".to_string(), ScriptContext::Guild).unwrap();
    assert_eq!(store.list_context_scripts(6, ScriptContext::Guild).len(), 0);
    assert!(matches!(store.unlink_script(6, "s".to_string(), ScriptContext::Guild), Err(ConfigStoreError::LinkNotFound)));
}

#[test]
fn linking_twice_stores_one_link() {
    let mut store = ConfigStore::new();
    store.create_script(6, new_script("s", "a")).unwrap();
    store.link_script(6, "s".to_string(), ScriptContext::Role(2)).unwrap();
    store.link_script(6, "s".to_string(), ScriptContext::Role(2)).unwrap();
    assert_eq!(store.list_links(6).len(), 1);
}

#[test]
fn unlink_all_counts_removed_links() {
    let mut store = ConfigStore::new();
    store.create_script(9, new_script("s", "a")).unwrap();
    store.link_script(9, "s".to_string(), ScriptContext::Guild).unwrap();
    store.link_script(9, "s".to_string(), ScriptContext::Channel(1)).unwrap();
    store.link_script(9, "s".to_string(), ScriptContext::Channel(2)).unwrap();
    assert_eq!(store.unlink_all_script(9, "s".to_string()), 3);
    assert_eq!(store.unlink_all_script(9, "s".to_string()), 0);
    assert!(store.get_script(9, "s".to_string()).is_ok());
}

#[test]
fn meta_config_defaults_for_untouched_guild() {
    let mut store = ConfigStore::new();
    let conf = store.get_guild_meta_config_or_default(77);
    assert_eq!(conf.guild_id, 77);
    assert_eq!(conf.error_channel_id, None);
    assert!(store.get_guild_meta_config(77).is_none());
    store.update_guild_meta_config(&GuildMetaConfig { guild_id: 77, error_channel_id: Some(12) });
    assert_eq!(store.get_guild_meta_config_or_default(77).error_channel_id, Some(12));
    store.update_guild_meta_config(&GuildMetaConfig { guild_id: 77, error_channel_id: Some(13) });
    assert_eq!(store.get_guild_meta_config(77).unwrap().error_channel_id, Some(13));
    assert_eq!(store.get_guild_meta_config_or_default(78).error_channel_id, None);
}

#[test]
fn joined_guild_upsert_and_remove() {
    let mut store = ConfigStore::new();
    store.add_update_joined_guild(joined(1, "first"));
    store.add_update_joined_guild(joined(1, "second"));
    let found = store.get_joined_guilds(&[1]);
    assert_eq!(found.len(), 1);
    assert_eq!(found[0].name, "second");
    assert!(store.remove_joined_guild(1));
    assert!(!store.remove_joined_guild(1));
    assert_eq!(store.get_joined_guilds(&[1]).len(), 0);
}

#[test]
fn joined_guilds_follow_requested_order_and_skip_missing() {
    let mut store = ConfigStore::new();
    store.add_update_joined_guild(joined(1, "one"));
    store.add_update_joined_guild(joined(2, "two"));
    let found = store.get_joined_guilds(&[2, 5, 1]);
    assert_eq!(found.len(), 2);
    assert_eq!(found[0].name, "two");
    assert_eq!(found[1].name, "one");
}
