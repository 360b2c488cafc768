use azac::commands::app::{list_apps, show_app, show_current_app, use_app};
use azac::commands::cfg::{list_configs, set_separator, show_config, use_config};
use azac::commands::kv::{
    delete_key, export_entries, import_entries, list_keys, set_key, show_key,
};
use azac::ctxstore::{save_context, set_current, Context, ContextStore};
use azac::orchestrate::{worker_count, Decision, VaultState};
use azac::resolver::ActiveContext;
use azac::serialize::{parse_import, ExportFormat, ImportFormat, ImportKind};
use azac::store::StoreState;

fn active(vault: Option<&str>) -> ActiveContext {
    ActiveContext {
        sub: "sub-1".to_string(),
        store_name: "store-1".to_string(),
        app: "app1".to_string(),
        separator: ":".to_string(),
        label: "default".to_string(),
        vault: vault.map(|v| v.to_string()),
    }
}

fn no_decisions() -> Vec<(String, Decision)> {
    Vec::new()
}

#[test]
fn empty_file_fails_every_format() {
    for name in ["data.json", "data.yaml", "data.toml", ".env", "mystery"] {
        assert!(parse_import("", name).is_err(), "empty {name} must not parse");
    }
}

#[test]
fn single_env_line_without_newline_parses() {
    let entries = parse_import("KEY=VALUE", ".env").expect("single line should parse");
    assert_eq!(entries.len(), 1);
    assert_eq!(entries[0].key, "KEY");
    assert_eq!(entries[0].value, "VALUE");
    assert_eq!(entries[0].kind, ImportKind::NeedsDecision);
}

#[test]
fn env_lines_with_comments_quotes_and_export() {
    let content = "# leading comment\n\nexport FOO=\"a b\\n\"\nBAR='lit#eral'\nBAZ=plain # trailing\n";
    let entries = parse_import(content, ".env.local").expect("env content should parse");
    assert_eq!(entries.len(), 3);
    assert_eq!(entries[0].key, "FOO");
    assert_eq!(entries[0].value, "a b\n");
    assert_eq!(entries[1].key, "BAR");
    assert_eq!(entries[1].value, "lit#eral");
    assert_eq!(entries[2].key, "BAZ");
    assert_eq!(entries[2].value, "plain");
}

#[test]
fn json_flat_and_tagged_entries() {
    let content = "{\"A\": \"1\", \"B\": {\"type\": \"keyvault\", \"value\": \"s\"}}";
    let entries = parse_import(content, "data.json").expect("json should parse");
    assert_eq!(entries.len(), 2);
    assert_eq!(entries[0].key, "A");
    assert_eq!(entries[0].kind, ImportKind::Plain);
    assert_eq!(entries[1].key, "B");
    assert_eq!(entries[1].kind, ImportKind::SecretIndirection);
    assert_eq!(entries[1].value, "s");
}

#[test]
fn yaml_flat_and_block_entries() {
    let content = "A: one\nB:\n  type: keyvault\n  value: \"s\"\n";
    let entries = parse_import(content, "data.yaml").expect("yaml should parse");
    assert_eq!(entries.len(), 2);
    assert_eq!(entries[0].key, "A");
    assert_eq!(entries[0].value, "one");
    assert_eq!(entries[0].kind, ImportKind::Plain);
    assert_eq!(entries[1].kind, ImportKind::SecretIndirection);
}

#[test]
fn toml_flat_and_section_entries() {
    let content = "A = \"one\"\n[B]\ntype = \"keyvault\"\nvalue = \"s\"\n";
    let entries = parse_import(content, "data.toml").expect("toml should parse");
    assert_eq!(entries.len(), 2);
    assert_eq!(entries[0].key, "A");
    assert_eq!(entries[0].kind, ImportKind::Plain);
    assert_eq!(entries[1].key, "B");
    assert_eq!(entries[1].kind, ImportKind::SecretIndirection);
}

#[test]
fn detection_falls_through_to_the_content() {
    let entries = parse_import("{\"A\": \"1\"}", "notes.txt").expect("cascade should reach JSON");
    assert_eq!(entries.len(), 1);
    assert_eq!(entries[0].key, "A");
    let err = parse_import("{{{", "data.json").unwrap_err();
    assert_eq!(err.format, ImportFormat::Env);
    assert!(!err.message.is_empty());
}

#[test]
fn export_then_import_reproduces_plain_entries() {
    let mut st = StoreState::new_empty();
    let mut vault = VaultState::new_empty();
    let ctx = active(None);
    set_key(&mut st, &mut vault, &ctx, "A", "1", false).unwrap();
    set_key(&mut st, &mut vault, &ctx, "B", "2", false).unwrap();
    let exported = export_entries(&st, &vault, &ctx, ExportFormat::Json);

    let mut st2 = StoreState::new_empty();
    let mut vault2 = VaultState::new_empty();
    let summary = import_entries(
        &mut st2,
        &mut vault2,
        &ctx,
        &exported,
        "export.json",
        &no_decisions(),
    )
    .expect("exported text should import");
    assert_eq!(summary.succeeded, 2);
    assert_eq!(summary.failed, 0);
    let exported_again = export_entries(&st2, &vault2, &ctx, ExportFormat::Json);
    assert_eq!(exported, exported_again);
}

#[test]
fn import_without_vault_skips_secret_entry() {
    let content = "{\"DB_HOST\": \"db.internal\", \"DB_PASS\": {\"type\":\"keyvault\",\"value\":\"s3cr3t\"}}";
    let mut st = StoreState::new_empty();
    let mut vault = VaultState::new_empty();
    let ctx = active(None);
    let summary = import_entries(&mut st, &mut vault, &ctx, content, "data.json", &no_decisions())
        .expect("content parses");
    assert_eq!(summary.succeeded, 1);
    assert_eq!(summary.failed, 1);
    assert_eq!(summary.total, 2);
    let host = show_key(&st, &ctx, "DB_HOST").expect("plain entry landed");
    assert_eq!(host.value, "db.internal");
    assert!(show_key(&st, &ctx, "DB_PASS").is_err());
}

#[test]
fn import_fifty_plain_entries_all_succeed() {
    let mut content = String::from("{");
    for i in 0..50 {
        if i > 0 {
            content.push(',');
        }
        content.push_str(&format!("\"K{i}\": \"v{i}\""));
    }
    content.push('}');
    let mut st = StoreState::new_empty();
    let mut vault = VaultState::new_empty();
    let ctx = active(None);
    let workers = worker_count(8, 50);
    assert_eq!(workers, 8);
    let summary = import_entries(&mut st, &mut vault, &ctx, &content, "bulk.json", &no_decisions())
        .expect("bulk content parses");
    assert_eq!(summary.succeeded, 50);
    assert_eq!(summary.total, 50);
    assert_eq!(summary.failed, 0);
    assert_eq!(list_keys(&st, &ctx).len(), 50);
}

#[test]
fn worker_count_is_bounded_and_positive() {
    assert_eq!(worker_count(8, 3), 3);
    assert_eq!(worker_count(2, 50), 2);
    assert_eq!(worker_count(0, 5), 1);
    assert_eq!(worker_count(4, 0), 1);
}

#[test]
fn reimport_updates_secret_in_place() {
    let mut st = StoreState::new_empty();
    let mut vault = VaultState::new_empty();
    let ctx = active(Some("v1"));
    let content = "{\"DB_PASS\": {\"type\":\"keyvault\",\"value\":\"old-secret\"}}";
    import_entries(&mut st, &mut vault, &ctx, content, "data.json", &no_decisions()).unwrap();
    let stored = show_key(&st, &ctx, "DB_PASS").expect("indirection stored");
    assert!(stored.secret_content_type);
    assert_eq!(vault.get_secret("app1DBPASS").as_deref(), Some("old-secret"));

    let update = "{\"DB_PASS\": \"new-secret\"}";
    let summary =
        import_entries(&mut st, &mut vault, &ctx, update, "data.json", &no_decisions()).unwrap();
    assert_eq!(summary.succeeded, 1);
    let after = show_key(&st, &ctx, "DB_PASS").expect("entry still there");
    assert_eq!(after.value, stored.value);
    assert!(after.secret_content_type);
    assert_eq!(vault.get_secret("app1DBPASS").as_deref(), Some("new-secret"));
}

#[test]
fn decisions_resolve_env_entries() {
    let content = "PLAIN_ONE=a\nSECRET_ONE=b\nDROPPED=c\n";
    let mut st = StoreState::new_empty();
    let mut vault = VaultState::new_empty();
    let ctx = active(Some("v1"));
    let decisions = vec![
        ("PLAIN_ONE".to_string(), Decision::KeepPlain),
        ("SECRET_ONE".to_string(), Decision::StoreAsSecret),
    ];
    let summary =
        import_entries(&mut st, &mut vault, &ctx, content, ".env", &decisions).unwrap();
    assert_eq!(summary.skipped, 1);
    assert_eq!(summary.succeeded, 2);
    assert_eq!(summary.total, 2);
    let plain = show_key(&st, &ctx, "PLAIN_ONE").unwrap();
    assert!(!plain.secret_content_type);
    let secret = show_key(&st, &ctx, "SECRET_ONE").unwrap();
    assert!(secret.secret_content_type);
    assert!(show_key(&st, &ctx, "DROPPED").is_err());
}

#[test]
fn set_key_through_vault_and_export_resolves_secret() {
    let mut st = StoreState::new_empty();
    let mut vault = VaultState::new_empty();
    let ctx = active(Some("v1"));
    set_key(&mut st, &mut vault, &ctx, "DB_PASS", "hunter2", true).unwrap();
    let stored = show_key(&st, &ctx, "DB_PASS").unwrap();
    assert!(stored.secret_content_type);
    assert_eq!(stored.value, "https://v1.vault.azure.net/secrets/app1DBPASS");
    let exported = export_entries(&st, &vault, &ctx, ExportFormat::Yaml);
    assert!(exported.contains("keyvault"));
    assert!(exported.contains("hunter2"));
}

#[test]
fn set_key_without_vault_fails_with_key_in_message() {
    let mut st = StoreState::new_empty();
    let mut vault = VaultState::new_empty();
    let ctx = active(None);
    let err = set_key(&mut st, &mut vault, &ctx, "DB_PASS", "x", true).unwrap_err();
    assert!(err.contains("app1:DB_PASS"));
}

#[test]
fn export_env_quotes_when_needed() {
    let mut st = StoreState::new_empty();
    let mut vault = VaultState::new_empty();
    let ctx = active(None);
    set_key(&mut st, &mut vault, &ctx, "SIMPLE", "a.b/c:1", false).unwrap();
    set_key(&mut st, &mut vault, &ctx, "SPACED", "a b", false).unwrap();
    let rows = azac::orchestrate::build_export(&st, &vault, &ctx, true);
    let text = azac::serialize::emit_env(&rows);
    assert_eq!(text, "SIMPLE=a.b/c:1\nSPACED=\"a b\"\n");
}

#[test]
fn list_and_delete_keys_in_scope() {
    let mut st = StoreState::new_empty();
    let mut vault = VaultState::new_empty();
    let ctx = active(None);
    set_key(&mut st, &mut vault, &ctx, "ONE", "1", false).unwrap();
    set_key(&mut st, &mut vault, &ctx, "TWO", "2", false).unwrap();
    st.set_entry("other:THREE", "3", "default", false);
    let keys = list_keys(&st, &ctx);
    assert_eq!(keys, vec!["ONE".to_string(), "TWO".to_string()]);
    delete_key(&mut st, &ctx, "ONE");
    assert_eq!(list_keys(&st, &ctx), vec!["TWO".to_string()]);
}

#[test]
fn apps_are_listed_by_first_segment() {
    let mut st = StoreState::new_empty();
    st.set_entry("app1:A", "1", "default", false);
    st.set_entry("app1:B", "2", "default", false);
    st.set_entry("app2:C", "3", "default", false);
    st.set_entry("app9:D", "4", "other-label", false);
    let ctx = active(None);
    assert_eq!(list_apps(&st, &ctx), vec!["app1".to_string(), "app2".to_string()]);
    assert_eq!(show_app(&st, &ctx, "app2"), vec!["C".to_string()]);
}

#[test]
fn cfg_commands_drive_the_context_store() {
    let mut store = ContextStore::empty();
    let c = Context {
        alias: "dev".to_string(),
        sub: "s".to_string(),
        name: "n".to_string(),
        base: "app1".to_string(),
        separator: ":".to_string(),
        label: "default".to_string(),
        vault: None,
    };
    save_context(&mut store, c).unwrap();
    use_config(&mut store, "dev").unwrap();
    assert_eq!(show_config(&store, "dev").unwrap().alias, "dev");
    assert_eq!(list_configs(&store).len(), 1);
    set_separator(&mut store, "/").unwrap();
    assert_eq!(show_config(&store, "dev").unwrap().separator, "/");
    use_app(&mut store, "app2").unwrap();
    assert_eq!(show_current_app(&store).unwrap(), "app2");
    azac::commands::app::set_label(&mut store, "prod").unwrap();
    azac::commands::app::set_keyvault(&mut store, "v9").unwrap();
    let cur = show_config(&store, "dev").unwrap();
    assert_eq!(cur.label, "prod");
    assert_eq!(cur.vault.as_deref(), Some("v9"));
}

#[test]
fn cache_readiness_flag() {
    let cache = azac::cache::SetupCache::new_empty();
    assert!(!cache.is_ready());
    let ready = azac::cache::SetupCache {
        subscriptions: Vec::new(),
        appconfigs: Vec::new(),
        keyvaults: Vec::new(),
        ready: true,
    };
    assert!(ready.is_ready());
}
