use azac::ctxstore::{
    clone_context, current_context, delete_context, get_context, list_contexts, rename_context,
    save_context, set_current, update_context, Context, ContextError, ContextStore,
};
use azac::keys::{prefix_key, strip_key};
use azac::resolver::{get_active, ResolveError};
use azac::secretref::{build_reference, decode, normalize_vault_base, secret_name_of_key};
use azac::store::{StoreError, StoreState};

fn ctx(alias: &str) -> Context {
    Context {
        alias: alias.to_string(),
        sub: "sub-1".to_string(),
        name: "store-1".to_string(),
        base: "app1".to_string(),
        separator: ":".to_string(),
        label: "default".to_string(),
        vault: None,
    }
}

#[test]
fn prefix_then_strip_returns_key() {
    let full = prefix_key("app1:prd", ":", "DB_HOST");
    assert_eq!(full, "app1:prd:DB_HOST");
    assert_eq!(strip_key("app1:prd", ":", &full), "DB_HOST");
}

#[test]
fn prefix_with_empty_app_is_identity() {
    let full = prefix_key("", ":", "DB_HOST");
    assert_eq!(full, "DB_HOST");
    assert_eq!(strip_key("", ":", &full), "DB_HOST");
}

#[test]
fn strip_leaves_foreign_keys_alone() {
    assert_eq!(strip_key("app1", ":", "other:KEY"), "other:KEY");
}

#[test]
fn decode_inline_secret_uri_roundtrip() {
    let value = "@Indirection(SecretUri=https://v1.vault.azure.net/secrets/dbPass/ver7)";
    let r = decode(value, false).expect("inline form should decode");
    assert_eq!(r.vault_base, "https://v1.vault.azure.net");
    assert_eq!(r.name, "dbPass");
    assert_eq!(r.version.as_deref(), Some("ver7"));
    assert_eq!(r.canonical_uri(), "https://v1.vault.azure.net/secrets/dbPass/ver7");
    let again = decode(&r.canonical_uri(), true).expect("canonical address should decode");
    assert_eq!(again.vault_base, r.vault_base);
    assert_eq!(again.name, r.name);
    assert_eq!(again.version, r.version);
}

#[test]
fn decode_inline_vault_fields_roundtrip() {
    let value = "@Indirection(VaultName=v1;SecretName=dbPass;SecretVersion=ver7)";
    let r = decode(value, false).expect("field form should decode");
    assert_eq!(r.vault_base, "https://v1.vault.azure.net");
    assert_eq!(r.name, "dbPass");
    assert_eq!(r.version.as_deref(), Some("ver7"));
    let reencoded = r.canonical_uri();
    let again = decode(&reencoded, true).expect("re-encoded address should decode");
    assert_eq!(again.name, "dbPass");
    assert_eq!(again.vault_base, "https://v1.vault.azure.net");
    assert_eq!(again.version.as_deref(), Some("ver7"));
}

#[test]
fn decode_inline_field_names_are_case_insensitive() {
    let value = "@Indirection(VAULTNAME=v1;secretname=dbPass)";
    let r = decode(value, false).expect("case-folded field names should decode");
    assert_eq!(r.vault_base, "https://v1.vault.azure.net");
    assert_eq!(r.name, "dbPass");
    assert_eq!(r.version, None);
}

#[test]
fn decode_inline_direct_address_wins_over_fields() {
    let value = "@Indirection(SecretUri=https://a.vault.azure.net/secrets/x;VaultName=b;SecretName=y)";
    let r = decode(value, false).expect("should decode");
    assert_eq!(r.vault_base, "https://a.vault.azure.net");
    assert_eq!(r.name, "x");
}

#[test]
fn decode_structured_payload_roundtrip() {
    let value = "{\"uri\": \"https://v1.vault.azure.net/secrets/dbPass\"}";
    let r = decode(value, false).expect("payload should decode");
    assert_eq!(r.vault_base, "https://v1.vault.azure.net");
    assert_eq!(r.name, "dbPass");
    assert_eq!(r.version, None);
    let secret_uri = "{\"secretUri\": \"https://v1.vault.azure.net/secrets/other\"}";
    let r2 = decode(secret_uri, false).expect("secretUri payload should decode");
    assert_eq!(r2.name, "other");
}

#[test]
fn decode_bare_address_needs_content_type() {
    let value = "https://v1.vault.azure.net/secrets/dbPass";
    assert!(decode(value, false).is_none());
    let r = decode(value, true).expect("flagged address should decode");
    assert_eq!(r.name, "dbPass");
}

#[test]
fn plain_values_do_not_decode() {
    assert!(decode("just a value", false).is_none());
    assert!(decode("just a value", true).is_none());
}

#[test]
fn secret_name_folds_key_to_camel_case() {
    assert_eq!(secret_name_of_key("app1:prd:db-host"), "app1PrdDbHost");
    assert_eq!(secret_name_of_key("simple"), "simple");
    assert_eq!(secret_name_of_key("a_b_c"), "aBC");
}

#[test]
fn vault_base_normalization() {
    assert_eq!(normalize_vault_base("myvault"), "https://myvault.vault.azure.net");
    assert_eq!(normalize_vault_base("https://x.example.net/"), "https://x.example.net");
    assert_eq!(normalize_vault_base("https://x.example.net"), "https://x.example.net");
}

#[test]
fn build_reference_combines_vault_and_key() {
    let r = build_reference("v1", "app1:prd:db-host");
    assert_eq!(r.vault_base, "https://v1.vault.azure.net");
    assert_eq!(r.name, "app1PrdDbHost");
    assert!(r.version.is_none());
}

#[test]
fn store_set_twice_reads_back_once() {
    let mut st = StoreState::new_empty();
    st.set_entry("app1:KEY", "value-1", "default", false);
    st.set_entry("app1:KEY", "value-1", "default", false);
    assert_eq!(st.entries.len(), 1);
    let e = st.show_entry("app1:KEY", "default").expect("key should be present");
    assert_eq!(e.value, "value-1");
}

#[test]
fn store_show_missing_key_reports_not_found() {
    let st = StoreState::new_empty();
    match st.show_entry("absent", "default") {
        Err(StoreError::NotFound(k)) => assert_eq!(k, "absent"),
        _ => panic!("expected NotFound"),
    }
}

#[test]
fn store_delete_removes_entry() {
    let mut st = StoreState::new_empty();
    st.set_entry("k", "v", "", false);
    st.delete_entry("k", "");
    assert!(st.show_entry("k", "").is_err());
}

#[test]
fn context_save_and_lookup() {
    let mut store = ContextStore::empty();
    save_context(&mut store, ctx("dev")).expect("first save should pass");
    match save_context(&mut store, ctx("dev")) {
        Err(ContextError::DuplicateAlias(a)) => assert_eq!(a, "dev"),
        _ => panic!("expected DuplicateAlias"),
    }
    let got = get_context(&store, "dev").expect("saved context should be found");
    assert_eq!(got.alias, "dev");
    match get_context(&store, "nope") {
        Err(ContextError::UnknownAlias(a)) => assert_eq!(a, "nope"),
        _ => panic!("expected UnknownAlias"),
    }
}

#[test]
fn context_blank_alias_is_refused() {
    let mut store = ContextStore::empty();
    match save_context(&mut store, ctx("   ")) {
        Err(ContextError::EmptyAlias) => {}
        _ => panic!("expected EmptyAlias"),
    }
}

#[test]
fn context_current_selection() {
    let mut store = ContextStore::empty();
    save_context(&mut store, ctx("dev")).unwrap();
    assert!(current_context(&store).unwrap().is_none());
    set_current(&mut store, "dev").unwrap();
    let cur = current_context(&store).unwrap().expect("current should be set");
    assert_eq!(cur.alias, "dev");
    assert!(set_current(&mut store, "missing").is_err());
}

#[test]
fn dangling_current_selection_is_reported() {
    let store = ContextStore { current: Some("gone".to_string()), contexts: Vec::new() };
    match current_context(&store) {
        Err(ContextError::CurrentContextMissing(a)) => assert_eq!(a, "gone"),
        _ => panic!("expected CurrentContextMissing"),
    }
}

#[test]
fn context_rename_follows_current() {
    let mut store = ContextStore::empty();
    save_context(&mut store, ctx("dev")).unwrap();
    set_current(&mut store, "dev").unwrap();
    rename_context(&mut store, "dev", "prod").unwrap();
    let cur = current_context(&store).unwrap().expect("current follows rename");
    assert_eq!(cur.alias, "prod");
    assert!(get_context(&store, "dev").is_err());
}

#[test]
fn context_clone_and_delete() {
    let mut store = ContextStore::empty();
    save_context(&mut store, ctx("dev")).unwrap();
    clone_context(&mut store, "dev", "copy").unwrap();
    assert_eq!(get_context(&store, "copy").unwrap().sub, "sub-1");
    set_current(&mut store, "copy").unwrap();
    delete_context(&mut store, "copy").unwrap();
    assert!(current_context(&store).unwrap().is_none());
    match delete_context(&mut store, "copy") {
        Err(ContextError::UnknownAlias(_)) => {}
        _ => panic!("expected UnknownAlias"),
    }
}

#[test]
fn context_update_replaces_fields() {
    let mut store = ContextStore::empty();
    save_context(&mut store, ctx("dev")).unwrap();
    let mut newer = ctx("dev");
    newer.label = "staging".to_string();
    update_context(&mut store, "dev", newer).unwrap();
    assert_eq!(get_context(&store, "dev").unwrap().label, "staging");
}

#[test]
fn context_list_is_sorted_by_alias() {
    let mut store = ContextStore::empty();
    save_context(&mut store, ctx("zeta")).unwrap();
    save_context(&mut store, ctx("alpha")).unwrap();
    save_context(&mut store, ctx("midway")).unwrap();
    set_current(&mut store, "midway").unwrap();
    let rows = list_contexts(&store);
    let aliases: Vec<&str> = rows.iter().map(|r| r.0.alias.as_str()).collect();
    assert_eq!(aliases, vec!["alpha", "midway", "zeta"]);
    let flags: Vec<bool> = rows.iter().map(|r| r.1).collect();
    assert_eq!(flags, vec![false, true, false]);
}

#[test]
fn resolver_reports_missing_pieces() {
    let store = ContextStore::empty();
    match get_active(&store, false, false) {
        Err(ResolveError::NotConfigured) => {}
        _ => panic!("expected NotConfigured"),
    }
    let mut store = ContextStore::empty();
    let mut c = ctx("dev");
    c.base = "".to_string();
    save_context(&mut store, c).unwrap();
    set_current(&mut store, "dev").unwrap();
    match get_active(&store, true, false) {
        Err(ResolveError::MissingApplication) => {}
        _ => panic!("expected MissingApplication"),
    }
    let mut store2 = ContextStore::empty();
    let mut c2 = ctx("dev");
    c2.label = "".to_string();
    save_context(&mut store2, c2).unwrap();
    set_current(&mut store2, "dev").unwrap();
    match get_active(&store2, true, true) {
        Err(ResolveError::MissingLabel) => {}
        _ => panic!("expected MissingLabel"),
    }
    let active = get_active(&store2, true, false).expect("app is set");
    assert_eq!(active.app, "app1");
    assert_eq!(active.separator, ":");
}
