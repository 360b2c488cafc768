//! Commands on key/value entries: listing, showing, writing and
//! deleting entries in the active scope, and the bulk export and
//! import flows.

use vstd::prelude::*;
use crate::keys::{prefix_key, strip_key, spec_prefixed, spec_stripped};
use crate::orchestrate::{
    Decision, ImportSummary, VaultState, build_export, resolve_decisions, run_import,
    spec_resolved, spec_skip_count, spec_run_import, spec_export_of, spec_vault_set,
    decision_views,
};
use crate::resolver::ActiveContext;
use crate::secretref::{
    build_reference, spec_camel, spec_canonical_uri, spec_normalized_vault, SecretReferenceV,
};
use crate::serialize::{
    ExportFormat, ImportParseError, parse_import, serialize_export, spec_emit_json,
    spec_emit_yaml, spec_emit_toml, spec_import_outcome, import_views,
};
use crate::store::{ConfigEntry, ConfigEntryV, StoreState, StoreError, spec_get, spec_set, spec_delete, entry_views};
use crate::text::spec_starts_with;

verus! {

/// The keys stored in the active scope, shown application-relative.
#[verifier::loop_isolation(false)]
pub fn list_keys(store: &StoreState, ctx: &ActiveContext) -> (r: Vec<String>)
    ensures
        r@.map_values(|s: String| s@) == store.view_entries().filter(
            |e: ConfigEntryV|
                e.label == ctx.label@ && spec_starts_with(
                    e.key,
                    spec_prefixed(ctx.app@, ctx.separator@, Seq::<char>::empty()),
                ),
        ).map_values(|e: ConfigEntryV| spec_stripped(ctx.app@, ctx.separator@, e.key)),
{
    let scope = prefix_key(ctx.app.as_str(), ctx.separator.as_str(), "");
    proof {
        reveal_strlit("");
        assert(scope@ == spec_prefixed(ctx.app@, ctx.separator@, Seq::<char>::empty()));
    }
    let in_scope = store.list_entries(scope.as_str(), ctx.label.as_str());
    let ghost sv = entry_views(in_scope@);
    let mut out: Vec<String> = Vec::new();
    let mut i: usize = 0;
    proof {
        assert(out@.map_values(|s: String| s@) =~= sv.subrange(0, 0).map_values(
            |e: ConfigEntryV| spec_stripped(ctx.app@, ctx.separator@, e.key),
        ));
    }
    while i < in_scope.len()
        invariant
            i <= in_scope@.len(),
            sv == entry_views(in_scope@),
            out@.map_values(|s: String| s@) == sv.subrange(0, i as int).map_values(
                |e: ConfigEntryV| spec_stripped(ctx.app@, ctx.separator@, e.key),
            ),
        decreases in_scope@.len() - i,
    {
        let stripped = strip_key(ctx.app.as_str(), ctx.separator.as_str(), in_scope[i].key.as_str());
        let ghost out_old = out@;
        out.push(stripped);
        proof {
            assert(sv[i as int] == in_scope@[i as int]@);
            assert(out@.map_values(|s: String| s@) =~= out_old.map_values(|s: String| s@).push(
                spec_stripped(ctx.app@, ctx.separator@, sv[i as int].key),
            ));
            assert(sv.subrange(0, i as int + 1) =~= sv.subrange(0, i as int).push(sv[i as int]));
            assert(sv.subrange(0, i as int + 1).map_values(
                |e: ConfigEntryV| spec_stripped(ctx.app@, ctx.separator@, e.key),
            ) =~= out@.map_values(|s: String| s@));
        }
        i = i + 1;
    }
    proof {
        assert(sv.subrange(0, sv.len() as int) =~= sv);
    }
    out
}

/// Shows the entry stored under a relative key in the active scope.
pub fn show_key(store: &StoreState, ctx: &ActiveContext, key: &str) -> (r: Result<
    ConfigEntry,
    StoreError,
>)
    ensures
        match spec_get(
            store.view_entries(),
            spec_prefixed(ctx.app@, ctx.separator@, key@),
            ctx.label@,
        ) {
            Some(e) => r matches Ok(c) && c@ == e,
            None => r matches Err(err) && (err matches StoreError::NotFound(k) && k@
                == spec_prefixed(ctx.app@, ctx.separator@, key@)),
        },
{
    let full_key = prefix_key(ctx.app.as_str(), ctx.separator.as_str(), key);
    store.show_entry(full_key.as_str(), ctx.label.as_str())
}

/// Writes a relative key in the active scope: directly, or through the
/// vault as a secret indirection. Refused, with a diagnostic naming
/// the key, when a secret write has no vault to go to.
pub fn set_key(
    store: &mut StoreState,
    vault_store: &mut VaultState,
    ctx: &ActiveContext,
    key: &str,
    value: &str,
    use_keyvault: bool,
) -> (r: Result<ConfigEntry, String>)
    requires
        old(store).wf(),
    ensures
        final(store).wf(),
        ({
            let fk = spec_prefixed(ctx.app@, ctx.separator@, key@);
            if !use_keyvault {
                &&& r matches Ok(c) && c@ == (ConfigEntryV {
                    key: fk,
                    label: ctx.label@,
                    value: value@,
                    secret_content_type: false,
                })
                &&& final(store).view_entries() == spec_set(
                    old(store).view_entries(),
                    fk,
                    ctx.label@,
                    value@,
                    false,
                )
                &&& final(vault_store).view_secrets() == old(vault_store).view_secrets()
            } else {
                match ctx@.vault {
                    None => (r matches Err(m) && m@ == "No vault is configured for key '"@ + fk
                        + "'"@) && *final(store) == *old(store) && *final(vault_store) == *old(
                        vault_store,
                    ),
                    Some(vb) => {
                        let rf = SecretReferenceV {
                            vault_base: spec_normalized_vault(vb),
                            name: spec_camel(fk, false),
                            version: None,
                        };
                        &&& r matches Ok(c) && c@ == (ConfigEntryV {
                            key: fk,
                            label: ctx.label@,
                            value: spec_canonical_uri(rf),
                            secret_content_type: true,
                        })
                        &&& final(store).view_entries() == spec_set(
                            old(store).view_entries(),
                            fk,
                            ctx.label@,
                            spec_canonical_uri(rf),
                            true,
                        )
                        &&& final(vault_store).view_secrets() == spec_vault_set(
                            old(vault_store).view_secrets(),
                            rf.name,
                            value@,
                        )
                    },
                }
            }
        }),
{
    let full_key = prefix_key(ctx.app.as_str(), ctx.separator.as_str(), key);
    if !use_keyvault {
        let stored = store.set_entry(full_key.as_str(), value, ctx.label.as_str(), false);
        return Ok(stored);
    }
    match &ctx.vault {
        None => {
            let mut m = "No vault is configured for key '".to_owned();
            m.append(full_key.as_str());
            m.append("'");
            Err(m)
        },
        Some(vb) => {
            let rf = build_reference(vb.as_str(), full_key.as_str());
            vault_store.set_secret(rf.name.as_str(), value);
            let uri = rf.canonical_uri();
            let stored = store.set_secret_reference(full_key.as_str(), uri.as_str(), ctx.label.as_str());
            Ok(stored)
        },
    }
}

/// Deletes a relative key in the active scope.
pub fn delete_key(store: &mut StoreState, ctx: &ActiveContext, key: &str)
    requires
        old(store).wf(),
    ensures
        final(store).wf(),
        final(store).view_entries() == spec_delete(
            old(store).view_entries(),
            spec_prefixed(ctx.app@, ctx.separator@, key@),
            ctx.label@,
        ),
{
    let full_key = prefix_key(ctx.app.as_str(), ctx.separator.as_str(), key);
    store.delete_entry(full_key.as_str(), ctx.label.as_str());
}

/// Exports the active scope in the chosen format, with secret values
/// resolved from the vault.
pub fn export_entries(
    store: &StoreState,
    vault_store: &VaultState,
    ctx: &ActiveContext,
    format: ExportFormat,
) -> (r: String)
    ensures
        ({
            let rows = spec_export_of(
                store.view_entries().filter(
                    |e: ConfigEntryV|
                        e.label == ctx.label@ && spec_starts_with(
                            e.key,
                            spec_prefixed(ctx.app@, ctx.separator@, Seq::<char>::empty()),
                        ),
                ),
                vault_store.view_secrets(),
                ctx.app@,
                ctx.separator@,
                true,
            );
            match format {
                ExportFormat::Json => r@ == spec_emit_json(rows),
                ExportFormat::Yaml => r@ == spec_emit_yaml(rows),
                ExportFormat::Toml => r@ == spec_emit_toml(rows),
            }
        }),
{
    let rows = build_export(store, vault_store, ctx, true);
    serialize_export(&rows, format)
}

/// Imports a file into the active scope: the content is read with
/// format auto-detection, undecided entries are resolved through the
/// decision table, and the batch is applied with per-entry failure
/// isolation.
pub fn import_entries(
    store: &mut StoreState,
    vault_store: &mut VaultState,
    ctx: &ActiveContext,
    content: &str,
    file_name: &str,
    decisions: &Vec<(String, Decision)>,
) -> (r: Result<ImportSummary, ImportParseError>)
    requires
        old(store).wf(),
    ensures
        final(store).wf(),
        match spec_import_outcome(content@, file_name@) {
            Err(f) => (r matches Err(e) && e.format == f) && *final(store) == *old(store)
                && *final(vault_store) == *old(vault_store),
            Ok(es) => {
                let resolved = spec_resolved(es, decision_views(decisions@));
                let o = spec_run_import(
                    old(store).view_entries(),
                    old(vault_store).view_secrets(),
                    ctx.app@,
                    ctx.separator@,
                    ctx.label@,
                    ctx@.vault,
                    resolved,
                );
                &&& r matches Ok(s)
                &&& final(store).view_entries() == o.0
                &&& final(vault_store).view_secrets() == o.1
                &&& (r matches Ok(s) ==> s.succeeded as int == o.2 && s.total == resolved.len()
                    && s.failed == resolved.len() - s.succeeded && s.skipped as int
                    == spec_skip_count(es, decision_views(decisions@)))
            },
        },
{
    let entries = match parse_import(content, file_name) {
        Err(e) => {
            return Err(e);
        },
        Ok(es) => es,
    };
    let (resolved, skipped) = resolve_decisions(&entries, decisions);
    let summary = run_import(store, vault_store, ctx, &resolved, skipped);
    Ok(summary)
}

} // verus!
