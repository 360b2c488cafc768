//! Bulk import orchestrator: resolves undecided entries through an
//! injected decision table, plans each write, applies the batch to the
//! store and vault models one entry at a time, and tallies the
//! outcome. One entry's failure never aborts the batch; the summary
//! reports succeeded, failed and skipped counts. A pool of workers may
//! drain the same batch concurrently; entries are independent, so the
//! sequential fold here fixes the observable outcome of any
//! interleaving.

use vstd::prelude::*;
use crate::keys::spec_prefixed;
use crate::resolver::ActiveContext;
use crate::secretref::{
    spec_decode, spec_normalized_vault, spec_camel, spec_canonical_uri, SecretReferenceV,
    build_reference, decode,
};
use crate::serialize::{ImportEntry, ImportEntryV, ImportKind, import_views};
use crate::store::{ConfigEntryV, StoreState, spec_get, spec_set};
use crate::text::{chars_of, eq_chars};

verus! {

/// The secret vault as the batch observes it: one value per secret
/// name.
pub struct VaultState {
    pub secrets: Vec<(String, String)>,
}

/// The values of the vault's secrets.
pub open spec fn vault_views(s: Seq<(String, String)>) -> Seq<(Seq<char>, Seq<char>)> {
    s.map_values(|p: (String, String)| (p.0@, p.1@))
}

/// Index of the first secret at or after `from` stored under `name`.
pub open spec fn spec_vault_find(s: Seq<(Seq<char>, Seq<char>)>, name: Seq<char>, from: int) -> Option<int>
    decreases s.len() - from,
{
    if from < 0 || from >= s.len() {
        None
    } else if s[from].0 == name {
        Some(from)
    } else {
        spec_vault_find(s, name, from + 1)
    }
}

/// The value stored under `name`, if any.
pub open spec fn spec_vault_get(s: Seq<(Seq<char>, Seq<char>)>, name: Seq<char>) -> Option<Seq<char>> {
    match spec_vault_find(s, name, 0) {
        Some(i) => Some(s[i].1),
        None => None,
    }
}

/// The vault after writing `value` under `name`: the first entry with
/// the name is replaced, or a new one is appended.
pub open spec fn spec_vault_set(
    s: Seq<(Seq<char>, Seq<char>)>,
    name: Seq<char>,
    value: Seq<char>,
) -> Seq<(Seq<char>, Seq<char>)> {
    match spec_vault_find(s, name, 0) {
        Some(i) => s.update(i, (name, value)),
        None => s.push((name, value)),
    }
}

impl VaultState {
    /// The vault with no secrets.
    pub fn new_empty() -> (r: VaultState)
        ensures
            r.secrets@.len() == 0,
    {
        VaultState { secrets: Vec::new() }
    }

    /// The vault's value sequence.
    pub open spec fn view_secrets(&self) -> Seq<(Seq<char>, Seq<char>)> {
        vault_views(self.secrets@)
    }

    fn find(&self, name: &str) -> (r: Option<usize>)
        ensures
            match r {
                Some(i) => i < self.secrets@.len() && spec_vault_find(
                    self.view_secrets(),
                    name@,
                    0,
                ) == Some(i as int),
                None => spec_vault_find(self.view_secrets(), name@, 0) is None,
            },
    {
        let nv = chars_of(name);
        let mut i: usize = 0;
        while i < self.secrets.len()
            invariant
                i <= self.secrets@.len(),
                nv@ == name@,
                spec_vault_find(self.view_secrets(), name@, 0) == spec_vault_find(
                    self.view_secrets(),
                    name@,
                    i as int,
                ),
            decreases self.secrets@.len() - i,
        {
            let sv = chars_of(self.secrets[i].0.as_str());
            if eq_chars(&sv, &nv) {
                return Some(i);
            }
            i = i + 1;
        }
        None
    }

    /// Reads the live value of a secret.
    pub fn get_secret(&self, name: &str) -> (r: Option<String>)
        ensures
            match r {
                Some(v) => spec_vault_get(self.view_secrets(), name@) == Some(v@),
                None => spec_vault_get(self.view_secrets(), name@) is None,
            },
    {
        match self.find(name) {
            Some(i) => Some(self.secrets[i].1.clone()),
            None => None,
        }
    }

    /// Writes the value of a secret, replacing any value it had.
    pub fn set_secret(&mut self, name: &str, value: &str)
        ensures
            final(self).view_secrets() == spec_vault_set(old(self).view_secrets(), name@, value@),
    {
        match self.find(name) {
            Some(i) => {
                self.secrets.set(i, (name.to_owned(), value.to_owned()));
                proof {
                    assert(self.view_secrets() =~= spec_vault_set(
                        old(self).view_secrets(),
                        name@,
                        value@,
                    ));
                }
            },
            None => {
                self.secrets.push((name.to_owned(), value.to_owned()));
                proof {
                    assert(self.view_secrets() =~= spec_vault_set(
                        old(self).view_secrets(),
                        name@,
                        value@,
                    ));
                }
            },
        }
    }
}

/// What an injected decision source says about one undecided key.
#[derive(PartialEq, Eq, Structural, Clone, Copy, Debug)]
pub enum Decision {
    KeepPlain,
    StoreAsSecret,
    Skip,
}

/// The decision recorded for `key`: the first row naming it, `Skip`
/// when none does.
pub open spec fn spec_decision_for(ds: Seq<(Seq<char>, Decision)>, key: Seq<char>) -> Decision
    decreases ds.len(),
{
    if ds.len() == 0 {
        Decision::Skip
    } else if ds[0].0 == key {
        ds[0].1
    } else {
        spec_decision_for(ds.drop_first(), key)
    }
}

/// The values of a decision table.
pub open spec fn decision_views(ds: Seq<(String, Decision)>) -> Seq<(Seq<char>, Decision)> {
    ds.map_values(|p: (String, Decision)| (p.0@, p.1))
}

fn decision_for(ds: &Vec<(String, Decision)>, key: &str) -> (r: Decision)
    ensures
        r == spec_decision_for(decision_views(ds@), key@),
{
    let ghost dv = decision_views(ds@);
    let kv = chars_of(key);
    let mut i: usize = 0;
    proof {
        assert(dv.skip(0) =~= dv);
    }
    while i < ds.len()
        invariant
            i <= ds@.len(),
            kv@ == key@,
            dv == decision_views(ds@),
            spec_decision_for(dv, key@) == spec_decision_for(dv.skip(i as int), key@),
        decreases ds@.len() - i,
    {
        proof {
            assert(dv.skip(i as int)[0] == (ds@[i as int].0@, ds@[i as int].1));
            assert(dv.skip(i as int).drop_first() =~= dv.skip(i as int + 1));
        }
        let sv = chars_of(ds[i].0.as_str());
        if eq_chars(&sv, &kv) {
            return ds[i].1;
        }
        i = i + 1;
    }
    proof {
        assert(dv.skip(ds@.len() as int).len() == 0);
    }
    Decision::Skip
}

/// The batch after the decision phase: an undecided entry takes the
/// kind its decision names, or leaves the batch on `Skip`; decided
/// entries pass through.
pub open spec fn spec_resolved(es: Seq<ImportEntryV>, ds: Seq<(Seq<char>, Decision)>) -> Seq<
    ImportEntryV,
>
    decreases es.len(),
{
    if es.len() == 0 {
        Seq::empty()
    } else {
        let rest = spec_resolved(es.drop_first(), ds);
        let e = es[0];
        if e.kind == ImportKind::NeedsDecision {
            match spec_decision_for(ds, e.key) {
                Decision::KeepPlain => seq![
                    ImportEntryV { key: e.key, value: e.value, kind: ImportKind::Plain },
                ] + rest,
                Decision::StoreAsSecret => seq![
                    ImportEntryV {
                        key: e.key,
                        value: e.value,
                        kind: ImportKind::SecretIndirection,
                    },
                ] + rest,
                Decision::Skip => rest,
            }
        } else {
            seq![e] + rest
        }
    }
}

/// How many entries the decision phase removes.
pub open spec fn spec_skip_count(es: Seq<ImportEntryV>, ds: Seq<(Seq<char>, Decision)>) -> int
    decreases es.len(),
{
    if es.len() == 0 {
        0
    } else {
        let rest = spec_skip_count(es.drop_first(), ds);
        if es[0].kind == ImportKind::NeedsDecision && spec_decision_for(ds, es[0].key)
            == Decision::Skip {
            1 + rest
        } else {
            rest
        }
    }
}

/// Runs the decision phase, strictly in order, before anything is
/// written: the resolved batch and the count of skipped entries.
#[verifier::loop_isolation(false)]
pub fn resolve_decisions(entries: &Vec<ImportEntry>, decisions: &Vec<(String, Decision)>) -> (r: (
    Vec<ImportEntry>,
    usize,
))
    ensures
        import_views(r.0@) == spec_resolved(import_views(entries@), decision_views(decisions@)),
        r.1 as int == spec_skip_count(import_views(entries@), decision_views(decisions@)),
        forall|i: int|
            0 <= i < r.0@.len() ==> (#[trigger] r.0@[i]@).kind != ImportKind::NeedsDecision,
{
    let ghost ev = import_views(entries@);
    let ghost dv = decision_views(decisions@);
    let mut out: Vec<ImportEntry> = Vec::new();
    let mut skipped: usize = 0;
    let mut i: usize = entries.len();
    proof {
        assert(ev.skip(entries@.len() as int).len() == 0);
        assert(import_views(out@) =~= Seq::<ImportEntryV>::empty());
        assert(spec_resolved(ev.skip(entries@.len() as int), dv) =~= Seq::<ImportEntryV>::empty());
    }
    while i > 0
        invariant
            i <= entries@.len(),
            ev == import_views(entries@),
            dv == decision_views(decisions@),
            import_views(out@) == spec_resolved(ev.skip(i as int), dv),
            skipped as int == spec_skip_count(ev.skip(i as int), dv),
            skipped <= entries@.len() - i,
            forall|k: int|
                0 <= k < out@.len() ==> (#[trigger] out@[k]@).kind != ImportKind::NeedsDecision,
        decreases i,
    {
        i = i - 1;
        proof {
            assert(ev.skip(i as int)[0] == entries@[i as int]@);
            assert(ev.skip(i as int).drop_first() =~= ev.skip(i as int + 1));
        }
        let e = &entries[i];
        let ghost out_old = out@;
        if matches!(e.kind, ImportKind::NeedsDecision) {
            match decision_for(decisions, e.key.as_str()) {
                Decision::KeepPlain => {
                    out.insert(
                        0,
                        ImportEntry {
                            key: e.key.clone(),
                            value: e.value.clone(),
                            kind: ImportKind::Plain,
                        },
                    );
                    proof {
                        out_old.insert_ensures(0, out@[0]);
                        assert(import_views(out@) =~= seq![out@[0]@] + import_views(out_old));
                    }
                },
                Decision::StoreAsSecret => {
                    out.insert(
                        0,
                        ImportEntry {
                            key: e.key.clone(),
                            value: e.value.clone(),
                            kind: ImportKind::SecretIndirection,
                        },
                    );
                    proof {
                        out_old.insert_ensures(0, out@[0]);
                        assert(import_views(out@) =~= seq![out@[0]@] + import_views(out_old));
                    }
                },
                Decision::Skip => {
                    skipped = skipped + 1;
                },
            }
        } else {
            out.insert(0, e.duplicate());
            proof {
                out_old.insert_ensures(0, out@[0]);
                assert(import_views(out@) =~= seq![out@[0]@] + import_views(out_old));
            }
        }
    }
    proof {
        assert(ev.skip(0) =~= ev);
    }
    (out, skipped)
}

/// How many workers the parallel phase uses: one per entry up to the
/// available parallelism, and at least one.
pub open spec fn spec_worker_count(par: int, batch: int) -> int {
    let m = if par < batch {
        par
    } else {
        batch
    };
    if m < 1 {
        1
    } else {
        m
    }
}

pub fn worker_count(available_parallelism: usize, batch_size: usize) -> (r: usize)
    ensures
        r as int == spec_worker_count(available_parallelism as int, batch_size as int),
{
    let m = if available_parallelism < batch_size {
        available_parallelism
    } else {
        batch_size
    };
    if m < 1 {
        1
    } else {
        m
    }
}

/// How one entry lands: the namespaced key that already holds a
/// secret indirection has its underlying secret updated in place,
/// whatever the entry's own kind; otherwise the entry is written as
/// its kind says, and a secret write without a configured vault fails.
pub open spec fn spec_import_one(
    st: Seq<ConfigEntryV>,
    vs: Seq<(Seq<char>, Seq<char>)>,
    app: Seq<char>,
    sep: Seq<char>,
    label: Seq<char>,
    vault: Option<Seq<char>>,
    e: ImportEntryV,
) -> (Seq<ConfigEntryV>, Seq<(Seq<char>, Seq<char>)>, bool) {
    let fk = spec_prefixed(app, sep, e.key);
    match spec_get(st, fk, label) {
        Some(ex) => match spec_decode(ex.value, ex.secret_content_type) {
            Some(r) => (st, spec_vault_set(vs, r.name, e.value), true),
            None => spec_import_write(st, vs, fk, label, vault, e),
        },
        None => spec_import_write(st, vs, fk, label, vault, e),
    }
}

/// How an entry is written when its key holds no indirection.
pub open spec fn spec_import_write(
    st: Seq<ConfigEntryV>,
    vs: Seq<(Seq<char>, Seq<char>)>,
    fk: Seq<char>,
    label: Seq<char>,
    vault: Option<Seq<char>>,
    e: ImportEntryV,
) -> (Seq<ConfigEntryV>, Seq<(Seq<char>, Seq<char>)>, bool) {
    if e.kind == ImportKind::Plain {
        (spec_set(st, fk, label, e.value, false), vs, true)
    } else if e.kind == ImportKind::SecretIndirection {
        match vault {
            None => (st, vs, false),
            Some(vb) => {
                let r = SecretReferenceV {
                    vault_base: spec_normalized_vault(vb),
                    name: spec_camel(fk, false),
                    version: None,
                };
                (
                    spec_set(st, fk, label, spec_canonical_uri(r), true),
                    spec_vault_set(vs, r.name, e.value),
                    true,
                )
            },
        }
    } else {
        (st, vs, false)
    }
}

/// How one entry ended.
pub enum EntryOutcome {
    Succeeded,
    Failed(String),
}

/// Applies one resolved entry to the store and vault.
pub fn import_one(
    store: &mut StoreState,
    vault_store: &mut VaultState,
    ctx: &ActiveContext,
    entry: &ImportEntry,
) -> (r: EntryOutcome)
    requires
        old(store).wf(),
        entry@.kind != ImportKind::NeedsDecision,
    ensures
        final(store).wf(),
        ({
            let o = spec_import_one(
                old(store).view_entries(),
                old(vault_store).view_secrets(),
                ctx.app@,
                ctx.separator@,
                ctx.label@,
                ctx@.vault,
                entry@,
            );
            final(store).view_entries() == o.0 && final(vault_store).view_secrets() == o.1 && (r
                is Succeeded <==> o.2)
        }),
        r matches EntryOutcome::Failed(m) ==> m@ == "No vault is configured for key '"@
            + spec_prefixed(ctx.app@, ctx.separator@, entry@.key) + "'"@,
{
    let full_key = crate::keys::prefix_key(ctx.app.as_str(), ctx.separator.as_str(), entry.key.as_str());
    let existing_secret = match store.show_entry(full_key.as_str(), ctx.label.as_str()) {
        Ok(ex) => decode(ex.value.as_str(), ex.secret_content_type),
        Err(_) => None,
    };
    match existing_secret {
        Some(r) => {
            vault_store.set_secret(r.name.as_str(), entry.value.as_str());
            EntryOutcome::Succeeded
        },
        None => {
            match entry.kind {
                ImportKind::Plain => {
                    store.set_entry(full_key.as_str(), entry.value.as_str(), ctx.label.as_str(), false);
                    EntryOutcome::Succeeded
                },
                ImportKind::SecretIndirection => {
                    match &ctx.vault {
                        None => {
                            let mut m = "No vault is configured for key '".to_owned();
                            m.append(full_key.as_str());
                            m.append("'");
                            EntryOutcome::Failed(m)
                        },
                        Some(vb) => {
                            let rf = build_reference(vb.as_str(), full_key.as_str());
                            vault_store.set_secret(rf.name.as_str(), entry.value.as_str());
                            let uri = rf.canonical_uri();
                            store.set_secret_reference(full_key.as_str(), uri.as_str(), ctx.label.as_str());
                            EntryOutcome::Succeeded
                        },
                    }
                },
                ImportKind::NeedsDecision => {
                    proof {
                        assert(false);
                    }
                    EntryOutcome::Failed(String::new())
                },
            }
        },
    }
}

/// How a resolved batch lands, one entry after the other, and how many
/// entries succeed.
pub open spec fn spec_run_import(
    st: Seq<ConfigEntryV>,
    vs: Seq<(Seq<char>, Seq<char>)>,
    app: Seq<char>,
    sep: Seq<char>,
    label: Seq<char>,
    vault: Option<Seq<char>>,
    es: Seq<ImportEntryV>,
) -> (Seq<ConfigEntryV>, Seq<(Seq<char>, Seq<char>)>, int)
    decreases es.len(),
{
    if es.len() == 0 {
        (st, vs, 0)
    } else {
        let o = spec_import_one(st, vs, app, sep, label, vault, es[0]);
        let rest = spec_run_import(o.0, o.1, app, sep, label, vault, es.drop_first());
        (rest.0, rest.1, (if o.2 {
            1int
        } else {
            0int
        }) + rest.2)
    }
}

/// What a finished batch reports.
pub struct ImportSummary {
    pub total: usize,
    pub succeeded: usize,
    pub failed: usize,
    pub skipped: usize,
}

/// Number of entries a run can succeed on is bounded by the batch.
proof fn lemma_run_import_count(
    st: Seq<ConfigEntryV>,
    vs: Seq<(Seq<char>, Seq<char>)>,
    app: Seq<char>,
    sep: Seq<char>,
    label: Seq<char>,
    vault: Option<Seq<char>>,
    es: Seq<ImportEntryV>,
)
    ensures
        0 <= spec_run_import(st, vs, app, sep, label, vault, es).2 <= es.len(),
    decreases es.len(),
{
    if es.len() > 0 {
        let o = spec_import_one(st, vs, app, sep, label, vault, es[0]);
        lemma_run_import_count(o.0, o.1, app, sep, label, vault, es.drop_first());
    }
}

/// Applies a resolved batch to the store and vault, one entry at a
/// time, isolating failures; the summary carries the decision-phase
/// skip count through.
#[verifier::loop_isolation(false)]
pub fn run_import(
    store: &mut StoreState,
    vault_store: &mut VaultState,
    ctx: &ActiveContext,
    entries: &Vec<ImportEntry>,
    skipped: usize,
) -> (r: ImportSummary)
    requires
        old(store).wf(),
        forall|i: int|
            0 <= i < entries@.len() ==> (#[trigger] entries@[i]@).kind
                != ImportKind::NeedsDecision,
    ensures
        final(store).wf(),
        ({
            let o = spec_run_import(
                old(store).view_entries(),
                old(vault_store).view_secrets(),
                ctx.app@,
                ctx.separator@,
                ctx.label@,
                ctx@.vault,
                import_views(entries@),
            );
            final(store).view_entries() == o.0 && final(vault_store).view_secrets() == o.1
                && r.succeeded as int == o.2
        }),
        r.total == entries@.len(),
        r.failed == entries@.len() - r.succeeded,
        r.skipped == skipped,
{
    let ghost ev = import_views(entries@);
    let ghost st0 = store.view_entries();
    let ghost vs0 = vault_store.view_secrets();
    let mut succeeded: usize = 0;
    let mut i: usize = 0;
    proof {
        assert(ev.skip(0) =~= ev);
    }
    while i < entries.len()
        invariant
            i <= entries@.len(),
            succeeded <= i,
            ev == import_views(entries@),
            store.wf(),
            ({
                let full = spec_run_import(
                    st0,
                    vs0,
                    ctx.app@,
                    ctx.separator@,
                    ctx.label@,
                    ctx@.vault,
                    ev,
                );
                let rest = spec_run_import(
                    store.view_entries(),
                    vault_store.view_secrets(),
                    ctx.app@,
                    ctx.separator@,
                    ctx.label@,
                    ctx@.vault,
                    ev.skip(i as int),
                );
                full.0 == rest.0 && full.1 == rest.1 && full.2 == succeeded as int + rest.2
            }),
        decreases entries@.len() - i,
    {
        proof {
            assert(ev.skip(i as int)[0] == entries@[i as int]@);
            assert(ev.skip(i as int).drop_first() =~= ev.skip(i as int + 1));
            lemma_run_import_count(
                store.view_entries(),
                vault_store.view_secrets(),
                ctx.app@,
                ctx.separator@,
                ctx.label@,
                ctx@.vault,
                ev.skip(i as int),
            );
        }
        match import_one(store, vault_store, ctx, &entries[i]) {
            EntryOutcome::Succeeded => {
                succeeded = succeeded + 1;
            },
            EntryOutcome::Failed(_) => {},
        }
        i = i + 1;
    }
    proof {
        assert(ev.skip(entries@.len() as int).len() == 0);
    }
    ImportSummary {
        total: entries.len(),
        succeeded,
        failed: entries.len() - succeeded,
        skipped,
    }
}

/// The display value an entry resolves to, and whether it was an
/// indirection: a fetched secret's live value when the fetch is
/// requested and succeeds, the reference's canonical address
/// otherwise.
pub open spec fn spec_resolved_value(
    e: ConfigEntryV,
    vs: Seq<(Seq<char>, Seq<char>)>,
    fetch_secret: bool,
) -> (Seq<char>, bool) {
    match spec_decode(e.value, e.secret_content_type) {
        Some(r) => if fetch_secret {
            match spec_vault_get(vs, r.name) {
                Some(v) => (v, true),
                None => (spec_canonical_uri(r), true),
            }
        } else {
            (spec_canonical_uri(r), true)
        },
        None => (e.value, false),
    }
}

/// Resolves what an entry displays; a failed secret fetch falls back
/// to the reference address instead of failing the caller.
pub fn resolve_value(entry: &ConfigEntry, vault_store: &VaultState, fetch_secret: bool) -> (r: (
    String,
    bool,
))
    ensures
        (r.0@, r.1) == spec_resolved_value(entry@, vault_store.view_secrets(), fetch_secret),
{
    match decode(entry.value.as_str(), entry.secret_content_type) {
        Some(rf) => {
            if fetch_secret {
                match vault_store.get_secret(rf.name.as_str()) {
                    Some(v) => (v, true),
                    None => (rf.canonical_uri(), true),
                }
            } else {
                (rf.canonical_uri(), true)
            }
        },
        None => (entry.value.clone(), false),
    }
}

use crate::serialize::{ExportEntry, ExportEntryV, export_views};
use crate::store::ConfigEntry;

/// The export rows a run of in-scope entries resolves to.
pub open spec fn spec_export_of(
    es: Seq<ConfigEntryV>,
    vs: Seq<(Seq<char>, Seq<char>)>,
    app: Seq<char>,
    sep: Seq<char>,
    fetch_secret: bool,
) -> Seq<ExportEntryV> {
    es.map_values(
        |e: ConfigEntryV|
            {
                let rv = spec_resolved_value(e, vs, fetch_secret);
                ExportEntryV {
                    key: crate::keys::spec_stripped(app, sep, e.key),
                    value: rv.0,
                    from_secret: rv.1,
                }
            },
    )
}

/// Fetches the entries in the active scope, resolves each value, and
/// hands them to the serializer as application-relative rows.
#[verifier::loop_isolation(false)]
pub fn build_export(
    store: &StoreState,
    vault_store: &VaultState,
    ctx: &ActiveContext,
    fetch_secret: bool,
) -> (r: Vec<ExportEntry>)
    ensures
        export_views(r@) == spec_export_of(
            store.view_entries().filter(
                |e: ConfigEntryV|
                    e.label == ctx.label@ && crate::text::spec_starts_with(
                        e.key,
                        spec_prefixed(ctx.app@, ctx.separator@, Seq::<char>::empty()),
                    ),
            ),
            vault_store.view_secrets(),
            ctx.app@,
            ctx.separator@,
            fetch_secret,
        ),
{
    let scope = crate::keys::prefix_key(ctx.app.as_str(), ctx.separator.as_str(), "");
    proof {
        reveal_strlit("");
        assert(scope@ == spec_prefixed(ctx.app@, ctx.separator@, Seq::<char>::empty()));
    }
    let in_scope = store.list_entries(scope.as_str(), ctx.label.as_str());
    let ghost sv = crate::store::entry_views(in_scope@);
    let mut out: Vec<ExportEntry> = Vec::new();
    let mut i: usize = 0;
    proof {
        assert(export_views(out@) =~= spec_export_of(
            sv.subrange(0, 0),
            vault_store.view_secrets(),
            ctx.app@,
            ctx.separator@,
            fetch_secret,
        ));
    }
    while i < in_scope.len()
        invariant
            i <= in_scope@.len(),
            sv == crate::store::entry_views(in_scope@),
            export_views(out@) == spec_export_of(
                sv.subrange(0, i as int),
                vault_store.view_secrets(),
                ctx.app@,
                ctx.separator@,
                fetch_secret,
            ),
        decreases in_scope@.len() - i,
    {
        let e = &in_scope[i];
        let rv = resolve_value(e, vault_store, fetch_secret);
        let stripped = crate::keys::strip_key(ctx.app.as_str(), ctx.separator.as_str(), e.key.as_str());
        let ghost out_old = out@;
        out.push(ExportEntry { key: stripped, value: rv.0, from_secret: rv.1 });
        proof {
            assert(sv[i as int] == in_scope@[i as int]@);
            assert(export_views(out@) =~= export_views(out_old).push(out@[out@.len() - 1]@));
            assert(sv.subrange(0, i as int + 1) =~= sv.subrange(0, i as int).push(sv[i as int]));
            assert(spec_export_of(
                sv.subrange(0, i as int + 1),
                vault_store.view_secrets(),
                ctx.app@,
                ctx.separator@,
                fetch_secret,
            ) =~= export_views(out@));
        }
        i = i + 1;
    }
    proof {
        assert(sv.subrange(0, sv.len() as int) =~= sv);
    }
    out
}

} // verus!
