//! Commands on applications: the key prefixes that group entries under
//! the current configuration scope, and the per-application settings
//! of the current context.

use vstd::prelude::*;
use crate::ctxstore::{
    Context, ContextStore, spec_find_alias, find_alias_in, same_but_base, same_but_label,
    same_but_vault,
};
use crate::resolver::{ActiveContext, ResolveError, spec_active_of, get_active};
use crate::store::{ConfigEntryV, StoreState, entry_views};
use crate::text::{chars_of, eq_chars, find_seq, spec_find_seq, string_from_chars, subvec};

verus! {

/// The part of a key before the first separator: the application it
/// belongs to.
pub open spec fn spec_first_segment(key: Seq<char>, sep: Seq<char>) -> Seq<char> {
    if sep.len() == 0 {
        key
    } else {
        match spec_find_seq(key, sep, 0) {
            Some(i) => key.subrange(0, i),
            None => key,
        }
    }
}

fn first_segment(key: &Vec<char>, sep: &Vec<char>) -> (r: Vec<char>)
    ensures
        r@ == spec_first_segment(key@, sep@),
{
    if sep.len() == 0 {
        return subvec(key, 0, key.len());
    }
    match find_seq(key, sep, 0) {
        Some(i) => subvec(key, 0, i),
        None => subvec(key, 0, key.len()),
    }
}

/// The distinct applications a run of entries names, in order of first
/// appearance, among entries under `label`.
pub open spec fn spec_apps_acc(
    es: Seq<ConfigEntryV>,
    label: Seq<char>,
    sep: Seq<char>,
    acc: Seq<Seq<char>>,
) -> Seq<Seq<char>>
    decreases es.len(),
{
    if es.len() == 0 {
        acc
    } else {
        let e = es[0];
        if e.label == label {
            let seg = spec_first_segment(e.key, sep);
            if acc.contains(seg) {
                spec_apps_acc(es.drop_first(), label, sep, acc)
            } else {
                spec_apps_acc(es.drop_first(), label, sep, acc.push(seg))
            }
        } else {
            spec_apps_acc(es.drop_first(), label, sep, acc)
        }
    }
}

pub open spec fn spec_apps_of(es: Seq<ConfigEntryV>, label: Seq<char>, sep: Seq<char>) -> Seq<
    Seq<char>,
> {
    spec_apps_acc(es, label, sep, Seq::empty())
}

fn contains_chars(acc: &Vec<String>, seg: &Vec<char>) -> (r: bool)
    ensures
        r == acc@.map_values(|s: String| s@).contains(seg@),
{
    let ghost av = acc@.map_values(|s: String| s@);
    let mut i: usize = 0;
    while i < acc.len()
        invariant
            i <= acc@.len(),
            av == acc@.map_values(|s: String| s@),
            forall|j: int| 0 <= j < i ==> #[trigger] av[j] != seg@,
        decreases acc@.len() - i,
    {
        let cv = chars_of(acc[i].as_str());
        if eq_chars(&cv, seg) {
            proof {
                assert(av[i as int] == seg@);
            }
            return true;
        }
        i = i + 1;
    }
    proof {
        if av.contains(seg@) {
            let k = choose|k: int| 0 <= k < av.len() && av[k] == seg@;
            assert(av[k] != seg@);
        }
    }
    false
}

/// The applications the store's entries name under the active label.
#[verifier::loop_isolation(false)]
pub fn list_apps(store: &StoreState, ctx: &ActiveContext) -> (r: Vec<String>)
    ensures
        r@.map_values(|s: String| s@) == spec_apps_of(
            store.view_entries(),
            ctx.label@,
            ctx.separator@,
        ),
{
    let ghost ev = store.view_entries();
    let lv = chars_of(ctx.label.as_str());
    let sv = chars_of(ctx.separator.as_str());
    let mut acc: Vec<String> = Vec::new();
    let mut i: usize = 0;
    proof {
        assert(ev.skip(0) =~= ev);
        assert(acc@.map_values(|s: String| s@) =~= Seq::<Seq<char>>::empty());
    }
    while i < store.entries.len()
        invariant
            i <= store.entries@.len(),
            ev == store.view_entries(),
            lv@ == ctx.label@,
            sv@ == ctx.separator@,
            spec_apps_of(ev, ctx.label@, ctx.separator@) == spec_apps_acc(
                ev.skip(i as int),
                ctx.label@,
                ctx.separator@,
                acc@.map_values(|s: String| s@),
            ),
        decreases store.entries@.len() - i,
    {
        proof {
            assert(ev.skip(i as int)[0] == store.entries@[i as int]@);
            assert(ev.skip(i as int).drop_first() =~= ev.skip(i as int + 1));
        }
        let el = chars_of(store.entries[i].label.as_str());
        if eq_chars(&el, &lv) {
            let ek = chars_of(store.entries[i].key.as_str());
            let seg = first_segment(&ek, &sv);
            let ghost acc_old = acc@;
            if !contains_chars(&acc, &seg) {
                acc.push(string_from_chars(&seg));
                proof {
                    assert(acc@.map_values(|s: String| s@) =~= acc_old.map_values(
                        |s: String| s@,
                    ).push(seg@));
                }
            }
        }
        i = i + 1;
    }
    proof {
        assert(ev.skip(store.entries@.len() as int).len() == 0);
    }
    acc
}

/// Keys stored under one application, shown application-relative.
#[verifier::loop_isolation(false)]
pub fn show_app(store: &StoreState, ctx: &ActiveContext, app: &str) -> (r: Vec<String>)
    ensures
        r@.map_values(|s: String| s@) == store.view_entries().filter(
            |e: ConfigEntryV|
                e.label == ctx.label@ && crate::text::spec_starts_with(
                    e.key,
                    crate::keys::spec_prefixed(app@, ctx.separator@, Seq::<char>::empty()),
                ),
        ).map_values(|e: ConfigEntryV| crate::keys::spec_stripped(app@, ctx.separator@, e.key)),
{
    let scope = crate::keys::prefix_key(app, ctx.separator.as_str(), "");
    proof {
        reveal_strlit("");
        assert(scope@ == crate::keys::spec_prefixed(app@, ctx.separator@, Seq::<char>::empty()));
    }
    let in_scope = store.list_entries(scope.as_str(), ctx.label.as_str());
    let ghost sv = entry_views(in_scope@);
    let mut out: Vec<String> = Vec::new();
    let mut i: usize = 0;
    proof {
        assert(out@.map_values(|s: String| s@) =~= sv.subrange(0, 0).map_values(
            |e: ConfigEntryV| crate::keys::spec_stripped(app@, ctx.separator@, e.key),
        ));
    }
    while i < in_scope.len()
        invariant
            i <= in_scope@.len(),
            sv == entry_views(in_scope@),
            out@.map_values(|s: String| s@) == sv.subrange(0, i as int).map_values(
                |e: ConfigEntryV| crate::keys::spec_stripped(app@, ctx.separator@, e.key),
            ),
        decreases in_scope@.len() - i,
    {
        let stripped = crate::keys::strip_key(app, ctx.separator.as_str(), in_scope[i].key.as_str());
        let ghost out_old = out@;
        out.push(stripped);
        proof {
            assert(sv[i as int] == in_scope@[i as int]@);
            assert(out@.map_values(|s: String| s@) =~= out_old.map_values(|s: String| s@).push(
                crate::keys::spec_stripped(app@, ctx.separator@, sv[i as int].key),
            ));
            assert(sv.subrange(0, i as int + 1) =~= sv.subrange(0, i as int).push(sv[i as int]));
            assert(sv.subrange(0, i as int + 1).map_values(
                |e: ConfigEntryV| crate::keys::spec_stripped(app@, ctx.separator@, e.key),
            ) =~= out@.map_values(|s: String| s@));
        }
        i = i + 1;
    }
    proof {
        assert(sv.subrange(0, sv.len() as int) =~= sv);
    }
    out
}

/// Selects the application prefix of the current scope.
pub fn use_app(store: &mut ContextStore, app: &str) -> (r: Result<(), ResolveError>)
    requires
        old(store).wf(),
    ensures
        final(store).wf(),
        match old(store).current {
            None => (r matches Err(e) && e is NotConfigured) && *final(store) == *old(store),
            Some(cur) => match spec_find_alias(old(store).contexts@, cur@, 0) {
                None => (r matches Err(e) && e is NotConfigured) && *final(store) == *old(store),
                Some(i) => r is Ok && final(store).current == old(store).current && final(store).contexts@ == old(store).contexts@.update(i, final(store).contexts@[i])
                    && same_but_base(final(store).contexts@[i], old(store).contexts@[i], app@),
            },
        },
{
    let cur = match &store.current {
        None => {
            return Err(ResolveError::NotConfigured);
        },
        Some(cur) => cur.clone(),
    };
    let i = match find_alias_in(&store.contexts, cur.as_str()) {
        None => {
            return Err(ResolveError::NotConfigured);
        },
        Some(i) => i,
    };
    let old_ctx = store.contexts[i].duplicate();
    let updated = Context {
        alias: old_ctx.alias,
        sub: old_ctx.sub,
        name: old_ctx.name,
        base: app.to_owned(),
        separator: old_ctx.separator,
        label: old_ctx.label,
        vault: old_ctx.vault,
    };
    store.contexts.set(i, updated);
    proof {
        assert forall|p: int, q: int|
            0 <= p < q < store.contexts@.len() implies store.contexts@[p].alias@
            != store.contexts@[q].alias@ by {
            assert(p != i as int ==> store.contexts@[p] == old(store).contexts@[p]);
            assert(q != i as int ==> store.contexts@[q] == old(store).contexts@[q]);
            assert(store.contexts@[i as int].alias@ == old(store).contexts@[i as int].alias@);
        }
    }
    Ok(())
}

/// Sets the label of the current scope.
pub fn set_label(store: &mut ContextStore, label: &str) -> (r: Result<(), ResolveError>)
    requires
        old(store).wf(),
    ensures
        final(store).wf(),
        match old(store).current {
            None => (r matches Err(e) && e is NotConfigured) && *final(store) == *old(store),
            Some(cur) => match spec_find_alias(old(store).contexts@, cur@, 0) {
                None => (r matches Err(e) && e is NotConfigured) && *final(store) == *old(store),
                Some(i) => r is Ok && final(store).current == old(store).current && final(store).contexts@ == old(store).contexts@.update(i, final(store).contexts@[i])
                    && same_but_label(final(store).contexts@[i], old(store).contexts@[i], label@),
            },
        },
{
    let cur = match &store.current {
        None => {
            return Err(ResolveError::NotConfigured);
        },
        Some(cur) => cur.clone(),
    };
    let i = match find_alias_in(&store.contexts, cur.as_str()) {
        None => {
            return Err(ResolveError::NotConfigured);
        },
        Some(i) => i,
    };
    let old_ctx = store.contexts[i].duplicate();
    let updated = Context {
        alias: old_ctx.alias,
        sub: old_ctx.sub,
        name: old_ctx.name,
        base: old_ctx.base,
        separator: old_ctx.separator,
        label: label.to_owned(),
        vault: old_ctx.vault,
    };
    store.contexts.set(i, updated);
    proof {
        assert forall|p: int, q: int|
            0 <= p < q < store.contexts@.len() implies store.contexts@[p].alias@
            != store.contexts@[q].alias@ by {
            assert(p != i as int ==> store.contexts@[p] == old(store).contexts@[p]);
            assert(q != i as int ==> store.contexts@[q] == old(store).contexts@[q]);
            assert(store.contexts@[i as int].alias@ == old(store).contexts@[i as int].alias@);
        }
    }
    Ok(())
}

/// Sets the vault reference of the current scope.
pub fn set_keyvault(store: &mut ContextStore, vault: &str) -> (r: Result<(), ResolveError>)
    requires
        old(store).wf(),
    ensures
        final(store).wf(),
        match old(store).current {
            None => (r matches Err(e) && e is NotConfigured) && *final(store) == *old(store),
            Some(cur) => match spec_find_alias(old(store).contexts@, cur@, 0) {
                None => (r matches Err(e) && e is NotConfigured) && *final(store) == *old(store),
                Some(i) => r is Ok && final(store).current == old(store).current && final(store).contexts@ == old(store).contexts@.update(i, final(store).contexts@[i])
                    && same_but_vault(final(store).contexts@[i], old(store).contexts@[i], vault@),
            },
        },
{
    let cur = match &store.current {
        None => {
            return Err(ResolveError::NotConfigured);
        },
        Some(cur) => cur.clone(),
    };
    let i = match find_alias_in(&store.contexts, cur.as_str()) {
        None => {
            return Err(ResolveError::NotConfigured);
        },
        Some(i) => i,
    };
    let old_ctx = store.contexts[i].duplicate();
    let updated = Context {
        alias: old_ctx.alias,
        sub: old_ctx.sub,
        name: old_ctx.name,
        base: old_ctx.base,
        separator: old_ctx.separator,
        label: old_ctx.label,
        vault: Some(vault.to_owned()),
    };
    store.contexts.set(i, updated);
    proof {
        assert forall|p: int, q: int|
            0 <= p < q < store.contexts@.len() implies store.contexts@[p].alias@
            != store.contexts@[q].alias@ by {
            assert(p != i as int ==> store.contexts@[p] == old(store).contexts@[p]);
            assert(q != i as int ==> store.contexts@[q] == old(store).contexts@[q]);
            assert(store.contexts@[i as int].alias@ == old(store).contexts@[i as int].alias@);
        }
    }
    Ok(())
}

/// The application prefix of the current scope.
pub fn show_current_app(store: &ContextStore) -> (r: Result<String, ResolveError>)
    ensures
        match spec_active_of(store) {
            None => r matches Err(e) && e is NotConfigured,
            Some(a) => if a.app.len() == 0 {
                r matches Err(e) && e is MissingApplication
            } else {
                r matches Ok(s) && s@ == a.app
            },
        },
{
    match get_active(store, true, false) {
        Ok(ac) => Ok(ac.app),
        Err(e) => Err(e),
    }
}

} // verus!
