//! Commands on configuration scopes: listing, selecting and showing
//! the saved contexts, and changing the key separator of the current
//! one.

use vstd::prelude::*;
use crate::ctxstore::{
    Context, ContextError, ContextStore, spec_find_alias, list_contexts, set_current, get_context,
    current_context, same_but_separator,
};
use crate::resolver::ResolveError;
use crate::text::lex_le;

verus! {

/// The saved scopes with a mark on the current one, ordered by alias.
pub fn list_configs(store: &ContextStore) -> (r: Vec<(Context, bool)>)
    ensures
        r@.len() == store.contexts@.len(),
        crate::ctxstore::row_views_of(r@).to_multiset() == crate::ctxstore::views_of(
            store.contexts@,
        ).to_multiset(),
        forall|i: int| 0 <= i < r@.len() ==> r@[i].1 == store.is_current(#[trigger] r@[i].0.alias@),
        forall|i: int|
            0 <= i && i + 1 < r@.len() ==> lex_le(#[trigger] r@[i].0.alias@, r@[i + 1].0.alias@),
{
    list_contexts(store)
}

/// Selects the scope saved under `name` as the active one.
pub fn use_config(store: &mut ContextStore, name: &str) -> (r: Result<(), ContextError>)
    requires
        old(store).wf(),
    ensures
        final(store).wf(),
        final(store).contexts@ == old(store).contexts@,
        crate::ctxstore::has_alias(old(store).contexts@, name@) ==> r is Ok && final(store).is_current(name@),
        !crate::ctxstore::has_alias(old(store).contexts@, name@) ==> (r matches Err(e) && (e
            matches ContextError::UnknownAlias(a) && a@ == name@)) && final(store).current == old(store).current,
{
    set_current(store, name)
}

/// Shows the scope saved under `name`.
pub fn show_config(store: &ContextStore, name: &str) -> (r: Result<Context, ContextError>)
    ensures
        match spec_find_alias(store.contexts@, name@, 0) {
            Some(i) => r matches Ok(c) && c@ == store.contexts@[i]@,
            None => r matches Err(e) && (e matches ContextError::UnknownAlias(a) && a@ == name@),
        },
{
    get_context(store, name)
}

/// The currently selected scope, if one is selected and still saved.
pub fn show_current_config(store: &ContextStore) -> (r: Result<Option<Context>, ContextError>)
    ensures
        match store.current {
            None => r matches Ok(o) && o is None,
            Some(cur) => match spec_find_alias(store.contexts@, cur@, 0) {
                Some(i) => r matches Ok(o) && (o matches Some(c) && c@ == store.contexts@[i]@),
                None => r matches Err(e) && (e matches ContextError::CurrentContextMissing(a) && a@
                    == cur@),
            },
        },
{
    current_context(store)
}

/// Sets the key separator of the current scope.
pub fn set_separator(store: &mut ContextStore, separator: &str) -> (r: Result<(), ResolveError>)
    requires
        old(store).wf(),
    ensures
        final(store).wf(),
        match old(store).current {
            None => (r matches Err(e) && e is NotConfigured) && *final(store) == *old(store),
            Some(cur) => match spec_find_alias(old(store).contexts@, cur@, 0) {
                None => (r matches Err(e) && e is NotConfigured) && *final(store) == *old(store),
                Some(i) => r is Ok && final(store).current == old(store).current && final(store).contexts@ == old(store).contexts@.update(i, final(store).contexts@[i])
                    && same_but_separator(
                    final(store).contexts@[i],
                    old(store).contexts@[i],
                    separator@,
                ),
            },
        },
{
    let cur = match &store.current {
        None => {
            return Err(ResolveError::NotConfigured);
        },
        Some(cur) => cur.clone(),
    };
    let i = match crate::ctxstore::find_alias_in(&store.contexts, cur.as_str()) {
        None => {
            return Err(ResolveError::NotConfigured);
        },
        Some(i) => i,
    };
    let old_ctx = store.contexts[i].duplicate();
    let updated = Context {
        alias: old_ctx.alias,
        sub: old_ctx.sub,
        name: old_ctx.name,
        base: old_ctx.base,
        separator: separator.to_owned(),
        label: old_ctx.label,
        vault: old_ctx.vault,
    };
    store.contexts.set(i, updated);
    proof {
        assert forall|p: int, q: int|
            0 <= p < q < store.contexts@.len() implies store.contexts@[p].alias@
            != store.contexts@[q].alias@ by {
            assert(p != i as int ==> store.contexts@[p] == old(store).contexts@[p]);
            assert(q != i as int ==> store.contexts@[q] == old(store).contexts@[q]);
            assert(store.contexts@[i as int].alias@ == old(store).contexts@[i as int].alias@);
        }
    }
    Ok(())
}

} // verus!
