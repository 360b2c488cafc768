//! Active context resolver: derives the scope of the current operation
//! (subscription, store, application prefix, label, vault) from the
//! persisted context state.

use vstd::prelude::*;
use crate::ctxstore::{ContextStore, spec_find_alias};

verus! {

/// The scope a key operation runs under.
pub struct ActiveContext {
    pub sub: String,
    pub store_name: String,
    pub app: String,
    pub separator: String,
    pub label: String,
    pub vault: Option<String>,
}

/// The mathematical value of an `ActiveContext`.
pub struct ActiveContextV {
    pub sub: Seq<char>,
    pub store_name: Seq<char>,
    pub app: Seq<char>,
    pub separator: Seq<char>,
    pub label: Seq<char>,
    pub vault: Option<Seq<char>>,
}

impl View for ActiveContext {
    type V = ActiveContextV;

    open spec fn view(&self) -> ActiveContextV {
        ActiveContextV {
            sub: self.sub@,
            store_name: self.store_name@,
            app: self.app@,
            separator: self.separator@,
            label: self.label@,
            vault: match self.vault {
                Some(v) => Some(v@),
                None => None,
            },
        }
    }
}

/// Why no usable scope could be derived.
#[derive(Debug)]
pub enum ResolveError {
    NotConfigured,
    MissingApplication,
    MissingLabel,
}

impl ResolveError {
    /// A diagnostic line for the failed resolution.
    pub fn message(&self) -> (r: String)
        ensures
            match self {
                ResolveError::NotConfigured => r@ == "No context is configured"@,
                ResolveError::MissingApplication => r@ == "No application is selected"@,
                ResolveError::MissingLabel => r@ == "No label is selected"@,
            },
    {
        match self {
            ResolveError::NotConfigured => "No context is configured".to_owned(),
            ResolveError::MissingApplication => "No application is selected".to_owned(),
            ResolveError::MissingLabel => "No label is selected".to_owned(),
        }
    }
}

/// The scope the selected context denotes, if the store selects one.
pub open spec fn spec_active_of(store: &ContextStore) -> Option<ActiveContextV> {
    match store.current {
        None => None,
        Some(cur) => match spec_find_alias(store.contexts@, cur@, 0) {
            None => None,
            Some(i) => Some(
                ActiveContextV {
                    sub: store.contexts@[i].sub@,
                    store_name: store.contexts@[i].name@,
                    app: store.contexts@[i].base@,
                    separator: store.contexts@[i].separator@,
                    label: store.contexts@[i].label@,
                    vault: store.contexts@[i]@.vault,
                },
            ),
        },
    }
}

/// Resolves the active scope. Fails when nothing is selected, or when a
/// required part of the scope is empty.
pub fn get_active(store: &ContextStore, require_app: bool, require_label: bool) -> (r: Result<
    ActiveContext,
    ResolveError,
>)
    ensures
        match spec_active_of(store) {
            None => r matches Err(e) && e is NotConfigured,
            Some(a) => if require_app && a.app.len() == 0 {
                r matches Err(e) && e is MissingApplication
            } else if require_label && a.label.len() == 0 {
                r matches Err(e) && e is MissingLabel
            } else {
                r matches Ok(ac) && ac@ == a
            },
        },
{
    let selected = match crate::ctxstore::current_context(store) {
        Ok(Some(ctx)) => ctx,
        Ok(None) => {
            return Err(ResolveError::NotConfigured);
        },
        Err(_) => {
            return Err(ResolveError::NotConfigured);
        },
    };
    if require_app && selected.base.as_str().unicode_len() == 0 {
        return Err(ResolveError::MissingApplication);
    }
    if require_label && selected.label.as_str().unicode_len() == 0 {
        return Err(ResolveError::MissingLabel);
    }
    Ok(
        ActiveContext {
            sub: selected.sub,
            store_name: selected.name,
            app: selected.base,
            separator: selected.separator,
            label: selected.label,
            vault: selected.vault,
        },
    )
}

} // verus!
