//! Setup cache: the catalog of subscriptions, configuration stores and
//! vaults discovered during setup. The cache is an explicit value;
//! reading and writing its file wraps the library from outside.

use vstd::prelude::*;

verus! {

/// One subscription the account can reach.
pub struct Subscription {
    pub id: String,
    pub name: String,
    pub tenant_id: String,
}

/// One configuration store the catalog knows of.
pub struct AppConfig {
    pub id: String,
    pub name: String,
}

/// A configuration store remembered with the subscription it lives in.
pub struct CachedAppConfig {
    pub subscription_id: String,
    pub subscription_name: String,
    pub name: String,
}

/// A vault remembered with the subscription it lives in.
pub struct CachedKeyVault {
    pub name: String,
    pub subscription_id: String,
}

/// Everything the setup flow has discovered so far.
pub struct SetupCache {
    pub subscriptions: Vec<Subscription>,
    pub appconfigs: Vec<CachedAppConfig>,
    pub keyvaults: Vec<CachedKeyVault>,
    pub ready: bool,
}

impl SetupCache {
    /// The cache that exists before any setup ran.
    pub fn new_empty() -> (r: SetupCache)
        ensures
            r.subscriptions@.len() == 0,
            r.appconfigs@.len() == 0,
            r.keyvaults@.len() == 0,
            !r.ready,
    {
        SetupCache { subscriptions: Vec::new(), appconfigs: Vec::new(), keyvaults: Vec::new(), ready: false }
    }

    /// Whether setup has completed.
    pub fn is_ready(&self) -> (r: bool)
        ensures
            r == self.ready,
    {
        self.ready
    }
}

} // verus!
