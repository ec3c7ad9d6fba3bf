//! Finds the keys of providers in a configuration.

use vstd::prelude::*;

use crate::declarative::KeyResolver;

verus! {

/// A configuration that holds secrets.
pub trait SecretConfig {
    type Error;

    fn get_secret(&self, key: &str) -> Result<String, Self::Error>;
}

/// Finds keys among the secrets of a configuration.
pub struct ConfigKeyResolver<'a, C: SecretConfig> {
    pub config: &'a C,
}

impl<'a, C: SecretConfig> ConfigKeyResolver<'a, C> {
    pub fn new(config: &'a C) -> (res: Self)
        ensures
            res.config == config,
    {
        ConfigKeyResolver { config }
    }
}

impl<'a, C: SecretConfig> KeyResolver for ConfigKeyResolver<'a, C> {
    type Error = C::Error;

    /// The secret of that name, or the error of the configuration.
    fn resolve_key(&self, key: &str) -> (res: Result<String, C::Error>)
        ensures
            call_ensures(C::get_secret, (self.config, key), res),
    {
        self.config.get_secret(key)
    }
}

} // verus!
