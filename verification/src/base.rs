//! What a provider tells about itself, and how its requests fail.

use vstd::prelude::*;

verus! {

/// Why a request to a provider failed.
#[derive(Debug)]
pub enum ProviderError {
    RequestFailed(String),
}

/// A setting that a provider reads.
#[derive(Debug)]
pub struct ConfigKey {
    pub name: String,
    pub required: bool,
    pub secret: bool,
    pub default: Option<String>,
    pub primary: bool,
}

impl ConfigKey {
    /// Whether this is the setting of that name, with these properties.
    pub open spec fn describes(
        self,
        name: Seq<char>,
        required: bool,
        secret: bool,
        default: Option<Seq<char>>,
        primary: bool,
    ) -> bool {
        &&& self.name@ == name
        &&& self.required == required
        &&& self.secret == secret
        &&& match default {
            Some(text) => self.default is Some && self.default->0@ == text,
            None => self.default is None,
        }
        &&& self.primary == primary
    }

    pub fn new(name: &str, required: bool, secret: bool, default: Option<&str>, primary: bool) -> (res: Self)
        ensures
            res.describes(
                name@,
                required,
                secret,
                match default {
                    Some(text) => Some(text@),
                    None => None,
                },
                primary,
            ),
    {
        ConfigKey {
            name: name.to_owned(),
            required,
            secret,
            default: match default {
                Some(text) => Some(text.to_owned()),
                None => None,
            },
            primary,
        }
    }
}

/// A setting that is described has that name and those properties.
pub proof fn described_setting(
    setting: ConfigKey,
    name: Seq<char>,
    required: bool,
    secret: bool,
    default: Option<Seq<char>>,
    primary: bool,
)
    ensures
        setting.describes(name, required, secret, default, primary) <==> setting.name@ == name
            && setting.required == required && setting.secret == secret && setting.primary == primary
            && (setting.default is Some <==> default is Some) && (default is Some
            ==> setting.default->0@ == default->0),
{
}

/// What a provider tells about itself.
#[derive(Debug)]
pub struct ProviderMetadata {
    pub name: String,
    pub display_name: String,
    pub description: String,
    pub default_model: String,
    pub known_models: Vec<String>,
    pub model_doc_link: String,
    pub config_keys: Vec<ConfigKey>,
}

impl ProviderMetadata {
    pub fn new(
        name: &str,
        display_name: &str,
        description: &str,
        default_model: &str,
        known_models: Vec<String>,
        model_doc_link: &str,
        config_keys: Vec<ConfigKey>,
    ) -> (res: Self)
        ensures
            res.name@ == name@,
            res.display_name@ == display_name@,
            res.description@ == description@,
            res.default_model@ == default_model@,
            res.known_models == known_models,
            res.model_doc_link@ == model_doc_link@,
            res.config_keys == config_keys,
    {
        ProviderMetadata {
            name: name.to_owned(),
            display_name: display_name.to_owned(),
            description: description.to_owned(),
            default_model: default_model.to_owned(),
            known_models,
            model_doc_link: model_doc_link.to_owned(),
            config_keys,
        }
    }
}

/// How often and how fast a failed request is tried again. The wait grows by the
/// backoff multiplier, `backoff_numerator` over `backoff_denominator`.
#[derive(Debug, Clone, Copy, PartialEq, Eq, Structural)]
pub struct RetryConfig {
    pub max_retries: usize,
    pub initial_interval_ms: u64,
    pub backoff_numerator: u32,
    pub backoff_denominator: u32,
    pub max_interval_ms: u64,
    /// Only failures that may pass are tried again.
    pub transient_only: bool,
}

} // verus!
