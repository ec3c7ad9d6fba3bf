//! Providers that are declared by their configuration.

use std::collections::HashMap;
use vstd::prelude::*;
use vstd::utf8::is_ascii_chars;

use crate::model::ModelInfo;
use crate::text::{
    ascii_lowered, is_blank, is_white_space, lowercase, only_white_space_around_goes,
    padding_is_trimmed, same_text, to_lowercase, trim_text, trimmed, trimmed_blank,
    trimming_commutes_with_lowering,
};

verus! {

/// An environment variable that a provider reads.
#[derive(Debug, Clone)]
pub struct EnvVarConfig {
    pub name: String,
    pub required: bool,
    pub secret: bool,
    /// Whether the variable is shown prominently.
    pub primary: Option<bool>,
    pub description: Option<String>,
    pub default: Option<String>,
}

impl EnvVarConfig {
    /// Whether the variable is shown prominently: as was said, else if it is
    /// required.
    pub fn is_primary(&self) -> (res: bool)
        ensures
            res == match self.primary {
                Some(primary) => primary,
                None => self.required,
            },
    {
        match self.primary {
            Some(primary) => primary,
            None => self.required,
        }
    }
}

/// The API that a provider speaks.
#[derive(Debug, Clone, Copy, PartialEq, Eq, Structural)]
pub enum ProviderEngine {
    OpenAI,
    Ollama,
    Anthropic,
}

/// The engine of a name in lower case, which may say that the provider is only
/// compatible with it.
pub open spec fn engine_named(name: Seq<char>) -> Option<ProviderEngine> {
    if name == "openai"@ || name == "openai_compatible"@ {
        Some(ProviderEngine::OpenAI)
    } else if name == "anthropic"@ || name == "anthropic_compatible"@ {
        Some(ProviderEngine::Anthropic)
    } else if name == "ollama"@ || name == "ollama_compatible"@ {
        Some(ProviderEngine::Ollama)
    } else {
        None
    }
}

/// The engine of a name in ASCII.
pub open spec fn ascii_engine(name: Seq<char>) -> Option<ProviderEngine> {
    engine_named(ascii_lowered(trimmed(name)))
}

/// Each engine has two names, and no other name has an engine.
pub proof fn names_of_engines(name: Seq<char>)
    ensures
        engine_named(name) == Some(ProviderEngine::OpenAI) <==> name == "openai"@ || name
            == "openai_compatible"@,
        engine_named(name) == Some(ProviderEngine::Anthropic) <==> name == "anthropic"@ || name
            == "anthropic_compatible"@,
        engine_named(name) == Some(ProviderEngine::Ollama) <==> name == "ollama"@ || name
            == "ollama_compatible"@,
{
    reveal_strlit("openai");
    reveal_strlit("openai_compatible");
    reveal_strlit("anthropic");
    reveal_strlit("anthropic_compatible");
    reveal_strlit("ollama");
    reveal_strlit("ollama_compatible");
    assert("openai"@[1] == 'p' && "openai_compatible"@[1] == 'p');
    assert("anthropic"@[1] == 'n' && "anthropic_compatible"@[1] == 'n');
    assert("ollama"@[1] == 'l' && "ollama_compatible"@[1] == 'l');
}

/// A name in capitals, or with white space around it, has the engine of the name
/// itself.
pub proof fn engine_of_a_written_name(before: Seq<char>, name: Seq<char>, after: Seq<char>)
    requires
        forall|i: int| 0 <= i < before.len() ==> is_white_space(#[trigger] before[i]),
        forall|i: int| 0 <= i < after.len() ==> is_white_space(#[trigger] after[i]),
        name.len() > 0 ==> !is_white_space(name[0]) && !is_white_space(name.last()),
    ensures
        ascii_engine(before + name + after) == engine_named(
            name.map_values(
                |c: char|
                    if 'A' as u32 <= c as u32 <= 'Z' as u32 {
                        ((c as u32 + 32) as u32) as char
                    } else {
                        c
                    },
            ),
        ),
{
    only_white_space_around_goes(before, name, after);
    assert(ascii_lowered(name) =~= name.map_values(
        |c: char|
            if 'A' as u32 <= c as u32 <= 'Z' as u32 {
                ((c as u32 + 32) as u32) as char
            } else {
                c
            },
    ));
}

/// Neither the case of a name nor the white space around it matters.
pub proof fn case_and_padding_do_not_matter(before: Seq<char>, name: Seq<char>, other: Seq<char>, after: Seq<char>)
    requires
        is_blank(before),
        is_blank(after),
        ascii_lowered(name) == ascii_lowered(other),
    ensures
        ascii_engine(before + name + after) == ascii_engine(other),
{
    padding_is_trimmed(before, name, after);
    trimming_commutes_with_lowering(name);
    trimming_commutes_with_lowering(other);
}

impl ProviderEngine {
    /// The engine of a name in lower case.
    pub fn from_lowercase(name: &str) -> (res: Option<Self>)
        ensures
            res == engine_named(name@),
    {
        if same_text(name, "openai") || same_text(name, "openai_compatible") {
            Some(ProviderEngine::OpenAI)
        } else if same_text(name, "anthropic") || same_text(name, "anthropic_compatible") {
            Some(ProviderEngine::Anthropic)
        } else if same_text(name, "ollama") || same_text(name, "ollama_compatible") {
            Some(ProviderEngine::Ollama)
        } else {
            None
        }
    }

    /// The engine of a name in any case, with any white space around it; the
    /// message of the error holds the name as it was given.
    pub fn from_str(engine: &str) -> (res: Result<Self, String>)
        ensures
            match engine_named(lowercase(trimmed(engine@))) {
                Some(named) => res == Ok::<ProviderEngine, String>(named),
                None => res is Err && res->Err_0@ == "Invalid provider type: "@ + engine@,
            },
            is_ascii_chars(trimmed(engine@)) ==> match ascii_engine(engine@) {
                Some(named) => res == Ok::<ProviderEngine, String>(named),
                None => res is Err,
            },
    {
        let name = to_lowercase(trim_text(engine));
        match ProviderEngine::from_lowercase(name.as_str()) {
            Some(named) => Ok(named),
            None => {
                let mut message = "Invalid provider type: ".to_owned();
                message.append(engine);
                Err(message)
            },
        }
    }
}

impl std::str::FromStr for ProviderEngine {
    type Err = String;

    fn from_str(engine: &str) -> (res: Result<Self, String>)
        ensures
            match engine_named(lowercase(trimmed(engine@))) {
                Some(named) => res == Ok::<ProviderEngine, String>(named),
                None => res is Err && res->Err_0@ == "Invalid provider type: "@ + engine@,
            },
            is_ascii_chars(trimmed(engine@)) ==> match ascii_engine(engine@) {
                Some(named) => res == Ok::<ProviderEngine, String>(named),
                None => res is Err,
            },
    {
        ProviderEngine::from_str(engine)
    }
}

/// Where the models of a provider are listed.
#[derive(Debug, Clone, Copy, PartialEq, Eq, Structural)]
pub enum ModelListing {
    /// In the configuration; the API is not asked.
    Configured,
    /// By the API, and in the configuration where the API has no list.
    Api,
}

/// A provider as it is declared.
#[derive(Debug, Clone)]
pub struct DeclarativeProviderConfig {
    pub name: String,
    pub engine: ProviderEngine,
    pub display_name: String,
    pub description: Option<String>,
    pub api_key_env: String,
    pub base_url: String,
    pub models: Vec<ModelInfo>,
    pub headers: Option<HashMap<String, String>>,
    pub timeout_seconds: Option<u64>,
    pub supports_streaming: Option<bool>,
    pub requires_auth: bool,
    pub catalog_provider_id: Option<String>,
    pub base_path: Option<String>,
    pub env_vars: Option<Vec<EnvVarConfig>>,
    /// Whether the API is asked for the list of models, which it is by default.
    pub dynamic_models: Option<bool>,
    pub skip_canonical_filtering: bool,
    pub model_doc_link: Option<String>,
    pub setup_steps: Vec<String>,
    pub fast_model: Option<String>,
    pub preserves_thinking: bool,
}

/// A provider needs a key unless it says otherwise.
pub fn default_requires_auth() -> (res: bool)
    ensures
        res,
{
    true
}

/// An optional text, taken as none where it is blank.
pub fn non_empty_string(text: Option<String>) -> (res: Option<String>)
    ensures
        res == match text {
            Some(t) => if is_blank(t@) {
                None
            } else {
                text
            },
            None => None,
        },
{
    match text {
        Some(t) => {
            proof {
                trimmed_blank(t@);
            }
            if trim_text(t.as_str()).is_empty() {
                None
            } else {
                Some(t)
            }
        },
        None => None,
    }
}

impl DeclarativeProviderConfig {
    pub fn id(&self) -> (res: &str)
        ensures
            res@ == self.name@,
    {
        self.name.as_str()
    }

    pub fn display_name(&self) -> (res: &str)
        ensures
            res@ == self.display_name@,
    {
        self.display_name.as_str()
    }

    pub fn models(&self) -> (res: &[ModelInfo])
        ensures
            res@ == self.models@,
    {
        self.models.as_slice()
    }

    /// Where the models are listed: by the API, unless the configuration rules that
    /// out. Then it has to list them itself, and there is no listing where it does
    /// not.
    pub open spec fn listing(self) -> Option<ModelListing> {
        if self.dynamic_models == Some(false) {
            if self.models@.len() == 0 {
                None
            } else {
                Some(ModelListing::Configured)
            }
        } else {
            Some(ModelListing::Api)
        }
    }

    /// Where the models are listed; `None`, so that no provider can be made, where
    /// only the configuration may list them and it lists none.
    pub fn model_listing(&self) -> (res: Option<ModelListing>)
        ensures
            res == self.listing(),
    {
        match self.dynamic_models {
            Some(false) => {
                if self.models.len() == 0 {
                    None
                } else {
                    Some(ModelListing::Configured)
                }
            },
            _ => Some(ModelListing::Api),
        }
    }
}

/// A configuration has no listing of models only where it may not ask the API and
/// has none itself; else the API lists them, unless it may not be asked.
pub proof fn when_models_are_listed(config: DeclarativeProviderConfig)
    ensures
        config.listing() is None <==> config.dynamic_models == Some(false) && config.models@.len()
            == 0,
        config.listing() == Some(ModelListing::Configured) <==> config.dynamic_models == Some(false)
            && config.models@.len() > 0,
        config.listing() == Some(ModelListing::Api) <==> config.dynamic_models != Some(false),
{
}

/// Why no provider was made.
#[derive(Debug, PartialEq, Eq)]
pub enum FromConfigError<E> {
    /// Only the configuration may list models, and it lists none.
    NoModels,
    /// The engine failed.
    Engine(E),
}

/// The provider that a configuration declares, made by the engine that it names.
/// Only that of OpenAI can make one yet. A configuration without a listing of
/// models is not handed to the engine.
pub fn from_config<P, E, F: FnOnce(DeclarativeProviderConfig) -> Result<P, E>>(
    config: DeclarativeProviderConfig,
    openai: F,
) -> (res: Result<P, FromConfigError<E>>)
    requires
        config.engine == ProviderEngine::OpenAI,
        config.listing() is Some ==> openai.requires((config,)),
    ensures
        res == Err::<P, FromConfigError<E>>(FromConfigError::NoModels) <==> config.listing() is None,
        config.listing() is Some ==> match res {
            Ok(provider) => openai.ensures((config,), Ok(provider)),
            Err(FromConfigError::Engine(error)) => openai.ensures((config,), Err(error)),
            Err(FromConfigError::NoModels) => false,
        },
{
    if config.model_listing().is_none() {
        return Err(FromConfigError::NoModels);
    }
    match openai(config) {
        Ok(provider) => Ok(provider),
        Err(error) => Err(FromConfigError::Engine(error)),
    }
}

/// Finds the keys that providers are called with.
pub trait KeyResolver {
    type Error;

    fn resolve_key(&self, key: &str) -> std::result::Result<String, Self::Error>;
}

/// Finds keys in the environment of the process.
#[derive(Debug, Clone, Copy)]
pub struct EnvKeyResolver;

impl EnvKeyResolver {
    pub fn new() -> (res: Self)
        ensures
            res == EnvKeyResolver,
    {
        EnvKeyResolver
    }
}

} // verus!
