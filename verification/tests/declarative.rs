use goose::custom_provider_config::{ConfigKeyResolver, SecretConfig};
use goose::declarative::{
    default_requires_auth, from_config, non_empty_string, DeclarativeProviderConfig,
    EnvKeyResolver, EnvVarConfig, FromConfigError, KeyResolver, ModelListing, ProviderEngine,
};
use goose::model::ModelInfo;
use goose::text::{decimal_text, same_text};

fn config(engine: ProviderEngine, models: Vec<ModelInfo>) -> DeclarativeProviderConfig {
    DeclarativeProviderConfig {
        name: "deepseek".to_string(),
        engine,
        display_name: "DeepSeek".to_string(),
        description: None,
        api_key_env: "DEEPSEEK_API_KEY".to_string(),
        base_url: "https://api.deepseek.com".to_string(),
        models,
        headers: None,
        timeout_seconds: None,
        supports_streaming: None,
        requires_auth: default_requires_auth(),
        catalog_provider_id: None,
        base_path: None,
        env_vars: None,
        dynamic_models: None,
        skip_canonical_filtering: false,
        model_doc_link: None,
        setup_steps: Vec::new(),
        fast_model: None,
        preserves_thinking: false,
    }
}

#[test]
fn engines_by_name() {
    for (name, engine) in [
        ("openai", ProviderEngine::OpenAI),
        ("openai_compatible", ProviderEngine::OpenAI),
        ("anthropic", ProviderEngine::Anthropic),
        ("anthropic_compatible", ProviderEngine::Anthropic),
        ("ollama", ProviderEngine::Ollama),
        ("ollama_compatible", ProviderEngine::Ollama),
    ] {
        assert_eq!(ProviderEngine::from_str(name), Ok(engine));
        assert_eq!(ProviderEngine::from_str(&name.to_uppercase()), Ok(engine));
        assert_eq!(ProviderEngine::from_str(&format!(" \t\u{a0}{}\u{3000}\n", name)), Ok(engine));
        assert_eq!(name.parse::<ProviderEngine>(), Ok(engine));
        assert_eq!(ProviderEngine::from_lowercase(name), Some(engine));
    }
    assert_eq!(ProviderEngine::from_str("OLLAMA\u{212a}").is_err(), true);
    assert_eq!(ProviderEngine::from_lowercase("OpenAI"), None);
}

#[test]
fn engine_error_holds_the_name() {
    assert_eq!(
        ProviderEngine::from_str(" Gemini "),
        Err("Invalid provider type:  Gemini ".to_string())
    );
    assert_eq!(ProviderEngine::from_str(""), Err("Invalid provider type: ".to_string()));
    assert!(ProviderEngine::from_str("open ai").is_err());
}

#[test]
fn blank_text_is_none() {
    assert_eq!(non_empty_string(None), None);
    assert_eq!(non_empty_string(Some(String::new())), None);
    assert_eq!(non_empty_string(Some(" \t\n\u{2003}\u{85}".to_string())), None);
    assert_eq!(non_empty_string(Some(" a ".to_string())), Some(" a ".to_string()));
    assert_eq!(non_empty_string(Some("\u{200b}".to_string())), Some("\u{200b}".to_string()));
}

#[test]
fn config_tells_about_itself() {
    let model = ModelInfo { name: "chat".to_string(), context_limit: 1 };
    let config = config(ProviderEngine::OpenAI, vec![model]);
    assert_eq!(config.id(), "deepseek");
    assert_eq!(config.display_name(), "DeepSeek");
    assert_eq!(config.models().len(), 1);
    assert_eq!(config.models()[0].name, "chat");
    assert!(config.requires_auth);
}

#[test]
fn models_are_listed_where_the_config_says() {
    let model = ModelInfo { name: "chat".to_string(), context_limit: 1 };
    let mut some = config(ProviderEngine::OpenAI, vec![model]);
    let mut none = config(ProviderEngine::OpenAI, Vec::new());
    assert_eq!(some.model_listing(), Some(ModelListing::Api));
    assert_eq!(none.model_listing(), Some(ModelListing::Api));
    some.dynamic_models = Some(true);
    none.dynamic_models = Some(true);
    assert_eq!(some.model_listing(), Some(ModelListing::Api));
    assert_eq!(none.model_listing(), Some(ModelListing::Api));
    some.dynamic_models = Some(false);
    none.dynamic_models = Some(false);
    assert_eq!(some.model_listing(), Some(ModelListing::Configured));
    assert_eq!(none.model_listing(), None);
}

#[test]
fn variable_is_primary_if_required() {
    let mut variable = EnvVarConfig {
        name: "KEY".to_string(),
        required: true,
        secret: true,
        primary: None,
        description: None,
        default: None,
    };
    assert!(variable.is_primary());
    variable.required = false;
    assert!(!variable.is_primary());
    variable.primary = Some(true);
    assert!(variable.is_primary());
    variable.required = true;
    variable.primary = Some(false);
    assert!(!variable.is_primary());
}

#[test]
fn provider_is_made_by_its_engine() {
    let made: Result<String, FromConfigError<String>> =
        from_config(config(ProviderEngine::OpenAI, Vec::new()), |c| Ok(c.name));
    assert_eq!(made, Ok("deepseek".to_string()));
    let failed: Result<String, FromConfigError<String>> =
        from_config(config(ProviderEngine::OpenAI, Vec::new()), |c| Err(c.api_key_env));
    assert_eq!(failed, Err(FromConfigError::Engine("DEEPSEEK_API_KEY".to_string())));
}

#[test]
fn no_provider_without_any_models() {
    let mut none = config(ProviderEngine::OpenAI, Vec::new());
    none.dynamic_models = Some(false);
    let refused: Result<String, FromConfigError<String>> =
        from_config(none.clone(), |_| panic!("the engine was asked"));
    assert_eq!(refused, Err(FromConfigError::NoModels));

    let mut some = none.clone();
    some.models.push(ModelInfo { name: "chat".to_string(), context_limit: 1 });
    let made: Result<String, FromConfigError<String>> = from_config(some, |c| Ok(c.name));
    assert_eq!(made, Ok("deepseek".to_string()));

    none.dynamic_models = Some(true);
    let made: Result<String, FromConfigError<String>> = from_config(none, |c| Ok(c.name));
    assert_eq!(made, Ok("deepseek".to_string()));
}

struct Secrets;

impl SecretConfig for Secrets {
    type Error = String;

    fn get_secret(&self, key: &str) -> Result<String, String> {
        if key == "KNOWN" {
            Ok("secret".to_string())
        } else {
            Err(format!("no {}", key))
        }
    }
}

#[test]
fn keys_come_from_the_configuration() {
    let secrets = Secrets;
    let resolver = ConfigKeyResolver::new(&secrets);
    assert_eq!(resolver.resolve_key("KNOWN"), Ok("secret".to_string()));
    assert_eq!(resolver.resolve_key("OTHER"), Err("no OTHER".to_string()));
    let _ = EnvKeyResolver::new();
}

#[test]
fn numbers_in_decimal() {
    for n in [0, 9, 10, 120, 600, u64::MAX] {
        assert_eq!(decimal_text(n), n.to_string());
    }
}

#[test]
fn texts_are_compared() {
    assert!(same_text("", ""));
    assert!(same_text("naïve", "naïve"));
    assert!(!same_text("a", "b"));
    assert!(!same_text("a", "ab"));
}
