use goose::base::ProviderError;
use goose::line_timeout::{LineAction, LineEvent, LinePhase, LineTimeout};
use goose::model::ModelConfig;
use goose::ollama::{
    apply_ollama_options, models_step, resolve_ollama_num_ctx, ModelsEvent, ModelsStep,
    OllamaOptions, OllamaProvider, OllamaSettings,
};

fn value(text: &str) -> serde_json::Value {
    serde_json::from_str(text).unwrap()
}

/// A streaming request of a model that does not reason, as it goes to any
/// OpenAI-compatible server.
fn streaming_request() -> serde_json::Value {
    value(
        "{\"model\": \"llama3.1\", \"max_tokens\": 4096, \"stream\": true, \
         \"stream_options\": {\"include_usage\": true}, \"messages\": [\
         {\"role\": \"system\", \"content\": \"You are a helpful assistant.\"},\
         {\"role\": \"user\", \"content\": \"hi\"}]}",
    )
}

#[test]
fn test_apply_ollama_options_uses_input_limit() {
    let mut options = OllamaOptions::default();
    options.input_limit = Some(8192);
    let model_config = ModelConfig::new("qwen3").with_context_limit(Some(16_000));
    let mut payload = value("{}");
    apply_ollama_options(&mut payload, &options, &model_config);
    assert_eq!(payload["options"]["num_ctx"], 8192);
}

#[test]
fn test_apply_ollama_options_falls_back_to_context_limit() {
    let options = OllamaOptions::default();
    let model_config = ModelConfig::new("qwen3").with_context_limit(Some(12_000));
    let mut payload = value("{}");
    apply_ollama_options(&mut payload, &options, &model_config);
    assert_eq!(payload["options"]["num_ctx"], 12_000);
}

#[test]
fn test_apply_ollama_options_skips_when_no_limit() {
    let options = OllamaOptions::default();
    let mut model_config = ModelConfig::new("qwen3");
    model_config.context_limit = None;
    let mut payload = value("{}");
    apply_ollama_options(&mut payload, &options, &model_config);
    assert!(payload.get("options").is_none());
}

#[test]
fn test_apply_ollama_options_preserves_stream_options_by_default() {
    let options = OllamaOptions { input_limit: None, stream_usage: true, chunk_timeout_secs: 120 };
    assert_eq!(options, OllamaOptions::default());
    let model_config = ModelConfig::new("llama3.1").with_max_tokens(Some(4096));

    let mut payload = streaming_request();

    apply_ollama_options(&mut payload, &options, &model_config);

    assert!(
        payload.get("stream_options").is_some(),
        "stream_options should be preserved by default for usage tracking"
    );
    assert!(
        payload.get("max_tokens").is_none(),
        "max_tokens should be removed for Ollama"
    );
    assert!(
        payload.get("max_completion_tokens").is_none(),
        "max_completion_tokens should be removed for Ollama"
    );
    assert_eq!(
        payload["options"]["num_predict"], 4096,
        "max_tokens should be moved to options.num_predict"
    );
    assert_eq!(payload["stream"], true, "stream field should be preserved");
}

#[test]
fn test_apply_ollama_options_strips_stream_options_when_disabled() {
    let options = OllamaOptions { input_limit: None, stream_usage: false, chunk_timeout_secs: 120 };
    let model_config = ModelConfig::new("llama3.1").with_max_tokens(Some(4096));

    let mut payload = streaming_request();

    apply_ollama_options(&mut payload, &options, &model_config);

    assert!(
        payload.get("stream_options").is_none(),
        "stream_options should be removed when OLLAMA_STREAM_USAGE=false"
    );
}

#[test]
fn limit_moves_without_stream_options_too() {
    let options = OllamaOptions { input_limit: None, stream_usage: false, chunk_timeout_secs: 120 };
    let model_config = ModelConfig::new("llama3.1").with_max_tokens(Some(4096));

    let mut payload = streaming_request();

    apply_ollama_options(&mut payload, &options, &model_config);

    assert!(
        payload.get("max_tokens").is_none(),
        "max_tokens should be removed for Ollama"
    );
    assert!(
        payload.get("max_completion_tokens").is_none(),
        "max_completion_tokens should be removed for Ollama"
    );
    assert_eq!(
        payload["options"]["num_predict"], 4096,
        "max_tokens should be moved to options.num_predict"
    );
    assert_eq!(payload["stream"], true, "stream field should be preserved");
}

#[test]
fn limit_of_reasoning_models_goes_first() {
    let options = OllamaOptions::default();
    let model_config = ModelConfig::new("qwen3");
    let mut payload = value("{\"max_completion_tokens\": 7, \"max_tokens\": 9}");
    apply_ollama_options(&mut payload, &options, &model_config);
    assert_eq!(payload, value("{\"max_tokens\": 9, \"options\": {\"num_predict\": 7}}"));
    apply_ollama_options(&mut payload, &options, &model_config);
    assert_eq!(payload, value("{\"options\": {\"num_predict\": 7}}"));
    apply_ollama_options(&mut payload, &options, &model_config);
    assert_eq!(payload, value("{\"options\": {\"num_predict\": 7}}"));
}

#[test]
fn option_that_is_set_keeps_its_limit_but_not_its_window() {
    let options = OllamaOptions::default();
    let model_config = ModelConfig::new("qwen3").with_context_limit(Some(5));
    let mut payload = value(
        "{\"max_tokens\": 9, \"options\": {\"num_predict\": 1, \"num_ctx\": 2, \"seed\": 3}}",
    );
    apply_ollama_options(&mut payload, &options, &model_config);
    assert_eq!(
        payload,
        value("{\"options\": {\"num_predict\": 1, \"num_ctx\": 5, \"seed\": 3}}")
    );
}

#[test]
fn options_that_are_no_object_stay() {
    let options = OllamaOptions::default();
    let model_config = ModelConfig::new("qwen3").with_context_limit(Some(5));
    let mut payload = value("{\"max_tokens\": 9, \"options\": [1]}");
    apply_ollama_options(&mut payload, &options, &model_config);
    assert_eq!(payload, value("{\"options\": [1]}"));
}

#[test]
fn payload_that_is_no_object_stays() {
    let options = OllamaOptions::default();
    let model_config = ModelConfig::new("qwen3").with_context_limit(Some(5));
    for text in ["null", "[1, 2]", "\"text\"", "1.5"] {
        let mut payload = value(text);
        apply_ollama_options(&mut payload, &options, &model_config);
        assert_eq!(payload, value(text));
    }
}

#[test]
fn completion_request_is_ready_to_be_sent() {
    let options = OllamaOptions { input_limit: Some(8), stream_usage: false, chunk_timeout_secs: 9 };
    let provider = OllamaProvider::new((), "ollama".to_string(), false, options);
    let request =
        provider.completion_request(streaming_request(), "session", &ModelConfig::new("llama3.1"));
    assert_eq!(request.session_id, "session");
    assert_eq!(request.path, "v1/chat/completions");
    assert_eq!(request.chunk_timeout_secs, 9);
    assert_eq!(request.payload["options"], value("{\"num_predict\": 4096, \"num_ctx\": 8}"));
    assert!(request.payload.get("stream_options").is_none());
    assert_eq!(request.payload["messages"].as_array().unwrap().len(), 2);
}

#[test]
fn window_is_resolved_in_order() {
    let mut options = OllamaOptions::default();
    let config = ModelConfig::new("qwen3").with_context_limit(Some(2));
    assert_eq!(resolve_ollama_num_ctx(&options, &config), Some(2));
    options.input_limit = Some(1);
    assert_eq!(resolve_ollama_num_ctx(&options, &config), Some(1));
    assert_eq!(resolve_ollama_num_ctx(&OllamaOptions::default(), &ModelConfig::new("x")), None);
}

#[test]
fn settings_are_resolved_in_order() {
    let none = OllamaSettings {
        goose_input_limit: None,
        ollama_stream_usage: None,
        ollama_stream_timeout: None,
        goose_stream_timeout: None,
        ollama_timeout: None,
    };
    assert_eq!(OllamaOptions::from_settings(&none), OllamaOptions::default());
    let zero = OllamaSettings { goose_input_limit: Some(0), ..none };
    assert_eq!(OllamaOptions::from_settings(&zero).input_limit, None);
    let some = OllamaSettings {
        goose_input_limit: Some(9),
        ollama_stream_usage: Some(false),
        ollama_timeout: Some(3),
        ..none
    };
    let options = OllamaOptions::from_settings(&some);
    assert_eq!(
        options,
        OllamaOptions { input_limit: Some(9), stream_usage: false, chunk_timeout_secs: 3 }
    );
    let goose = OllamaSettings { goose_stream_timeout: Some(2), ..some };
    assert_eq!(OllamaOptions::from_settings(&goose).chunk_timeout_secs, 2);
    let ollama = OllamaSettings { ollama_stream_timeout: Some(1), ..goose };
    assert_eq!(OllamaOptions::from_settings(&ollama).chunk_timeout_secs, 1);
}

#[test]
fn provider_tells_about_itself() {
    let provider = OllamaProvider::new((), "mine".to_string(), true, OllamaOptions::default());
    assert_eq!(provider.get_name(), "mine");
    assert!(provider.skip_canonical_filtering());
    let retry = provider.retry_config();
    assert_eq!(retry.max_retries, 10);
    assert_eq!(retry.initial_interval_ms, 2000);
    assert_eq!(retry.backoff_numerator as f64 / retry.backoff_denominator as f64, 1.5);
    assert_eq!(retry.max_interval_ms, 15_000);
    assert!(retry.transient_only);

    let metadata = OllamaProvider::<()>::metadata();
    assert_eq!(metadata.name, "ollama");
    assert_eq!(metadata.display_name, "Ollama");
    assert_eq!(metadata.description, "Local open source models");
    assert_eq!(metadata.default_model, "qwen3");
    assert_eq!(
        metadata.known_models,
        ["qwen3", "qwen3-vl", "qwen3-coder:30b", "qwen3-coder:480b-cloud"]
    );
    assert_eq!(metadata.model_doc_link, "https://ollama.com/library");
    assert_eq!(metadata.config_keys[0].name, "OLLAMA_HOST");
    assert_eq!(metadata.config_keys[0].default.as_deref(), Some("localhost"));
    assert!(metadata.config_keys[0].required && metadata.config_keys[0].primary);
    assert_eq!(metadata.config_keys[1].name, "OLLAMA_TIMEOUT");
    assert_eq!(metadata.config_keys[1].default.as_deref(), Some("600"));
    assert!(!metadata.config_keys[1].required && !metadata.config_keys[1].secret);
}

fn failure(step: ModelsStep) -> String {
    match step {
        ModelsStep::Done(Err(ProviderError::RequestFailed(message))) => message,
        other => panic!("{:?}", other),
    }
}

#[test]
fn models_are_listed_in_order() {
    let body = value(
        "{\"models\": [{\"name\": \"qwen3\"}, {\"size\": 1}, {\"name\": 2}, 3, \
         {\"name\": \"Llama\"}, {\"name\": \"gemma\"}, {\"name\": \"qwen3\"}]}",
    );
    match models_step(ModelsEvent::Body(body)) {
        ModelsStep::Done(Ok(names)) => assert_eq!(names, ["Llama", "gemma", "qwen3", "qwen3"]),
        other => panic!("{:?}", other),
    }
}

#[test]
fn models_that_cannot_be_listed() {
    assert_eq!(
        failure(models_step(ModelsEvent::NoReply("refused".to_string()))),
        "Failed to fetch models: refused"
    );
    assert_eq!(
        failure(models_step(ModelsEvent::Status(404, "404 Not Found".to_string()))),
        "Failed to fetch models: HTTP 404 Not Found"
    );
    assert_eq!(
        failure(models_step(ModelsEvent::NoJson("eof".to_string()))),
        "Failed to parse response: eof"
    );
    for body in ["{}", "[]", "{\"models\": {}}"] {
        assert_eq!(
            failure(models_step(ModelsEvent::Body(value(body)))),
            "No models array in response"
        );
    }
    for code in [200, 299] {
        assert!(matches!(
            models_step(ModelsEvent::Status(code, String::new())),
            ModelsStep::ReadBody
        ));
    }
    assert!(matches!(models_step(ModelsEvent::Status(300, String::new())), ModelsStep::Done(_)));
    assert!(matches!(models_step(ModelsEvent::Status(199, String::new())), ModelsStep::Done(_)));
}

#[test]
fn first_line_has_no_deadline() {
    let mut watch = LineTimeout::new(30);
    assert_eq!(watch.deadline_secs(), None);
    let action = watch.step(LineEvent::<String>::Line("data: 1".to_string()));
    assert!(matches!(action, LineAction::Yield(line) if line == "data: 1"));
    assert_eq!(watch.deadline_secs(), Some(30));
    let action = watch.step(LineEvent::<String>::Line("data: 2".to_string()));
    assert!(matches!(action, LineAction::Yield(line) if line == "data: 2"));
    match watch.step(LineEvent::<String>::TimedOut) {
        LineAction::Stall(message) => assert_eq!(
            message,
            format!(
                "Ollama stream stalled: no data received for {}s. \
                 This may indicate the model is overwhelmed by the request payload. \
                 Try a smaller model, reduce the number of tools, or increase the \
                 timeout via OLLAMA_STREAM_TIMEOUT, GOOSE_STREAM_TIMEOUT, or \
                 OLLAMA_TIMEOUT in your config.",
                30
            )
        ),
        other => panic!("{:?}", other),
    }
    assert_eq!(watch.phase, LinePhase::Over);
}

#[test]
fn stream_ends_or_fails() {
    let mut watch = LineTimeout::new(30);
    assert!(matches!(watch.step(LineEvent::<String>::End), LineAction::Stop));
    assert_eq!(watch.phase, LinePhase::Over);
    let mut watch = LineTimeout::new(30);
    let action = watch.step(LineEvent::Failed("broken".to_string()));
    assert!(matches!(action, LineAction::Fail(error) if error == "broken"));
    assert_eq!(watch.deadline_secs(), None);
}
