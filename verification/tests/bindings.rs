use goose::bindings::{
    to_goose_messages, GooseError, MessageRole, ProviderMessage, ProviderModelConfig,
    ProviderStreamChunk,
};
use goose::conversation::{Message, MessageContent, Role};

fn config(request_params_json: Option<&str>) -> ProviderModelConfig {
    ProviderModelConfig {
        model_name: "test".to_string(),
        context_limit: None,
        temperature: None,
        max_tokens: None,
        toolshim: false,
        toolshim_model: None,
        request_params_json: request_params_json.map(|text| text.to_string()),
        reasoning: None,
    }
}

#[test]
fn model_config_rejects_invalid_request_params_json() {
    let config = ProviderModelConfig {
        model_name: "test".to_string(),
        context_limit: None,
        temperature: None,
        max_tokens: None,
        toolshim: false,
        toolshim_model: None,
        request_params_json: Some("not json".to_string()),
        reasoning: None,
    };

    assert!(config.to_goose_model_config().is_err());
}

#[test]
fn provider_message_converts_user_text() {
    let message = ProviderMessage {
        role: MessageRole::User,
        text: "what is the capital of France?".to_string(),
    }
    .to_goose_message();

    assert_eq!(message.as_concat_text(), "what is the capital of France?");
}

#[test]
fn messages_keep_their_roles() {
    let messages = vec![
        ProviderMessage { role: MessageRole::User, text: "one".to_string() },
        ProviderMessage { role: MessageRole::Assistant, text: "two".to_string() },
    ];
    let converted = to_goose_messages(&messages);
    assert_eq!(converted.len(), 2);
    assert_eq!(converted[0].role, Role::User);
    assert_eq!(converted[1].role, Role::Assistant);
    assert_eq!(converted[1].as_concat_text(), "two");
    assert!(converted[1].metadata.agent_visible);
    for (message, given) in converted.iter().zip(&messages) {
        assert_eq!(message.content.len(), 1);
        assert_eq!(message.content[0].as_text(), Some(given.text.as_str()));
    }
}

#[test]
fn texts_are_joined() {
    let mut message = Message::assistant().with_text("a").with_text("b");
    message.content.push(MessageContent::Other);
    let message = message.with_text("c");
    assert_eq!(message.as_concat_text(), "abc");
    assert_eq!(message.content.len(), 4);
}

#[test]
fn model_config_keeps_its_settings() {
    let mut given = config(Some("{\"top_p\": 1, \"seed\": 2}"));
    given.context_limit = Some(4096);
    given.temperature = Some(0.5f32.to_bits());
    given.max_tokens = Some(-1);
    given.toolshim = true;
    given.toolshim_model = Some("shim".to_string());
    given.reasoning = Some(true);
    let made = given.to_goose_model_config().unwrap();
    assert_eq!(made.model_name, "test");
    assert_eq!(made.context_limit, Some(4096));
    assert_eq!(made.temperature.map(f32::from_bits), Some(0.5));
    assert_eq!(made.max_tokens, Some(-1));
    assert!(made.toolshim);
    assert_eq!(made.toolshim_model.as_deref(), Some("shim"));
    assert_eq!(made.reasoning, Some(true));
    let params = made.request_params.unwrap();
    assert_eq!(params.len(), 2);
    assert_eq!(params["seed"], 2);
}

#[test]
fn model_config_without_params() {
    assert!(config(None).to_goose_model_config().unwrap().request_params.is_none());
}

#[test]
fn model_config_error_tells_why() {
    for text in ["not json", "[1]", "{\"a\": }"] {
        let expected = serde_json::from_str::<serde_json::Map<String, serde_json::Value>>(text)
            .unwrap_err()
            .to_string();
        let GooseError::Generic(message) = config(Some(text)).to_goose_model_config().unwrap_err();
        assert_eq!(message, expected);
    }
}

#[test]
fn merged_params_replace_older_ones() {
    let first = serde_json::from_str("{\"a\": 1, \"b\": 2}").unwrap();
    let second = serde_json::from_str("{\"b\": 3, \"c\": 4}").unwrap();
    let made = config(None)
        .to_goose_model_config()
        .unwrap()
        .with_merged_request_params(first)
        .with_merged_request_params(second);
    let expected: serde_json::Value =
        serde_json::from_str("{\"a\": 1, \"b\": 3, \"c\": 4}").unwrap();
    assert_eq!(serde_json::Value::Object(made.request_params.unwrap()), expected);
}

#[test]
fn chunk_holds_the_text_of_its_message() {
    let message = Message::assistant().with_text("hi");
    let chunk = ProviderStreamChunk::from_parts(
        Some(&message),
        Some("{}".to_string()),
        Some("usage".to_string()),
    );
    assert_eq!(chunk.text.as_deref(), Some("hi"));
    assert_eq!(chunk.message_json.as_deref(), Some("{}"));
    assert_eq!(chunk.usage_json.as_deref(), Some("usage"));
    let chunk = ProviderStreamChunk::from_parts(None, None, None);
    assert!(chunk.text.is_none() && chunk.message_json.is_none() && chunk.usage_json.is_none());
}
