//! What other languages call: messages, models and pieces of a reply.

use vstd::prelude::*;

use crate::conversation::{concat_text, Message, MessageContent, Role};
use crate::json::{error_text, json_error_text, parse_object, parsed_object};
use crate::model::{params_of, ModelConfig};

verus! {

/// An error, in words.
#[derive(Debug)]
pub enum GooseError {
    Generic(String),
}

impl GooseError {
    /// The words of the error.
    pub open spec fn text(self) -> Seq<char> {
        self->Generic_0@
    }

    /// The words of the error.
    pub fn message(&self) -> (res: &str)
        ensures
            res@ == self.text(),
    {
        match self {
            GooseError::Generic(text) => text.as_str(),
        }
    }
}

impl vstd::std_specs::convert::FromSpecImpl<serde_json::Error> for GooseError {
    open spec fn obeys_from_spec() -> bool {
        false
    }

    open spec fn from_spec(error: serde_json::Error) -> Self {
        arbitrary()
    }
}

impl From<serde_json::Error> for GooseError {
    /// The error with the message of the other one.
    fn from(error: serde_json::Error) -> (res: Self)
        ensures
            res.text() == json_error_text(error),
    {
        GooseError::Generic(error_text(&error))
    }
}

/// Who a message comes from.
#[derive(Debug, Clone, Copy, PartialEq, Eq, Structural)]
pub enum MessageRole {
    User,
    Assistant,
}

/// A text message to a provider.
#[derive(Debug, Clone)]
pub struct ProviderMessage {
    pub role: MessageRole,
    pub text: String,
}

impl ProviderMessage {
    /// Whether a message of a conversation is the one that this message stands
    /// for: the same role and one part, the text, which the agent sees.
    pub open spec fn stands_for(self, message: Message) -> bool {
        &&& message.role == match self.role {
            MessageRole::User => Role::User,
            MessageRole::Assistant => Role::Assistant,
        }
        &&& message.content@.len() == 1
        &&& (message.content@[0] matches MessageContent::Text(text) && text@ == self.text@)
        &&& message.metadata.agent_visible
    }

    /// The message of a conversation that this one stands for.
    pub fn to_goose_message(&self) -> (res: Message)
        ensures
            self.stands_for(res),
            concat_text(res.content@) == self.text@,
    {
        let message = match self.role {
            MessageRole::User => Message::user().with_text(self.text.as_str()),
            MessageRole::Assistant => Message::assistant().with_text(self.text.as_str()),
        };
        proof {
            let front = message.content@.drop_last();
            assert(concat_text(front) =~= Seq::<char>::empty());
            assert(concat_text(message.content@) =~= self.text@);
        }
        message
    }
}

/// A message stands for one of the same role that the agent sees, with its text for
/// the one part, and for no other.
pub proof fn what_a_message_stands_for(given: ProviderMessage, message: Message)
    ensures
        given.stands_for(message) <==> (message.role is User <==> given.role is User)
            && message.metadata.agent_visible && message.content@.len() == 1
            && message.content@[0] is Text && message.content@[0]->Text_0@ == given.text@,
{
}

/// The messages of a conversation that messages stand for, in order.
pub fn to_goose_messages(messages: &[ProviderMessage]) -> (res: Vec<Message>)
    ensures
        res@.len() == messages@.len(),
        forall|i: int| #![trigger res@[i]]
            0 <= i < res@.len() ==> {
                &&& messages@[i].stands_for(res@[i])
                &&& concat_text(res@[i].content@) == messages@[i].text@
            },
{
    let mut res: Vec<Message> = Vec::new();
    let mut i: usize = 0;
    while i < messages.len()
        invariant
            i <= messages@.len(),
            res@.len() == i,
            forall|j: int| #![trigger res@[j]]
                0 <= j < i ==> {
                    &&& messages@[j].stands_for(res@[j])
                    &&& concat_text(res@[j].content@) == messages@[j].text@
                },
        decreases messages@.len() - i,
    {
        res.push(messages[i].to_goose_message());
        i += 1;
    }
    res
}

/// A model and the settings of a request to it.
#[derive(Debug, Clone)]
pub struct ProviderModelConfig {
    pub model_name: String,
    pub context_limit: Option<u64>,
    /// The bits of a 32-bit float.
    pub temperature: Option<u32>,
    pub max_tokens: Option<i32>,
    pub toolshim: bool,
    pub toolshim_model: Option<String>,
    /// A JSON object with more parameters of the request.
    pub request_params_json: Option<String>,
    pub reasoning: Option<bool>,
}

impl ProviderModelConfig {
    /// Whether a model has these settings, apart from the parameters.
    pub open spec fn settings_of(self, config: ModelConfig) -> bool {
        &&& config.model_name@ == self.model_name@
        &&& config.context_limit == match self.context_limit {
            Some(limit) => Some(limit as usize),
            None => None,
        }
        &&& config.temperature == self.temperature
        &&& config.max_tokens == self.max_tokens
        &&& config.toolshim == self.toolshim
        &&& config.toolshim_model == self.toolshim_model
        &&& config.reasoning == self.reasoning
    }

    /// The model with these settings and the given parameters.
    pub fn with_request_params(&self, params: Option<serde_json::Map<String, serde_json::Value>>) -> (res: ModelConfig)
        ensures
            self.settings_of(res),
            params_of(res.request_params) == params_of(params),
    {
        let context_limit = match self.context_limit {
            Some(limit) => Some(limit as usize),
            None => None,
        };
        let mut config = ModelConfig::new(self.model_name.as_str())
            .with_context_limit(context_limit)
            .with_temperature(self.temperature)
            .with_max_tokens(self.max_tokens)
            .with_toolshim(self.toolshim)
            .with_toolshim_model(self.toolshim_model.clone());
        if let Some(params) = params {
            config = config.with_merged_request_params(params);
        }
        config.reasoning = self.reasoning;
        config
    }

    /// The model with these settings; an error where the parameters are no JSON
    /// object.
    pub fn to_goose_model_config(&self) -> (res: Result<ModelConfig, GooseError>)
        ensures
            match self.request_params_json {
                Some(text) => match parsed_object(text@) {
                    Ok(object) => res is Ok && params_of(res->Ok_0.request_params) == Some(object),
                    Err(message) => res is Err && res->Err_0.text() == message,
                },
                None => res is Ok && res->Ok_0.request_params is None,
            },
            res is Ok ==> self.settings_of(res->Ok_0),
    {
        match &self.request_params_json {
            Some(text) => match parse_object(text.as_str()) {
                Ok(params) => Ok(self.with_request_params(Some(params))),
                Err(error) => Err(GooseError::from(error)),
            },
            None => Ok(self.with_request_params(None)),
        }
    }
}

/// A model has the settings that were asked for, each of them.
pub proof fn every_setting_is_kept(given: ProviderModelConfig, config: ModelConfig)
    ensures
        given.settings_of(config) <==> config.model_name@ == given.model_name@ && (
        config.context_limit is Some <==> given.context_limit is Some) && (given.context_limit is Some
            ==> config.context_limit->0 == given.context_limit->0 as usize) && config.temperature
            == given.temperature && config.max_tokens == given.max_tokens && config.toolshim
            == given.toolshim && config.toolshim_model == given.toolshim_model && config.reasoning
            == given.reasoning,
{
}

/// The words of an error are those that it was made of.
pub proof fn error_has_its_words(error: GooseError)
    ensures
        error.text() == error->Generic_0@,
{
}

/// One piece of a reply.
#[derive(Debug, Clone)]
pub struct ProviderStreamChunk {
    /// The texts of the message, joined.
    pub text: Option<String>,
    /// The message as JSON.
    pub message_json: Option<String>,
    /// What was used, as JSON.
    pub usage_json: Option<String>,
}

impl ProviderStreamChunk {
    /// The piece that a message, if any, and its JSON make.
    pub fn from_parts(message: Option<&Message>, message_json: Option<String>, usage_json: Option<String>) -> (res: Self)
        ensures
            match message {
                Some(m) => res.text is Some && res.text->0@ == concat_text(m.content@),
                None => res.text is None,
            },
            res.message_json == message_json,
            res.usage_json == usage_json,
    {
        ProviderStreamChunk {
            text: match message {
                Some(m) => Some(m.as_concat_text()),
                None => None,
            },
            message_json,
            usage_json,
        }
    }
}

} // verus!
