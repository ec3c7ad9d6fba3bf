//! The Ollama provider: its settings, the requests it sends and the models it
//! lists.

use vstd::prelude::*;

use crate::base::{ConfigKey, ProviderError, ProviderMetadata, RetryConfig};
use crate::json::{
    array_member, get_array, get_text, json_object, json_value, member, members, no_members,
    object_get, object_insert, object_new, object_remove, text_member, value_as_object,
    value_from_object, value_from_usize, value_into_object, value_take, Json,
};
use crate::model::ModelConfig;
use crate::text::{decimal, decimal_text, sort_strings, text_le, texts_of, texts_sorted};

verus! {

pub const OLLAMA_PROVIDER_NAME: &'static str = "ollama";

pub const OLLAMA_HOST: &'static str = "localhost";

pub const OLLAMA_TIMEOUT: u64 = 600;

pub const OLLAMA_DEFAULT_PORT: u16 = 11434;

pub const OLLAMA_DEFAULT_MODEL: &'static str = "qwen3";

pub const OLLAMA_KNOWN_MODELS: [&'static str; 4] = [
    "qwen3",
    "qwen3-vl",
    "qwen3-coder:30b",
    "qwen3-coder:480b-cloud",
];

pub const OLLAMA_DOC_URL: &'static str = "https://ollama.com/library";

/// How often a request is tried again. A large model takes up to two minutes to
/// load, during which requests to it fail.
pub const OLLAMA_MAX_RETRIES: usize = 10;

pub const OLLAMA_INITIAL_RETRY_INTERVAL_MS: u64 = 2000;

/// The wait between tries grows by the half.
pub const OLLAMA_BACKOFF_NUMERATOR: u32 = 3;

pub const OLLAMA_BACKOFF_DENOMINATOR: u32 = 2;

pub const OLLAMA_MAX_RETRY_INTERVAL_MS: u64 = 15_000;

/// Where completions are asked for.
pub const OLLAMA_COMPLETIONS_PATH: &'static str = "v1/chat/completions";

/// Where the list of models is asked for.
pub const OLLAMA_MODELS_PATH: &'static str = "api/tags";

/// The seconds that a line may take by default, enough for slow models.
pub const OLLAMA_DEFAULT_CHUNK_TIMEOUT_SECS: u64 = 120;

/// Where the server is found, what it is asked, and what holds by default.
pub proof fn known_by_heart()
    ensures
        OLLAMA_PROVIDER_NAME@ == "ollama"@,
        OLLAMA_HOST@ == "localhost"@,
        OLLAMA_TIMEOUT == 600,
        OLLAMA_DEFAULT_PORT == 11434,
        OLLAMA_DEFAULT_MODEL@ == "qwen3"@,
        OLLAMA_DOC_URL@ == "https://ollama.com/library"@,
        OLLAMA_COMPLETIONS_PATH@ == "v1/chat/completions"@,
        OLLAMA_MODELS_PATH@ == "api/tags"@,
        OLLAMA_DEFAULT_CHUNK_TIMEOUT_SECS == 120,
{
}

/// The settings of the provider, resolved once.
#[derive(Debug, Clone, Copy, PartialEq, Eq, Structural)]
pub struct OllamaOptions {
    /// The context window that was asked for; without it that of the model.
    pub input_limit: Option<usize>,
    /// Whether requests ask for usage by `stream_options`.
    pub stream_usage: bool,
    /// The seconds that a line of the reply may take.
    pub chunk_timeout_secs: u64,
}

impl Default for OllamaOptions {
    fn default() -> (res: Self)
        ensures
            res == (OllamaOptions {
                input_limit: None,
                stream_usage: true,
                chunk_timeout_secs: OLLAMA_DEFAULT_CHUNK_TIMEOUT_SECS,
            }),
    {
        OllamaOptions {
            input_limit: None,
            stream_usage: true,
            chunk_timeout_secs: OLLAMA_DEFAULT_CHUNK_TIMEOUT_SECS,
        }
    }
}

/// The settings as they were given, each of them or not.
#[derive(Debug, Clone, Copy, PartialEq, Eq, Structural)]
pub struct OllamaSettings {
    pub goose_input_limit: Option<usize>,
    pub ollama_stream_usage: Option<bool>,
    pub ollama_stream_timeout: Option<u64>,
    pub goose_stream_timeout: Option<u64>,
    pub ollama_timeout: Option<u64>,
}

/// The first of two settings that was given.
pub open spec fn first_given<T>(a: Option<T>, b: Option<T>) -> Option<T> {
    match a {
        Some(x) => Some(x),
        None => b,
    }
}

impl OllamaOptions {
    /// The options that settings stand for: an input limit of zero is none, usage
    /// is asked for by default, and the time for a line is the first given of the
    /// stream timeout of Ollama, that of Goose, the timeout of Ollama and the
    /// default.
    pub fn from_settings(settings: &OllamaSettings) -> (res: Self)
        ensures
            res.input_limit == (if settings.goose_input_limit == Some(0usize) {
                None
            } else {
                settings.goose_input_limit
            }),
            Some(res.stream_usage) == first_given(settings.ollama_stream_usage, Some(true)),
            Some(res.chunk_timeout_secs) == first_given(
                settings.ollama_stream_timeout,
                first_given(
                    settings.goose_stream_timeout,
                    first_given(settings.ollama_timeout, Some(OLLAMA_DEFAULT_CHUNK_TIMEOUT_SECS)),
                ),
            ),
    {
        OllamaOptions {
            input_limit: match settings.goose_input_limit {
                Some(limit) => if limit == 0 {
                    None
                } else {
                    Some(limit)
                },
                None => None,
            },
            stream_usage: match settings.ollama_stream_usage {
                Some(usage) => usage,
                None => true,
            },
            chunk_timeout_secs: match settings.ollama_stream_timeout {
                Some(secs) => secs,
                None => match settings.goose_stream_timeout {
                    Some(secs) => secs,
                    None => match settings.ollama_timeout {
                        Some(secs) => secs,
                        None => OLLAMA_DEFAULT_CHUNK_TIMEOUT_SECS,
                    },
                },
            },
        }
    }
}

/// The context window to ask for: the one of the options, else that of the model.
pub fn resolve_ollama_num_ctx(options: &OllamaOptions, model_config: &ModelConfig) -> (res: Option<usize>)
    ensures
        res == first_given(options.input_limit, model_config.context_limit),
{
    match options.input_limit {
        Some(limit) => Some(limit),
        None => model_config.context_limit,
    }
}

/// The options of Ollama in a request, none where it has no such member.
pub open spec fn request_options(request: Map<Seq<char>, Json>) -> Json {
    match member(request, "options"@) {
        Some(options) => options,
        None => Json::Object(no_members()),
    }
}

/// A request with an option set. Options that are no object stay as they are.
pub open spec fn with_option(request: Map<Seq<char>, Json>, key: Seq<char>, value: Json) -> Map<Seq<char>, Json> {
    match request_options(request) {
        Json::Object(options) => request.insert(
            "options"@,
            Json::Object(options.insert(key, value)),
        ),
        _ => request,
    }
}

/// A request with an option set, unless it is set already. Options that are no
/// object stay as they are.
pub open spec fn with_default_option(request: Map<Seq<char>, Json>, key: Seq<char>, value: Json) -> Map<Seq<char>, Json> {
    match request_options(request) {
        Json::Object(options) => if options.dom().contains(key) {
            request
        } else {
            with_option(request, key, value)
        },
        _ => request,
    }
}

/// The key that a request limits its reply by: that of reasoning models first.
pub open spec fn limit_key(request: Map<Seq<char>, Json>) -> Option<Seq<char>> {
    if request.dom().contains("max_completion_tokens"@) {
        Some("max_completion_tokens"@)
    } else if request.dom().contains("max_tokens"@) {
        Some("max_tokens"@)
    } else {
        None
    }
}

/// A request with its limit moved to where Ollama looks for it, which keeps a
/// limit that stands there already.
pub open spec fn with_limit_moved(request: Map<Seq<char>, Json>) -> Map<Seq<char>, Json> {
    match limit_key(request) {
        Some(key) => with_default_option(request.remove(key), "num_predict"@, request[key]),
        None => request,
    }
}

/// A request as Ollama takes it.
pub open spec fn ollama_request(
    request: Map<Seq<char>, Json>,
    stream_usage: bool,
    num_ctx: Option<usize>,
) -> Map<Seq<char>, Json> {
    let gated = if stream_usage {
        request
    } else {
        request.remove("stream_options"@)
    };
    let limited = with_limit_moved(gated);
    match num_ctx {
        Some(limit) => with_option(limited, "num_ctx"@, Json::Integer(limit as int)),
        None => limited,
    }
}

/// Sets an option of a request, over one that is set already only if `replace`.
fn set_option(
    request: &mut serde_json::Map<String, serde_json::Value>,
    key: &str,
    value: serde_json::Value,
    replace: bool,
)
    ensures
        replace ==> json_object(*final(request)) == with_option(
            json_object(*old(request)),
            key@,
            json_value(value),
        ),
        !replace ==> json_object(*final(request)) == with_default_option(
            json_object(*old(request)),
            key@,
            json_value(value),
        ),
{
    let ghost start = json_object(*request);
    let options = match object_remove(request, "options") {
        Some(value) => value_into_object(value),
        None => Ok(object_new()),
    };
    match options {
        Ok(options) => {
            let mut options = options;
            if replace || object_get(&options, key).is_none() {
                object_insert(&mut options, key.to_owned(), value);
            }
            object_insert(request, "options".to_owned(), value_from_object(options));
            proof {
                if replace {
                    assert(json_object(*request) =~= with_option(start, key@, json_value(value)));
                } else {
                    assert(json_object(*request) =~= with_default_option(start, key@, json_value(value)));
                }
            }
        },
        Err(other) => {
            object_insert(request, "options".to_owned(), other);
            assert(json_object(*request) =~= start);
        },
    }
}

/// Makes a request one that Ollama takes: `stream_options` leave unless usage is
/// asked for, since older builds stall on them; the limit of the reply moves to
/// the option `num_predict`; the context window is set by the option `num_ctx`. A
/// payload that is no object stays as it is.
pub fn apply_ollama_options(payload: &mut serde_json::Value, options: &OllamaOptions, model_config: &ModelConfig)
    ensures
        match json_value(*old(payload)) {
            Json::Object(request) => json_value(*final(payload)) == Json::Object(
                ollama_request(
                    request,
                    options.stream_usage,
                    first_given(options.input_limit, model_config.context_limit),
                ),
            ),
            _ => *final(payload) == *old(payload),
        },
{
    match value_into_object(value_take(payload)) {
        Ok(request) => {
            let mut request = request;
            if !options.stream_usage {
                object_remove(&mut request, "stream_options");
            }
            let ghost gated = json_object(request);
            let max_tokens = match object_remove(&mut request, "max_completion_tokens") {
                Some(max_tokens) => Some(max_tokens),
                None => {
                    assert(json_object(request) =~= gated);
                    object_remove(&mut request, "max_tokens")
                },
            };
            match max_tokens {
                Some(max_tokens) => {
                    set_option(&mut request, "num_predict", max_tokens, false);
                },
                None => {
                    assert(json_object(request) =~= gated);
                },
            }
            assert(json_object(request) == with_limit_moved(gated));
            if let Some(limit) = resolve_ollama_num_ctx(options, model_config) {
                set_option(&mut request, "num_ctx", value_from_usize(limit), true);
            }
            *payload = value_from_object(request);
        },
        Err(other) => {
            *payload = other;
        },
    }
}

/// Nothing but `stream_options`, `max_completion_tokens`, `max_tokens` and
/// `options` of a request ever changes.
pub proof fn other_members_stay(
    request: Map<Seq<char>, Json>,
    stream_usage: bool,
    num_ctx: Option<usize>,
    key: Seq<char>,
)
    requires
        key != "stream_options"@,
        key != "max_completion_tokens"@,
        key != "max_tokens"@,
        key != "options"@,
    ensures
        member(ollama_request(request, stream_usage, num_ctx), key) == member(request, key),
{
}

proof fn keys_differ()
    ensures
        "stream_options"@ != "options"@,
        "stream_options"@ != "max_tokens"@,
        "stream_options"@ != "max_completion_tokens"@,
        "max_tokens"@ != "options"@,
        "max_tokens"@ != "max_completion_tokens"@,
        "max_completion_tokens"@ != "options"@,
        "num_ctx"@ != "num_predict"@,
{
    reveal_strlit("stream_options");
    reveal_strlit("options");
    reveal_strlit("max_tokens");
    reveal_strlit("max_completion_tokens");
    reveal_strlit("num_ctx");
    reveal_strlit("num_predict");
    assert("stream_options"@.len() == 14);
    assert("options"@.len() == 7);
    assert("max_tokens"@.len() == 10);
    assert("max_completion_tokens"@.len() == 21);
    assert("num_ctx"@.len() == 7);
    assert("num_predict"@.len() == 11);
}

/// `stream_options` are kept if and only if usage is asked for.
pub proof fn stream_options_follow_usage(
    request: Map<Seq<char>, Json>,
    stream_usage: bool,
    num_ctx: Option<usize>,
)
    ensures
        stream_usage ==> member(ollama_request(request, stream_usage, num_ctx), "stream_options"@)
            == member(request, "stream_options"@),
        !stream_usage ==> !ollama_request(request, stream_usage, num_ctx).dom().contains(
            "stream_options"@,
        ),
{
    keys_differ();
}

/// The limit of the reply leaves the request by the key it came under, and is
/// found in `num_predict`, unless that was set already or the options are no
/// object.
pub proof fn limit_moves_to_num_predict(
    request: Map<Seq<char>, Json>,
    stream_usage: bool,
    num_ctx: Option<usize>,
)
    requires
        limit_key(request) is Some,
    ensures
        !ollama_request(request, stream_usage, num_ctx).dom().contains(limit_key(request)->0),
        request_options(request) matches Json::Object(options) ==> {
            let sent = members(request_options(ollama_request(request, stream_usage, num_ctx)));
            sent.dom().contains("num_predict"@) && sent["num_predict"@] == (if options.dom().contains(
                "num_predict"@,
            ) {
                options["num_predict"@]
            } else {
                request[limit_key(request)->0]
            })
        },
{
    keys_differ();
}

/// Where a request limits its reply by one key alone, none of the keys that
/// Ollama does not know is left.
pub proof fn no_unknown_limit_is_left(
    request: Map<Seq<char>, Json>,
    stream_usage: bool,
    num_ctx: Option<usize>,
)
    requires
        !(request.dom().contains("max_completion_tokens"@) && request.dom().contains(
            "max_tokens"@,
        )),
    ensures
        limit_key(ollama_request(request, stream_usage, num_ctx)) is None,
{
    keys_differ();
}

/// A context window that is asked for is set, over one that was set before, unless
/// the options are no object; without one the options keep theirs.
pub proof fn num_ctx_is_set(request: Map<Seq<char>, Json>, stream_usage: bool, num_ctx: Option<usize>)
    requires
        request_options(request) is Object,
    ensures
        request_options(ollama_request(request, stream_usage, num_ctx)) is Object,
        member(
            members(request_options(ollama_request(request, stream_usage, num_ctx))),
            "num_ctx"@,
        ) == match num_ctx {
            Some(limit) => Some(Json::Integer(limit as int)),
            None => member(members(request_options(request)), "num_ctx"@),
        },
{
    keys_differ();
}

/// A request that Ollama takes stays as it is, where it limited its reply by one
/// key alone before.
pub proof fn applying_again_changes_nothing(
    request: Map<Seq<char>, Json>,
    stream_usage: bool,
    num_ctx: Option<usize>,
)
    requires
        !(request.dom().contains("max_completion_tokens"@) && request.dom().contains(
            "max_tokens"@,
        )),
    ensures
        ollama_request(ollama_request(request, stream_usage, num_ctx), stream_usage, num_ctx)
            == ollama_request(request, stream_usage, num_ctx),
{
    keys_differ();
    let once = ollama_request(request, stream_usage, num_ctx);
    no_unknown_limit_is_left(request, stream_usage, num_ctx);
    stream_options_follow_usage(request, stream_usage, num_ctx);
    assert(once.remove("stream_options"@) =~= once || stream_usage);
    assert(with_limit_moved(once) == once);
    match num_ctx {
        Some(limit) => {
            let value = Json::Integer(limit as int);
            match request_options(once) {
                Json::Object(options) => {
                    assert(options.insert("num_ctx"@, value) =~= options);
                    assert(once.insert("options"@, Json::Object(options)) =~= once);
                },
                _ => {},
            }
        },
        None => {},
    }
}

/// Of the members of a request but `options`, `stream_options` stay where usage is
/// asked for, `max_completion_tokens` leaves, `max_tokens` stays only beside it, and
/// every other one stays; none comes new.
pub proof fn members_that_are_sent(
    request: Map<Seq<char>, Json>,
    stream_usage: bool,
    num_ctx: Option<usize>,
    key: Seq<char>,
)
    requires
        key != "options"@,
    ensures
        ollama_request(request, stream_usage, num_ctx).dom().contains(key)
            <==> request.dom().contains(key) && (key == "stream_options"@ ==> stream_usage) && key
            != "max_completion_tokens"@ && (key == "max_tokens"@ ==> request.dom().contains(
            "max_completion_tokens"@,
        )),
        ollama_request(request, stream_usage, num_ctx).dom().contains(key) ==> ollama_request(
            request,
            stream_usage,
            num_ctx,
        )[key] == request[key],
{
    keys_differ();
}

/// The options of a request that is sent are those that it had, each as it was, but
/// for the context window where one is asked for; besides, they have the context
/// window, and the limit of the reply where they had none. Options that are no
/// object stay as they are.
pub proof fn options_that_are_sent(
    request: Map<Seq<char>, Json>,
    stream_usage: bool,
    num_ctx: Option<usize>,
    key: Seq<char>,
)
    ensures
        ({
            let sent = ollama_request(request, stream_usage, num_ctx);
            let reasons = request.dom().contains("max_completion_tokens"@);
            let limited = reasons || request.dom().contains("max_tokens"@);
            let limit = if reasons {
                request["max_completion_tokens"@]
            } else {
                request["max_tokens"@]
            };
            let given = request.dom().contains("options"@);
            let had = given && request["options"@] is Object
                && request["options"@]->Object_0.dom().contains(key);
            &&& given && !(request["options"@] is Object) ==> sent.dom().contains("options"@)
                && sent["options"@] == request["options"@]
            &&& !given && !limited && num_ctx is None ==> !sent.dom().contains("options"@)
            &&& (given && request["options"@] is Object) || (!given && (limited || num_ctx is Some))
                ==> {
                let options = sent["options"@]->Object_0;
                &&& sent.dom().contains("options"@)
                &&& sent["options"@] is Object
                &&& options.dom().contains(key) <==> had || (key == "num_predict"@ && limited) || (key
                    == "num_ctx"@ && num_ctx is Some)
                &&& key == "num_ctx"@ && num_ctx is Some ==> options[key] == Json::Integer(
                    num_ctx->0 as int,
                )
                &&& had && !(key == "num_ctx"@ && num_ctx is Some) ==> options[key]
                    == request["options"@]->Object_0[key]
                &&& key == "num_predict"@ && limited && !had ==> options[key] == limit
            }
        }),
{
    keys_differ();
}

/// A setting that was given goes before another.
pub proof fn given_setting_goes_first<T>(a: T, b: Option<T>)
    ensures
        first_given(Some(a), b) == Some(a),
        first_given(None, b) == b,
{
}

/// The Ollama provider: the client that its requests go through, its name and its
/// options.
pub struct OllamaProvider<C> {
    pub api_client: C,
    pub name: String,
    pub skip_canonical_filtering: bool,
    pub options: OllamaOptions,
}

impl<C> OllamaProvider<C> {
    pub fn new(api_client: C, name: String, skip_canonical_filtering: bool, options: OllamaOptions) -> (res: Self)
        ensures
            res == (OllamaProvider { api_client, name, skip_canonical_filtering, options }),
    {
        OllamaProvider { api_client, name, skip_canonical_filtering, options }
    }

    /// What the provider tells about itself.
    pub fn metadata() -> (res: ProviderMetadata)
        ensures
            res.name@ == OLLAMA_PROVIDER_NAME@,
            res.display_name@ == "Ollama"@,
            res.description@ == "Local open source models"@,
            res.default_model@ == OLLAMA_DEFAULT_MODEL@,
            texts_of(res.known_models@) == OLLAMA_KNOWN_MODELS@.map_values(|name: &'static str| name@),
            res.model_doc_link@ == OLLAMA_DOC_URL@,
            res.config_keys@.len() == 2,
            res.config_keys@[0].describes(
                "OLLAMA_HOST"@,
                true,
                false,
                Some(OLLAMA_HOST@),
                true,
            ),
            res.config_keys@[1].describes(
                "OLLAMA_TIMEOUT"@,
                false,
                false,
                Some(decimal(OLLAMA_TIMEOUT as nat)),
                false,
            ),
    {
        let known = OLLAMA_KNOWN_MODELS;
        let ghost names = known@.map_values(|name: &'static str| name@);
        let mut known_models: Vec<String> = Vec::new();
        let mut i: usize = 0;
        assert(texts_of(known_models@) =~= names.take(0));
        while i < known.len()
            invariant
                i <= known@.len(),
                names == known@.map_values(|name: &'static str| name@),
                texts_of(known_models@) == names.take(i as int),
            decreases known@.len() - i,
        {
            let ghost before = texts_of(known_models@);
            let name: &'static str = known[i];
            known_models.push(name.to_owned());
            assert(texts_of(known_models@) =~= before.push(name@));
            assert(names.take(i + 1) =~= names.take(i as int).push(name@));
            i += 1;
        }
        assert(names.take(i as int) =~= names);
        let timeout = decimal_text(OLLAMA_TIMEOUT);
        let mut config_keys: Vec<ConfigKey> = Vec::new();
        config_keys.push(ConfigKey::new("OLLAMA_HOST", true, false, Some(OLLAMA_HOST), true));
        config_keys.push(
            ConfigKey::new("OLLAMA_TIMEOUT", false, false, Some(timeout.as_str()), false),
        );
        ProviderMetadata::new(
            OLLAMA_PROVIDER_NAME,
            "Ollama",
            "Local open source models",
            OLLAMA_DEFAULT_MODEL,
            known_models,
            OLLAMA_DOC_URL,
            config_keys,
        )
    }

    pub fn get_name(&self) -> (res: &str)
        ensures
            res@ == self.name@,
    {
        self.name.as_str()
    }

    pub fn skip_canonical_filtering(&self) -> (res: bool)
        ensures
            res == self.skip_canonical_filtering,
    {
        self.skip_canonical_filtering
    }

    /// Many tries with a slowly growing wait, for the time that a model loads.
    pub fn retry_config(&self) -> (res: RetryConfig)
        ensures
            res == (RetryConfig {
                max_retries: 10,
                initial_interval_ms: 2000,
                backoff_numerator: 3,
                backoff_denominator: 2,
                max_interval_ms: 15_000,
                transient_only: true,
            }),
    {
        RetryConfig {
            max_retries: OLLAMA_MAX_RETRIES,
            initial_interval_ms: OLLAMA_INITIAL_RETRY_INTERVAL_MS,
            backoff_numerator: OLLAMA_BACKOFF_NUMERATOR,
            backoff_denominator: OLLAMA_BACKOFF_DENOMINATOR,
            max_interval_ms: OLLAMA_MAX_RETRY_INTERVAL_MS,
            transient_only: true,
        }
    }
}

/// A request that is ready to be sent.
#[derive(Debug)]
pub struct OllamaRequest {
    pub session_id: String,
    pub path: String,
    pub payload: serde_json::Value,
    /// The seconds that a line of the reply may take, once the first one came.
    pub chunk_timeout_secs: u64,
}

impl<C> OllamaProvider<C> {
    /// The request for a completion, made of a payload for any OpenAI-compatible
    /// server.
    pub fn completion_request(&self, payload: serde_json::Value, session_id: &str, model_config: &ModelConfig) -> (res: OllamaRequest)
        ensures
            res.session_id@ == session_id@,
            res.path@ == "v1/chat/completions"@,
            res.chunk_timeout_secs == self.options.chunk_timeout_secs,
            match json_value(payload) {
                Json::Object(request) => json_value(res.payload) == Json::Object(
                    ollama_request(
                        request,
                        self.options.stream_usage,
                        first_given(self.options.input_limit, model_config.context_limit),
                    ),
                ),
                _ => res.payload == payload,
            },
    {
        let mut payload = payload;
        apply_ollama_options(&mut payload, &self.options, model_config);
        OllamaRequest {
            session_id: session_id.to_owned(),
            path: OLLAMA_COMPLETIONS_PATH.to_owned(),
            payload,
            chunk_timeout_secs: self.options.chunk_timeout_secs,
        }
    }
}

/// What happened while the list of models was asked for.
#[derive(Debug)]
pub enum ModelsEvent {
    /// No reply came, and why.
    NoReply(String),
    /// A reply came with this status: the code, and the status in words.
    Status(u16, String),
    /// The body of the reply is no JSON, and why.
    NoJson(String),
    /// The body of the reply.
    Body(serde_json::Value),
}

/// What to do about it.
#[derive(Debug)]
pub enum ModelsStep {
    /// Read the body of the reply.
    ReadBody,
    /// Hand on the names of the models, or why they are not known.
    Done(Result<Vec<String>, ProviderError>),
}

/// Whether a request failed with this message.
pub open spec fn failed_with(res: Result<Vec<String>, ProviderError>, message: Seq<char>) -> bool {
    res is Err && res->Err_0->RequestFailed_0@ == message
}

/// A request that failed with a message has that message.
pub proof fn failure_has_its_message(res: Result<Vec<String>, ProviderError>, message: Seq<char>)
    ensures
        failed_with(res, message) <==> res is Err && res->Err_0->RequestFailed_0@ == message,
{
}

/// The names among the models of a list.
pub open spec fn listed_names(models: Seq<Json>) -> Seq<Seq<char>>
    decreases models.len(),
{
    if models.len() == 0 {
        Seq::empty()
    } else {
        let front = listed_names(models.drop_last());
        match text_member(members(models.last()), "name"@) {
            Some(name) => front.push(name),
            None => front,
        }
    }
}

/// A model that is an object with a text under `name` adds that text to the names,
/// whatever else it has; any other adds none.
pub proof fn one_model_more(models: Seq<Json>, model: Json)
    ensures
        listed_names(Seq::empty()).len() == 0,
        model is Object && model->Object_0.dom().contains("name"@)
            && model->Object_0["name"@] is Text ==> listed_names(models.push(model)) == listed_names(
            models,
        ).push(model->Object_0["name"@]->Text_0),
        !(model is Object && model->Object_0.dom().contains("name"@)
            && model->Object_0["name"@] is Text) ==> listed_names(models.push(model))
            == listed_names(models),
{
    assert(models.push(model).drop_last() =~= models);
}

/// Whether a result is the names that a body lists, in order, or the error for a
/// body that has no list.
pub open spec fn lists_models(body: Json, res: Result<Vec<String>, ProviderError>) -> bool {
    match array_member(members(body), "models"@) {
        Some(models) => {
            &&& res is Ok
            &&& texts_sorted(texts_of(res->Ok_0@))
            &&& texts_of(res->Ok_0@).to_multiset() == listed_names(models).to_multiset()
        },
        None => failed_with(res, "No models array in response"@),
    }
}

/// The models of a body are known if and only if it is an object with an array under
/// `models`, whatever else it has. Then they are the names of all models in the
/// array that are objects with a text under `name`, each as often as it stands
/// there, in the order of strings.
pub proof fn all_names_are_listed(body: Json, res: Result<Vec<String>, ProviderError>)
    requires
        lists_models(body, res),
    ensures
        res is Ok <==> body is Object && body->Object_0.dom().contains("models"@)
            && body->Object_0["models"@] is Array,
        res is Err ==> res->Err_0->RequestFailed_0@ == "No models array in response"@,
        res is Ok ==> forall|i: int, j: int|
            0 <= i < j < res->Ok_0@.len() ==> text_le(
                (#[trigger] res->Ok_0@[i])@,
                (#[trigger] res->Ok_0@[j])@,
            ),
        res is Ok ==> res->Ok_0@.map_values(|name: String| name@).to_multiset()
            == body->Object_0["models"@]->Array_0.filter(
            |model: Json|
                model is Object && model->Object_0.dom().contains("name"@)
                    && model->Object_0["name"@] is Text,
        ).map_values(|model: Json| model->Object_0["name"@]->Text_0).to_multiset(),
{
    if res is Ok {
        let models = body->Object_0["models"@]->Array_0;
        names_are_filtered(models);
        let texts = texts_of(res->Ok_0@);
        assert(texts =~= res->Ok_0@.map_values(|name: String| name@));
        assert forall|i: int, j: int| 0 <= i < j < res->Ok_0@.len() implies text_le(
            (#[trigger] res->Ok_0@[i])@,
            (#[trigger] res->Ok_0@[j])@,
        ) by {
            assert(text_le(texts[i], texts[j]));
        }
    }
}

proof fn names_are_filtered(models: Seq<Json>)
    ensures
        listed_names(models) == models.filter(
            |model: Json|
                model is Object && model->Object_0.dom().contains("name"@)
                    && model->Object_0["name"@] is Text,
        ).map_values(|model: Json| model->Object_0["name"@]->Text_0),
    decreases models.len(),
{
    reveal(Seq::filter);
    let named = |model: Json|
        model is Object && model->Object_0.dom().contains("name"@)
            && model->Object_0["name"@] is Text;
    let name = |model: Json| model->Object_0["name"@]->Text_0;
    if models.len() == 0 {
        assert(models.filter(named).map_values(name) =~= Seq::<Seq<char>>::empty());
    } else {
        names_are_filtered(models.drop_last());
        one_model_more(models.drop_last(), models.last());
        assert(models.drop_last().push(models.last()) =~= models);
        assert(models.filter(named).map_values(name) =~= listed_names(models));
    }
}

/// The names of the models that a body lists, in order; an error where it lists
/// none at all.
pub fn model_names_in(body: &serde_json::Value) -> (res: Result<Vec<String>, ProviderError>)
    ensures
        lists_models(json_value(*body), res),
{
    let models = match value_as_object(body) {
        Some(object) => get_array(object, "models"),
        None => None,
    };
    let models = match models {
        Some(models) => models,
        None => {
            return Err(ProviderError::RequestFailed("No models array in response".to_owned()));
        },
    };
    let ghost values = models@.map_values(|item: serde_json::Value| json_value(item));
    let mut names: Vec<String> = Vec::new();
    let mut i: usize = 0;
    assert(texts_of(names@) =~= listed_names(values.take(0)));
    while i < models.len()
        invariant
            i <= models@.len(),
            values == models@.map_values(|item: serde_json::Value| json_value(item)),
            texts_of(names@) == listed_names(values.take(i as int)),
        decreases models@.len() - i,
    {
        assert(values.take(i + 1).drop_last() =~= values.take(i as int));
        assert(values.take(i + 1).last() == json_value(models@[i as int]));
        let ghost before = texts_of(names@);
        if let Some(model) = value_as_object(&models[i]) {
            if let Some(name) = get_text(model, "name") {
                names.push(name.to_owned());
                assert(texts_of(names@) =~= before.push(name@));
            }
        }
        i += 1;
    }
    assert(values.take(i as int) =~= values);
    sort_strings(&mut names);
    Ok(names)
}

/// What to do about an event: read the body of a reply with a status of success,
/// and end with its models; end with an error otherwise.
pub fn models_step(event: ModelsEvent) -> (res: ModelsStep)
    ensures
        match event {
            ModelsEvent::NoReply(error) => res matches ModelsStep::Done(done) && failed_with(
                done,
                "Failed to fetch models: "@ + error@,
            ),
            ModelsEvent::Status(code, text) => if 200 <= code < 300 {
                res is ReadBody
            } else {
                res matches ModelsStep::Done(done) && failed_with(
                    done,
                    "Failed to fetch models: HTTP "@ + text@,
                )
            },
            ModelsEvent::NoJson(error) => res matches ModelsStep::Done(done) && failed_with(
                done,
                "Failed to parse response: "@ + error@,
            ),
            ModelsEvent::Body(body) => res matches ModelsStep::Done(done) && lists_models(
                json_value(body),
                done,
            ),
        },
{
    match event {
        ModelsEvent::NoReply(error) => {
            let mut message = "Failed to fetch models: ".to_owned();
            message.append(error.as_str());
            ModelsStep::Done(Err(ProviderError::RequestFailed(message)))
        },
        ModelsEvent::Status(code, text) => {
            if 200 <= code && code < 300 {
                return ModelsStep::ReadBody;
            }
            let mut message = "Failed to fetch models: HTTP ".to_owned();
            message.append(text.as_str());
            ModelsStep::Done(Err(ProviderError::RequestFailed(message)))
        },
        ModelsEvent::NoJson(error) => {
            let mut message = "Failed to parse response: ".to_owned();
            message.append(error.as_str());
            ModelsStep::Done(Err(ProviderError::RequestFailed(message)))
        },
        ModelsEvent::Body(body) => ModelsStep::Done(model_names_in(&body)),
    }
}

} // verus!
