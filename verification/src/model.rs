//! Which model a request goes to, and with what settings.

use vstd::prelude::*;

use crate::json::{json_object, keys_in_order, object_insert, object_remove, Json};
use crate::text::texts_of;

verus! {

/// A model that a provider offers, and how many tokens its context takes.
#[derive(Debug, Clone)]
pub struct ModelInfo {
    pub name: String,
    pub context_limit: usize,
}

/// A model and the settings of a request to it.
#[derive(Debug)]
pub struct ModelConfig {
    pub model_name: String,
    pub context_limit: Option<usize>,
    /// The bits of a 32-bit float.
    pub temperature: Option<u32>,
    pub max_tokens: Option<i32>,
    pub toolshim: bool,
    pub toolshim_model: Option<String>,
    pub request_params: Option<serde_json::Map<String, serde_json::Value>>,
    pub reasoning: Option<bool>,
}

/// The parameters of a request, if any.
pub open spec fn params_of(params: Option<serde_json::Map<String, serde_json::Value>>) -> Option<Map<Seq<char>, Json>> {
    match params {
        Some(object) => Some(json_object(object)),
        None => None,
    }
}

/// Parameters merged into others, of which they replace those of the same name.
pub open spec fn merged_params(params: Option<Map<Seq<char>, Json>>, more: Map<Seq<char>, Json>) -> Map<Seq<char>, Json> {
    match params {
        Some(object) => object.union_prefer_right(more),
        None => more,
    }
}

/// Of merged parameters each is the newer one where there is one, else the older
/// one.
pub proof fn newer_parameters_replace_older(
    params: Option<serde_json::Map<String, serde_json::Value>>,
    more: Map<Seq<char>, Json>,
    key: Seq<char>,
)
    ensures
        params_of(params) is Some <==> params is Some,
        params is Some ==> params_of(params)->0 == json_object(params->0),
        ({
            let merged = merged_params(params_of(params), more);
            let older = params is Some && json_object(params->0).dom().contains(key);
            &&& merged.dom().contains(key) <==> more.dom().contains(key) || older
            &&& more.dom().contains(key) ==> merged[key] == more[key]
            &&& !more.dom().contains(key) && older ==> merged[key] == json_object(params->0)[key]
        }),
{
}

impl ModelConfig {
    /// A model without any settings.
    pub fn new(model_name: &str) -> (res: Self)
        ensures
            res.model_name@ == model_name@,
            res.context_limit is None,
            res.temperature is None,
            res.max_tokens is None,
            !res.toolshim,
            res.toolshim_model is None,
            res.request_params is None,
            res.reasoning is None,
    {
        ModelConfig {
            model_name: model_name.to_owned(),
            context_limit: None,
            temperature: None,
            max_tokens: None,
            toolshim: false,
            toolshim_model: None,
            request_params: None,
            reasoning: None,
        }
    }

    /// With another limit of the context.
    pub fn with_context_limit(self, context_limit: Option<usize>) -> (res: Self)
        ensures
            res == (ModelConfig { context_limit, ..self }),
    {
        ModelConfig { context_limit, ..self }
    }

    /// With another temperature.
    pub fn with_temperature(self, temperature: Option<u32>) -> (res: Self)
        ensures
            res == (ModelConfig { temperature, ..self }),
    {
        ModelConfig { temperature, ..self }
    }

    /// With another limit of the reply.
    pub fn with_max_tokens(self, max_tokens: Option<i32>) -> (res: Self)
        ensures
            res == (ModelConfig { max_tokens, ..self }),
    {
        ModelConfig { max_tokens, ..self }
    }

    /// With or without the tool shim.
    pub fn with_toolshim(self, toolshim: bool) -> (res: Self)
        ensures
            res == (ModelConfig { toolshim, ..self }),
    {
        ModelConfig { toolshim, ..self }
    }

    /// With another model for the tool shim.
    pub fn with_toolshim_model(self, toolshim_model: Option<String>) -> (res: Self)
        ensures
            res == (ModelConfig { toolshim_model, ..self }),
    {
        ModelConfig { toolshim_model, ..self }
    }

    /// With more parameters, which replace those of the same name.
    pub fn with_merged_request_params(self, params: serde_json::Map<String, serde_json::Value>) -> (res: Self)
        ensures
            params_of(res.request_params) == Some(
                merged_params(params_of(self.request_params), json_object(params)),
            ),
            res == (ModelConfig { request_params: res.request_params, ..self }),
    {
        let ghost given = json_object(params);
        let mut config = self;
        let taken = config.request_params.take();
        let merged = match taken {
            None => params,
            Some(object) => {
                let mut object = object;
                let mut params = params;
                let ghost start = json_object(object);
                let keys = keys_in_order(&params);
                let ghost names = texts_of(keys@);
                let mut i: usize = 0;
                proof {
                    let none = names.take(0).to_set();
                    assert(none =~= Set::empty());
                    assert(json_object(params) =~= given.remove_keys(none));
                    assert(start =~= start.union_prefer_right(given.restrict(none)));
                }
                while i < keys.len()
                    invariant
                        i <= keys@.len(),
                        names == texts_of(keys@),
                        names.no_duplicates(),
                        names.to_set() == given.dom(),
                        json_object(params) == given.remove_keys(names.take(i as int).to_set()),
                        json_object(object) == start.union_prefer_right(
                            given.restrict(names.take(i as int).to_set()),
                        ),
                    decreases keys@.len() - i,
                {
                    let key = keys[i].as_str();
                    let ghost done = names.take(i as int).to_set();
                    proof {
                        assert(names[i as int] == key@);
                        assert(names.to_set().contains(names[i as int]));
                        assert(!done.contains(key@)) by {
                            if done.contains(key@) {
                                let j = choose|j: int|
                                    0 <= j < names.take(i as int).len() && names.take(i as int)[j] == key@;
                                assert(names[j] == names[i as int]);
                            }
                        }
                        assert(names.take(i + 1) =~= names.take(i as int).push(key@));
                        assert(names.take(i + 1).to_set() =~= done.insert(key@)) by {
                            broadcast use vstd::seq_lib::group_seq_properties;
                        }
                    }
                    if let Some(value) = object_remove(&mut params, key) {
                        object_insert(&mut object, keys[i].clone(), value);
                        assert(json_object(object) =~= start.union_prefer_right(
                            given.restrict(done.insert(key@)),
                        ));
                        assert(json_object(params) =~= given.remove_keys(done.insert(key@)));
                    }
                    i += 1;
                }
                proof {
                    assert(names.take(i as int) =~= names);
                    assert(given.restrict(given.dom()) =~= given);
                }
                object
            },
        };
        config.request_params = Some(merged);
        config
    }
}

} // verus!
