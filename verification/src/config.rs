//! The settings of the gateway, and the models that it offers.
use crate::error;
use crate::error::{GatewayError, GatewayErrorView, Reply};
use crate::json;
use crate::json::{JsonTree, Members};
use crate::text;
use serde_json::Value;
use vstd::prelude::*;
use vstd::string::*;

verus! {

/// The models that a client may ask for by name.
pub const SUPPORTED_MODELS: [&'static str; 5] = [
    "gpt-5.4-mini",
    "gpt-5.5",
    "gpt-5.6-luna",
    "gpt-5.6-terra",
    "gpt-5.6-sol",
];

/// The name that stands for the default model.
pub const MODEL_ALIAS: &'static str = "codex";

pub const DEFAULT_MODEL: &'static str = "gpt-5.6-luna";

pub const DEFAULT_BINARY: &'static str = "codex";

pub const DEFAULT_HOME: &'static str = "/home/codex/.codex";

pub const DEFAULT_RUNTIME_DIR: &'static str = "/home/codex/runtime";

pub const DEFAULT_EXEC_FALLBACK: bool = true;

pub const DEFAULT_TIMEOUT_SECONDS: u64 = 600;

pub const DEFAULT_CONCURRENT_RUNS: usize = 4;

pub const DEFAULT_MAX_TURNS: u64 = 100;

pub const DEFAULT_BODY_BYTES: usize = 20_971_520;

pub const DEFAULT_PROMPT_BYTES: usize = 16_777_216;

pub const DEFAULT_RESPONSE_BYTES: usize = 4_194_304;

pub const DEFAULT_MESSAGES: usize = 128;

pub const DEFAULT_HOST: &'static str = "127.0.0.1";

pub const DEFAULT_PORT: u16 = 8989;

/// The settings of the gateway.
#[derive(Debug, Clone)]
pub struct Config {
    pub default_model: String,
    pub codex_binary: String,
    pub codex_home: String,
    pub runtime_dir: String,
    pub exec_fallback: bool,
    pub timeout_seconds: u64,
    pub max_concurrent_runs: usize,
    /// How many turns a pooled `codex app-server` child serves before it is replaced, which gives
    /// back the memory that it has piled up. It is replaced only while it is idle between runs,
    /// never in the middle of a turn. 0 keeps every child for the whole life of the gateway.
    pub app_server_max_turns: u64,
    pub max_request_body_bytes: usize,
    pub max_prompt_bytes: usize,
    pub max_response_bytes: usize,
    pub max_messages: usize,
    pub server_host: String,
    pub server_port: u16,
}

/// The model is one that a client may ask for by name.
pub open spec fn is_supported(model: Seq<char>) -> bool {
    exists|i: int| 0 <= i < SUPPORTED_MODELS@.len() && (#[trigger] SUPPORTED_MODELS@[i])@ == model
}

/// Whether the model is one that a client may ask for by name.
fn supports(model: &str) -> (found: bool)
    ensures
        found == is_supported(model@),
{
    let models: [&'static str; 5] = SUPPORTED_MODELS;
    let mut i: usize = 0;
    while i < models.len()
        invariant
            i <= models@.len(),
            models == SUPPORTED_MODELS,
            forall|j: int| 0 <= j < i ==> (#[trigger] SUPPORTED_MODELS@[j])@ != model@,
        decreases models@.len() - i,
    {
        if text::same_text(models[i], model) {
            proof {
                assert(SUPPORTED_MODELS@[i as int]@ == model@);
            }
            return true;
        }
        i = i + 1;
    }
    false
}

impl Config {
    /// The gateway can run with these settings: the default model is one that it offers, and no
    /// limit that it needs is zero.
    pub open spec fn is_valid(self) -> bool {
        &&& is_supported(self.default_model@)
        &&& self.timeout_seconds != 0
        &&& self.max_concurrent_runs != 0
        &&& self.max_messages != 0
        &&& self.max_request_body_bytes != 0
        &&& self.max_prompt_bytes != 0
        &&& self.max_response_bytes != 0
    }

    /// The settings as they were read from the environment, where the gateway can run with them.
    pub fn from_env(config: Config) -> (checked: Result<Config, GatewayError>)
        ensures
            config.is_valid() ==> checked == Ok::<Config, GatewayError>(config),
            !config.is_valid() ==> (checked matches Err(failure) && failure@
                == GatewayErrorView::Config("invalid required configuration"@)),
    {
        if !supports(config.default_model.as_str()) || config.timeout_seconds == 0
            || config.max_concurrent_runs == 0 || config.max_messages == 0
            || config.max_request_body_bytes == 0 || config.max_prompt_bytes == 0
            || config.max_response_bytes == 0 {
            return Err(GatewayError::Config("invalid required configuration".to_owned()));
        }
        Ok(config)
    }
}

impl Default for Config {
    fn default() -> (config: Self)
        ensures
            config.default_model@ == DEFAULT_MODEL@,
            config.codex_binary@ == DEFAULT_BINARY@,
            config.codex_home@ == DEFAULT_HOME@,
            config.runtime_dir@ == DEFAULT_RUNTIME_DIR@,
            config.exec_fallback == DEFAULT_EXEC_FALLBACK,
            config.timeout_seconds == DEFAULT_TIMEOUT_SECONDS,
            config.max_concurrent_runs == DEFAULT_CONCURRENT_RUNS,
            config.app_server_max_turns == DEFAULT_MAX_TURNS,
            config.max_request_body_bytes == DEFAULT_BODY_BYTES,
            config.max_prompt_bytes == DEFAULT_PROMPT_BYTES,
            config.max_response_bytes == DEFAULT_RESPONSE_BYTES,
            config.max_messages == DEFAULT_MESSAGES,
            config.server_host@ == DEFAULT_HOST@,
            config.server_port == DEFAULT_PORT,
            config.is_valid(),
    {
        proof {
            assert(SUPPORTED_MODELS@[2]@ == DEFAULT_MODEL@);
        }
        Config {
            default_model: DEFAULT_MODEL.to_owned(),
            codex_binary: DEFAULT_BINARY.to_owned(),
            codex_home: DEFAULT_HOME.to_owned(),
            runtime_dir: DEFAULT_RUNTIME_DIR.to_owned(),
            exec_fallback: DEFAULT_EXEC_FALLBACK,
            timeout_seconds: DEFAULT_TIMEOUT_SECONDS,
            max_concurrent_runs: DEFAULT_CONCURRENT_RUNS,
            app_server_max_turns: DEFAULT_MAX_TURNS,
            max_request_body_bytes: DEFAULT_BODY_BYTES,
            max_prompt_bytes: DEFAULT_PROMPT_BYTES,
            max_response_bytes: DEFAULT_RESPONSE_BYTES,
            max_messages: DEFAULT_MESSAGES,
            server_host: DEFAULT_HOST.to_owned(),
            server_port: DEFAULT_PORT,
        }
    }
}

/// The model that a request gets, or why it gets none.
pub open spec fn resolved(model: Option<Seq<char>>, default_model: Seq<char>) -> Result<
    Seq<char>,
    Seq<char>,
> {
    match model {
        None => Err("model is required"@),
        Some(model) => if model == MODEL_ALIAS@ {
            Ok(default_model)
        } else if is_supported(model) {
            Ok(model)
        } else {
            Err("the requested model is not supported"@)
        },
    }
}

/// The model that a request gets, or why it gets none. No model is accepted silently.
pub fn resolve_model(model: Option<&str>, config: &Config) -> (found: Result<String, String>)
    ensures
        match found {
            Ok(found) => resolved(text::opt_str_view(model), config.default_model@) == Ok::<
                Seq<char>,
                Seq<char>,
            >(found@),
            Err(reason) => resolved(text::opt_str_view(model), config.default_model@) == Err::<
                Seq<char>,
                Seq<char>,
            >(reason@),
        },
{
    match model {
        None => Err("model is required".to_owned()),
        Some(model) => {
            if text::same_text(model, MODEL_ALIAS) {
                Ok(config.default_model.clone())
            } else if supports(model) {
                Ok(model.to_owned())
            } else {
                Err("the requested model is not supported".to_owned())
            }
        },
    }
}

/// The entry of a model in the list of models.
pub open spec fn model_tree(id: Seq<char>) -> JsonTree {
    JsonTree::Object(
        map![
            "id"@ => JsonTree::Text(id),
            "object"@ => JsonTree::Text("model"@),
            "owned_by"@ => JsonTree::Text("openai"@),
        ],
    )
}

/// The entry of the alias in the list of models.
pub open spec fn alias_tree(default_model: Seq<char>) -> JsonTree {
    JsonTree::Object(
        map![
            "id"@ => JsonTree::Text(MODEL_ALIAS@),
            "object"@ => JsonTree::Text("model"@),
            "owned_by"@ => JsonTree::Text("openai"@),
            "alias_for"@ => JsonTree::Text(default_model),
        ],
    )
}

/// The entries of the models that a client may ask for by name.
pub open spec fn supported_trees() -> Seq<JsonTree> {
    SUPPORTED_MODELS@.map_values(|id: &'static str| model_tree(id@))
}

/// The list of models: the alias, then every model that a client may ask for by name.
pub open spec fn models_tree(default_model: Seq<char>) -> JsonTree {
    JsonTree::Object(
        map![
            "object"@ => JsonTree::Text("list"@),
            "data"@ => JsonTree::Array(seq![alias_tree(default_model)] + supported_trees()),
        ],
    )
}

/// The reply with the list of models.
pub fn models(config: &Config) -> (reply: Reply)
    ensures
        reply@ == (error::ReplyView {
            status: error::OK,
            body: models_tree(config.default_model@),
        }),
{
    let alias: Value = Members::new().with("id", json::text(MODEL_ALIAS)).with(
        "object",
        json::text("model"),
    ).with("owned_by", json::text("openai")).with(
        "alias_for",
        json::text(config.default_model.as_str()),
    ).build();
    let mut data: Vec<Value> = Vec::new();
    data.push(alias);
    let ids: [&'static str; 5] = SUPPORTED_MODELS;
    let mut i: usize = 0;
    while i < ids.len()
        invariant
            i <= ids@.len(),
            ids == SUPPORTED_MODELS,
            data@.len() == i + 1,
            json::value_tree(data@[0]) == alias_tree(config.default_model@),
            forall|j: int|
                0 <= j < i ==> json::value_tree(#[trigger] data@[j + 1]) == supported_trees()[j],
        decreases ids@.len() - i,
    {
        let entry: Value = Members::new().with("id", json::text(ids[i])).with(
            "object",
            json::text("model"),
        ).with("owned_by", json::text("openai")).build();
        proof {
            assert(json::value_tree(entry) == supported_trees()[i as int]);
        }
        data.push(entry);
        i = i + 1;
    }
    proof {
        let trees = seq![alias_tree(config.default_model@)] + supported_trees();
        assert forall|k: int| 0 <= k < trees.len() implies json::value_trees(data@)[k] == trees[k] by {
            if k > 0 {
                assert(json::value_tree(data@[(k - 1) + 1]) == supported_trees()[k - 1]);
            }
        }
        assert(json::value_trees(data@) =~= trees);
    }
    let body: Value = Members::new().with("object", json::text("list")).with(
        "data",
        json::array(data),
    ).build();
    Reply { status: error::OK, body }
}

/// With settings that are valid, a request gets a model that the gateway offers or none at all.
pub proof fn only_offered_models_are_used(model: Option<Seq<char>>, config: Config)
    requires
        config.is_valid(),
    ensures
        resolved(model, config.default_model@) matches Ok(found) ==> is_supported(found),
{
}

/// The alias and every model that is offered by name are accepted.
pub proof fn offered_models_are_accepted(model: Seq<char>, config: Config)
    requires
        model == MODEL_ALIAS@ || is_supported(model),
    ensures
        resolved(Some(model), config.default_model@) is Ok,
        is_supported(model) && model != MODEL_ALIAS@ ==> resolved(
            Some(model),
            config.default_model@,
        ) == Ok::<Seq<char>, Seq<char>>(model),
{
}

} // verus!
