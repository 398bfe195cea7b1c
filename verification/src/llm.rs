//! Language-model providers: which adapter a provider selects and the
//! settings the adapter is built with.
use vstd::prelude::*;
use crate::models::AiProvider;
use crate::text::{concat, owned, push_str, str_eq, string_from};

verus! {

/// The language-model adapters.
#[derive(Debug, PartialEq, Eq, Structural)]
pub enum LlmEngine {
    Ollama,
    OpenAi,
    Gemini,
    Anthropic,
}

/// The adapter a provider type selects.
pub open spec fn llm_engine_for(t: Seq<char>) -> Option<LlmEngine> {
    if t == "ollama"@ {
        Some(LlmEngine::Ollama)
    } else if t == "openai"@ || t == "lmstudio"@ || t == "custom_llm"@ {
        Some(LlmEngine::OpenAi)
    } else if t == "gemini"@ || t == "google"@ {
        Some(LlmEngine::Gemini)
    } else if t == "anthropic"@ {
        Some(LlmEngine::Anthropic)
    } else {
        None
    }
}

/// Routes a provider to its adapter, or names the unsupported type.
pub fn llm_engine(provider: &AiProvider) -> (r: Result<LlmEngine, String>)
    ensures
        llm_engine_for(provider.provider_type@) matches Some(e) ==> r == Ok::<LlmEngine, String>(e),
        llm_engine_for(provider.provider_type@) is None ==> (r matches Err(m) && m@
            == "Unsupported LLM provider type: "@ + provider.provider_type@),
{
    let t = provider.provider_type.as_str();
    if str_eq(t, "ollama") {
        Ok(LlmEngine::Ollama)
    } else if str_eq(t, "openai") || str_eq(t, "lmstudio") || str_eq(t, "custom_llm") {
        Ok(LlmEngine::OpenAi)
    } else if str_eq(t, "gemini") || str_eq(t, "google") {
        Ok(LlmEngine::Gemini)
    } else if str_eq(t, "anthropic") {
        Ok(LlmEngine::Anthropic)
    } else {
        Err(concat("Unsupported LLM provider type: ", t))
    }
}

/// How an adapter reaches its model.
pub struct LlmSettings {
    pub endpoint_url: String,
    pub model: String,
    pub api_key: String,
}

/// The endpoint and model each adapter falls back on when the provider names
/// none (the service addresses and model names in use at the time).
pub struct AdapterDefaults {
    pub ollama_endpoint: String,
    pub ollama_model: String,
    pub openai_endpoint: String,
    pub openai_model: String,
    pub gemini_model: String,
    pub anthropic_model: String,
}

pub open spec fn or_default(v: Option<String>, d: Seq<char>) -> Seq<char> {
    match v {
        Some(s) => s@,
        None => d,
    }
}

/// The settings of each adapter: the provider's own values, else the
/// adapter's defaults. Gemini and Anthropic need an API key.
pub open spec fn settings_ok(engine: LlmEngine, p: AiProvider, d: AdapterDefaults, r: Result<LlmSettings, String>) -> bool {
    match engine {
        LlmEngine::Ollama => r matches Ok(s)
            && s.endpoint_url@ == or_default(p.endpoint_url, d.ollama_endpoint@)
            && s.model@ == or_default(p.model_name, d.ollama_model@) && s.api_key@.len() == 0,
        LlmEngine::OpenAi => r matches Ok(s)
            && s.endpoint_url@ == or_default(p.endpoint_url, d.openai_endpoint@)
            && s.model@ == or_default(p.model_name, d.openai_model@)
            && s.api_key@ == or_default(p.api_key, seq![]),
        LlmEngine::Gemini => match p.api_key {
            Some(k) => r matches Ok(s) && s.model@ == or_default(p.model_name, d.gemini_model@)
                && s.api_key@ == k@ && s.endpoint_url@ == "https://generativelanguage.googleapis.com/v1beta/models/"@
                + s.model@ + ":generateContent?key="@ + k@,
            None => r matches Err(m) && m@ == "Gemini provider API key is missing"@,
        },
        LlmEngine::Anthropic => match p.api_key {
            Some(k) => r matches Ok(s) && s.model@ == or_default(p.model_name, d.anthropic_model@)
                && s.api_key@ == k@ && s.endpoint_url@ == "https://api.anthropic.com/v1/messages"@,
            None => r matches Err(m) && m@ == "Anthropic provider API key is missing"@,
        },
    }
}

fn value_or(v: &Option<String>, d: &str) -> (r: String)
    ensures
        r@ == or_default(*v, d@),
{
    match v {
        Some(s) => owned(s.as_str()),
        None => owned(d),
    }
}

/// Builds an adapter's settings from the provider.
pub fn llm_settings(engine: LlmEngine, provider: &AiProvider, defaults: &AdapterDefaults) -> (r: Result<LlmSettings, String>)
    ensures
        settings_ok(engine, *provider, *defaults, r),
{
    match engine {
        LlmEngine::Ollama => Ok(LlmSettings {
            endpoint_url: value_or(&provider.endpoint_url, defaults.ollama_endpoint.as_str()),
            model: value_or(&provider.model_name, defaults.ollama_model.as_str()),
            api_key: String::new(),
        }),
        LlmEngine::OpenAi => {
            let api_key = match &provider.api_key {
                Some(k) => owned(k.as_str()),
                None => String::new(),
            };
            Ok(LlmSettings {
                endpoint_url: value_or(&provider.endpoint_url, defaults.openai_endpoint.as_str()),
                model: value_or(&provider.model_name, defaults.openai_model.as_str()),
                api_key,
            })
        },
        LlmEngine::Gemini => match &provider.api_key {
            Some(k) => {
                let model = value_or(&provider.model_name, defaults.gemini_model.as_str());
                let mut url: Vec<char> = Vec::new();
                push_str(&mut url, "https://generativelanguage.googleapis.com/v1beta/models/");
                push_str(&mut url, model.as_str());
                push_str(&mut url, ":generateContent?key=");
                push_str(&mut url, k.as_str());
                Ok(LlmSettings { endpoint_url: string_from(url.as_slice()), model, api_key: owned(k.as_str()) })
            },
            None => Err(owned("Gemini provider API key is missing")),
        },
        LlmEngine::Anthropic => match &provider.api_key {
            Some(k) => Ok(LlmSettings {
                endpoint_url: owned("https://api.anthropic.com/v1/messages"),
                model: value_or(&provider.model_name, defaults.anthropic_model.as_str()),
                api_key: owned(k.as_str()),
            }),
            None => Err(owned("Anthropic provider API key is missing")),
        },
    }
}

/// The header value that carries an OpenAI-style key.
pub fn bearer_header(api_key: &str) -> (r: String)
    ensures
        r@ == "Bearer "@ + api_key@,
{
    concat("Bearer ", api_key)
}

} // verus!
