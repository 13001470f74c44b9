//! The choice of providers by name.

use crate::config::LlmConfig;
use crate::embedding::OpenAiEmbeddingProvider;
use crate::env::{or_else, Env};
use crate::llm::{AnthropicProvider, OllamaProvider, OpenAiCompatibleProvider, ANTHROPIC_DEFAULT_BASE_URL, OLLAMA_DEFAULT_BASE_URL};
use crate::text::{
    begins, blank, is_blank, quote, quoted, same, starts_with, to_unicode_lower, trim, trimmed,
    unicode_lowercase, without_trailing,
};
use vstd::prelude::*;

verus! {

/// A chosen chat provider.
#[derive(Debug)]
pub enum ChatProvider {
    OpenAi(OpenAiCompatibleProvider),
    Anthropic(AnthropicProvider),
    Ollama(OllamaProvider),
}

/// A chosen embedding provider.
#[derive(Debug)]
pub enum EmbeddingChoice {
    OpenAi(OpenAiEmbeddingProvider),
    /// The on-device model.
    Local,
}

/// A provider name as it is compared.
pub open spec fn provider_name(raw: Option<Seq<char>>) -> Seq<char> {
    unicode_lowercase(trimmed(or_else(raw, "openai"@)))
}

/// A provider that speaks the chat completions protocol.
pub open spec fn openai_family(name: Seq<char>) -> bool {
    name == ""@ || name == "openai"@ || name == "xai"@ || name == "grok"@ || name == "deepseek"@
        || name == "deepseek-chat"@ || name == "deepseek-flash"@
}

/// The value of a variable, unless it is blank.
pub open spec fn set_value(env: Env, name: Seq<char>) -> Option<Seq<char>> {
    match env.value(name) {
        Some(v) => if blank(v) {
            None
        } else {
            Some(v)
        },
        None => None,
    }
}

fn get_set<'a>(env: &'a Env, name: &str) -> (r: Option<&'a str>)
    ensures
        crate::json::text_view(r) == set_value(*env, name@),
{
    match env.get(name) {
        Some(v) => if is_blank(v) {
            None
        } else {
            Some(v)
        },
        None => None,
    }
}

/// The key of a provider of the family: its own where it is set, else the
/// configured one.
pub open spec fn family_key(name: Seq<char>, env: Env, config: LlmConfig) -> Seq<char> {
    if name == "xai"@ || name == "grok"@ {
        or_else(set_value(env, "XAI_API_KEY"@), config.api_key@)
    } else if begins(name, "deepseek"@) {
        or_else(set_value(env, "DEEPSEEK_API_KEY"@), config.api_key@)
    } else {
        config.api_key@
    }
}

/// The base URL of a provider of the family.
pub open spec fn family_url(name: Seq<char>, env: Env, config: LlmConfig) -> Seq<char> {
    if begins(name, "deepseek"@) && name != "xai"@ && name != "grok"@ {
        match set_value(env, "DEEPSEEK_BASE_URL"@) {
            Some(url) => trimmed(url),
            None => config.base_url@,
        }
    } else {
        config.base_url@
    }
}

/// `r` is the chat provider that a name asks for.
pub open spec fn chat_choice_is(
    name: Seq<char>,
    env: Env,
    config: LlmConfig,
    r: Result<ChatProvider, String>,
) -> bool {
    if openai_family(name) {
        r matches Ok(ChatProvider::OpenAi(p)) && p.model@ == config.model@ && p.api_key@
            == family_key(name, env, config) && p.base_url@ == without_trailing(
            family_url(name, env, config),
            '/',
        )
    } else if name == "anthropic"@ {
        r matches Ok(ChatProvider::Anthropic(p)) && p.inner.model@ == config.model@
            && p.inner.api_key@ == or_else(set_value(env, "ANTHROPIC_API_KEY"@), config.api_key@)
            && p.inner.base_url@ == ANTHROPIC_DEFAULT_BASE_URL@
    } else if name == "ollama"@ {
        r matches Ok(ChatProvider::Ollama(p)) && p.inner.model@ == config.model@
            && p.inner.api_key@.len() == 0 && p.inner.base_url@ == OLLAMA_DEFAULT_BASE_URL@
    } else {
        r matches Err(e) && e@ == "unknown LLM_PROVIDER="@ + quoted(name)
            + " (expected openai|xai|anthropic|ollama)"@
    }
}

/// The chat provider of a name that is trimmed and in lower case.
pub fn choose_chat_provider(name: &str, env: &Env, config: &LlmConfig) -> (r: Result<
    ChatProvider,
    String,
>)
    ensures
        chat_choice_is(name@, *env, *config, r),
{
    if same(name, "") || same(name, "openai") || same(name, "xai") || same(name, "grok") || same(
        name,
        "deepseek",
    ) || same(name, "deepseek-chat") || same(name, "deepseek-flash") {
        let mut api_key = config.api_key.clone();
        let mut base_url = config.base_url.clone();
        if same(name, "xai") || same(name, "grok") {
            if let Some(key) = get_set(env, "XAI_API_KEY") {
                api_key = key.to_owned();
            }
        } else if starts_with(name, "deepseek") {
            if let Some(key) = get_set(env, "DEEPSEEK_API_KEY") {
                api_key = key.to_owned();
            }
            if let Some(url) = get_set(env, "DEEPSEEK_BASE_URL") {
                base_url = trim(url).to_owned();
            }
        }
        Ok(
            ChatProvider::OpenAi(
                OpenAiCompatibleProvider::new(
                    config.model.as_str(),
                    base_url.as_str(),
                    api_key.as_str(),
                ),
            ),
        )
    } else if same(name, "anthropic") {
        let mut own = config.copy();
        if let Some(key) = get_set(env, "ANTHROPIC_API_KEY") {
            own.api_key = key.to_owned();
        }
        Ok(ChatProvider::Anthropic(AnthropicProvider::from_config(&own)))
    } else if same(name, "ollama") {
        Ok(ChatProvider::Ollama(OllamaProvider::from_config(config)))
    } else {
        let shown = quote(name);
        Err(
            "unknown LLM_PROVIDER=".to_owned().concat(shown.as_str()).concat(
                " (expected openai|xai|anthropic|ollama)",
            ),
        )
    }
}

/// The chat provider that `LLM_PROVIDER` asks for.
pub fn build_chat_provider(env: &Env, config: &LlmConfig) -> (r: Result<ChatProvider, String>)
    ensures
        chat_choice_is(provider_name(env.value("LLM_PROVIDER"@)), *env, *config, r),
{
    let raw = env.get_or("LLM_PROVIDER", "openai");
    let name = to_unicode_lower(trim(raw.as_str()));
    choose_chat_provider(name.as_str(), env, config)
}

/// `r` is the embedding provider that a name asks for.
pub open spec fn embedding_choice_is(
    name: Seq<char>,
    config: LlmConfig,
    r: Result<EmbeddingChoice, String>,
) -> bool {
    if name == ""@ || name == "openai"@ {
        r matches Ok(EmbeddingChoice::OpenAi(p)) && p.model@ == config.embedding_model@
            && p.api_key@ == config.api_key@ && p.base_url@ == without_trailing(
            config.embedding_base_url@,
            '/',
        )
    } else if name == "local"@ {
        r matches Ok(EmbeddingChoice::Local)
    } else {
        r matches Err(e) && e@ == "unknown EMBEDDING_PROVIDER="@ + quoted(name)
            + " (expected openai|local)"@
    }
}

/// The embedding provider of a name that is trimmed and in lower case.
pub fn choose_embedding_provider(name: &str, config: &LlmConfig) -> (r: Result<
    EmbeddingChoice,
    String,
>)
    ensures
        embedding_choice_is(name@, *config, r),
{
    if same(name, "") || same(name, "openai") {
        Ok(EmbeddingChoice::OpenAi(OpenAiEmbeddingProvider::from_config(config)))
    } else if same(name, "local") {
        Ok(EmbeddingChoice::Local)
    } else {
        let shown = quote(name);
        Err(
            "unknown EMBEDDING_PROVIDER=".to_owned().concat(shown.as_str()).concat(
                " (expected openai|local)",
            ),
        )
    }
}

/// The embedding provider that `EMBEDDING_PROVIDER` asks for.
pub fn build_embedding_provider(env: &Env, config: &LlmConfig) -> (r: Result<
    EmbeddingChoice,
    String,
>)
    ensures
        embedding_choice_is(provider_name(env.value("EMBEDDING_PROVIDER"@)), *config, r),
{
    let raw = env.get_or("EMBEDDING_PROVIDER", "openai");
    let name = to_unicode_lower(trim(raw.as_str()));
    choose_embedding_provider(name.as_str(), config)
}

/// A provider speaks with its own key where one is set, and else with the
/// configured one; the model is always the configured one.
pub proof fn providers_use_their_own_key(
    name: Seq<char>,
    env: Env,
    config: LlmConfig,
    r: Result<ChatProvider, String>,
)
    requires
        chat_choice_is(name, env, config, r),
    ensures
        name == "openai"@ ==> (r matches Ok(ChatProvider::OpenAi(p)) && p.api_key@
            == config.api_key@ && p.model@ == config.model@),
        name == "xai"@ || name == "grok"@ ==> (r matches Ok(ChatProvider::OpenAi(p)) && p.model@
            == config.model@ && (env.value("XAI_API_KEY"@) matches Some(k) ==> !blank(k)
            ==> p.api_key@ == k) && (env.value("XAI_API_KEY"@) is None ==> p.api_key@
            == config.api_key@)),
        name == "deepseek"@ ==> (r matches Ok(ChatProvider::OpenAi(p)) && p.model@ == config.model@
            && (env.value("DEEPSEEK_API_KEY"@) matches Some(k) ==> !blank(k) ==> p.api_key@ == k) && (
        env.value("DEEPSEEK_API_KEY"@) is None ==> p.api_key@ == config.api_key@)),
        name == "anthropic"@ ==> (r matches Ok(ChatProvider::Anthropic(p)) && p.inner.model@
            == config.model@ && (env.value("ANTHROPIC_API_KEY"@) matches Some(k) ==> !blank(k)
            ==> p.inner.api_key@ == k) && (env.value("ANTHROPIC_API_KEY"@) is None
            ==> p.inner.api_key@ == config.api_key@)),
        name == "ollama"@ ==> (r matches Ok(ChatProvider::Ollama(p)) && p.inner.model@
            == config.model@ && p.inner.api_key@.len() == 0),
{
    lemma_provider_names();
    let d = "deepseek"@;
    assert(d.take(d.len() as int) =~= d);
    if name == "xai"@ || name == "grok"@ || name == "openai"@ {
        assert(!begins(name, d));
    }
}

proof fn lemma_provider_names()
    ensures
        "openai"@.len() == 6,
        "xai"@.len() == 3,
        "grok"@.len() == 4,
        "deepseek"@.len() == 8,
        "deepseek-chat"@.len() == 13,
        "deepseek-flash"@.len() == 14,
        "anthropic"@.len() == 9,
        "ollama"@.len() == 6,
        "ollama"@ != "openai"@,
        ""@.len() == 0,
        "local"@.len() == 5,
{
    reveal_strlit("openai");
    reveal_strlit("xai");
    reveal_strlit("grok");
    reveal_strlit("deepseek");
    reveal_strlit("deepseek-chat");
    reveal_strlit("deepseek-flash");
    reveal_strlit("anthropic");
    reveal_strlit("ollama");
    reveal_strlit("");
    reveal_strlit("local");
    assert("ollama"@[1] == 'l');
    assert("openai"@[1] == 'p');
}

/// Only the providers of these names are known, and any other name is refused;
/// embeddings come from the address and the model set for them.
pub proof fn unknown_providers_are_refused(
    name: Seq<char>,
    env: Env,
    config: LlmConfig,
    chat: Result<ChatProvider, String>,
    embedding: Result<EmbeddingChoice, String>,
)
    requires
        chat_choice_is(name, env, config, chat),
        embedding_choice_is(name, config, embedding),
    ensures
        chat is Ok <==> seq![
            ""@,
            "openai"@,
            "xai"@,
            "grok"@,
            "deepseek"@,
            "deepseek-chat"@,
            "deepseek-flash"@,
            "anthropic"@,
            "ollama"@,
        ].contains(name),
        embedding is Ok <==> name == ""@ || name == "openai"@ || name == "local"@,
        name == "local"@ ==> embedding == Ok::<EmbeddingChoice, String>(EmbeddingChoice::Local),
        name == "openai"@ ==> (embedding matches Ok(EmbeddingChoice::OpenAi(p)) && p.model@
            == config.embedding_model@ && p.api_key@ == config.api_key@ && p.base_url@
            == without_trailing(config.embedding_base_url@, '/')),
{
    lemma_provider_names();
    let all = seq![
        ""@,
        "openai"@,
        "xai"@,
        "grok"@,
        "deepseek"@,
        "deepseek-chat"@,
        "deepseek-flash"@,
        "anthropic"@,
        "ollama"@,
    ];
    assert(all[0] == ""@ && all[1] == "openai"@ && all[2] == "xai"@ && all[3] == "grok"@);
    assert(all[4] == "deepseek"@ && all[5] == "deepseek-chat"@ && all[6] == "deepseek-flash"@);
    assert(all[7] == "anthropic"@ && all[8] == "ollama"@);
}

/// Only a provider named for it leaves the configured address, and only where its
/// own is set.
pub proof fn addresses_are_the_configured_ones(
    name: Seq<char>,
    env: Env,
    config: LlmConfig,
    r: Result<ChatProvider, String>,
)
    requires
        chat_choice_is(name, env, config, r),
    ensures
        name == "openai"@ || name == "xai"@ || name == "grok"@ ==> (r matches Ok(
            ChatProvider::OpenAi(p),
        ) && p.base_url@ == without_trailing(config.base_url@, '/')),
        name == "deepseek"@ && env.value("DEEPSEEK_BASE_URL"@) is None ==> (r matches Ok(
            ChatProvider::OpenAi(p),
        ) && p.base_url@ == without_trailing(config.base_url@, '/')),
        name == "deepseek"@ ==> (env.value("DEEPSEEK_BASE_URL"@) matches Some(u) ==> !blank(u) ==> (
        r matches Ok(ChatProvider::OpenAi(p)) && p.base_url@ == without_trailing(
            trimmed(u),
            '/',
        ))),
        name == "anthropic"@ ==> (r matches Ok(ChatProvider::Anthropic(p)) && p.inner.base_url@
            == "https://api.anthropic.com/v1"@),
        name == "ollama"@ ==> (r matches Ok(ChatProvider::Ollama(p)) && p.inner.base_url@
            == "http://localhost:11434/v1"@),
{
    lemma_provider_names();
    let d = "deepseek"@;
    assert(d.take(d.len() as int) =~= d);
    if name == "xai"@ || name == "grok"@ || name == "openai"@ {
        assert(!begins(name, d));
    }
}

} // verus!
