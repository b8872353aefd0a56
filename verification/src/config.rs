//! What the configuration says of providers.

use crate::arguments::{default_cli_model, default_cli_model_name, Args};
use crate::backends::{
    anthropic_with, cli_with, compatible_with, gemini_with, ollama_with, AnthropicProvider,
    Backend, BackendView, ClaudeCliProvider, GeminiProvider, OllamaProvider, OpenAiCompatProvider,
};
use crate::copied::opt_view;
use crate::milestones::copied_texts;
use crate::paths::{join_path, path_join};
use crate::text::{opt, texts};
use vstd::prelude::*;


verus! {

/// How a provider is spoken to.
#[derive(Debug, Clone, Copy, PartialEq, Eq, Structural)]
pub enum ProviderKind {
    Anthropic,
    OpenaiCompat,
    Ollama,
    ClaudeCli,
    Gemini,
}

/// What the configuration says of one provider.
#[derive(Debug)]
pub struct ProviderConfig {
    pub name: String,
    pub kind: ProviderKind,
    /// The variable of the environment that holds the key.
    pub api_key_env: Option<String>,
    pub base_url: Option<String>,
    pub models: Vec<String>,
}

/// A text, or nothing.
pub open spec fn or_empty(o: Option<Seq<char>>) -> Seq<char> {
    match o {
        Some(s) => s,
        None => Seq::empty(),
    }
}

fn or_nothing(o: Option<String>) -> (r: String)
    ensures
        r@ == or_empty(opt(o)),
{
    match o {
        Some(s) => s,
        None => {
            let none = String::new();
            assert(none@ =~= Seq::<char>::empty());
            none
        },
    }
}

/// The provider that the configuration speaks of, given the name of the family and the key that its variable holds.
pub open spec fn configured(
    family: Seq<char>,
    pc: ProviderConfig,
    api_key: Option<Seq<char>>,
) -> BackendView {
    let key = or_empty(api_key);
    let base_url = or_empty(opt_view(pc.base_url));
    let models = texts(pc.models@);
    match pc.kind {
        ProviderKind::Anthropic => anthropic_with(family, key, models),
        ProviderKind::OpenaiCompat => compatible_with(pc.name@, base_url, key, models),
        ProviderKind::Ollama => ollama_with(base_url, models),
        ProviderKind::ClaudeCli => cli_with(
            family,
            if models.len() > 0 {
                models[0]
            } else {
                default_cli_model(family)
            },
        ),
        ProviderKind::Gemini => gemini_with(key, models),
    }
}

impl ProviderConfig {
    /// The provider that this speaks of, given the name of the family and the key that its variable holds.
    pub fn backend(&self, family: &str, api_key: Option<String>) -> (r: Backend)
        ensures
            r@ == configured(family@, *self, opt_view(api_key)),
    {
        let key = or_nothing(api_key);
        let base_url = or_nothing(
            match &self.base_url {
                Some(url) => Some(url.clone()),
                None => None,
            },
        );
        let models = copied_texts(self.models.as_slice());
        match self.kind {
            ProviderKind::Anthropic => Backend::Anthropic(
                AnthropicProvider::new(family.to_owned(), key, models),
            ),
            ProviderKind::OpenaiCompat => Backend::OpenAiCompat(
                OpenAiCompatProvider::new(self.name.clone(), base_url, key, models),
            ),
            ProviderKind::Ollama => Backend::Ollama(OllamaProvider::new(base_url, models)),
            ProviderKind::ClaudeCli => {
                let model = if self.models.len() > 0 {
                    self.models[0].clone()
                } else {
                    default_cli_model_name(family)
                };
                Backend::ClaudeCli(ClaudeCliProvider::new(family.to_owned(), model))
            },
            ProviderKind::Gemini => Backend::Gemini(GeminiProvider::new(key, models)),
        }
    }
}

/// Where the configuration is, by the environment: `config_home` for `XDG_CONFIG_HOME`.
pub open spec fn config_file(config_home: Option<Seq<char>>, home: Option<Seq<char>>) -> Seq<
    char,
> {
    let dir = match config_home {
        Some(dir) => dir,
        None => path_join(
            match home {
                Some(dir) => dir,
                None => "."@,
            },
            ".config"@,
        ),
    };
    path_join(path_join(dir, "rewriter"@), "config.toml"@)
}

/// Where the configuration is, by the environment.
pub fn default_config_path(config_home: Option<String>, home: Option<String>) -> (r: String)
    ensures
        r@ == config_file(opt_view(config_home), opt_view(home)),
{
    let dir = match config_home {
        Some(dir) => dir,
        None => {
            let base = match home {
                Some(dir) => dir,
                None => ".".to_owned(),
            };
            join_path(base.as_str(), ".config")
        },
    };
    join_path(join_path(dir.as_str(), "rewriter").as_str(), "config.toml")
}

/// The keys that the environment holds.
#[derive(Debug)]
pub struct Keys {
    /// `ANTHROPIC_API_KEY`
    pub anthropic: Option<String>,
    /// `GROQ_API_KEY`
    pub groq: Option<String>,
    /// `OPENAI_API_KEY`
    pub openai: Option<String>,
}

pub const NO_PROVIDER: &'static str =
    "error: set at least one of ANTHROPIC_API_KEY, GROQ_API_KEY, OPENAI_API_KEY, GEMINI_API_KEY, or configure [[providers]] in ~/.config/rewriter/config.toml";

/// Whether there is any provider to ask: a key, a local model, or a configured provider.
pub fn any_provider(keys: &Keys, args: &Args, configured: usize) -> (r: bool)
    ensures
        r == (keys.anthropic is Some || keys.groq is Some || keys.openai is Some
            || args.local_model is Some || args.gemini_key is Some || configured > 0),
{
    keys.anthropic.is_some() || keys.groq.is_some() || keys.openai.is_some()
        || args.local_model.is_some() || args.gemini_key.is_some() || configured > 0
}

} // verus!
