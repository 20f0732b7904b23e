//! Provider configurations and the requests and responses of the
//! generation capability. The providers themselves, which talk to a
//! service over the network, live outside the library.

use crate::text::clone_opt;
use vstd::prelude::*;
use vstd::string::StringExecFns;

verus! {

/// The kinds of provider.
#[derive(Clone, Copy, Debug, PartialEq, Eq, Structural, Hash)]
pub enum ProviderType {
    CloudOpenAI,
    CloudAnthropic,
    CloudCustom,
    LocalOllama,
    LocalVLLM,
}

/// What a cloud provider needs to be reached.
#[derive(Debug, PartialEq, Eq)]
pub struct CloudCredentials {
    pub api_key: String,
    pub base_url: String,
    pub model_name: String,
}

impl Clone for CloudCredentials {
    fn clone(&self) -> (copy: Self)
        ensures
            copy == *self,
    {
        CloudCredentials {
            api_key: self.api_key.clone(),
            base_url: self.base_url.clone(),
            model_name: self.model_name.clone(),
        }
    }
}

/// The runtimes that serve a model on this machine.
#[derive(Clone, Copy, Debug, PartialEq, Eq, Structural, Hash)]
pub enum LocalRuntime {
    Ollama,
    VLLM,
}

/// How a local runtime is set up.
#[derive(Debug, PartialEq, Eq)]
pub struct LocalLLMConfig {
    pub runtime: LocalRuntime,
    pub model_path: Option<String>,
    pub port: u16,
    pub gpu_enabled: bool,
}

impl Clone for LocalLLMConfig {
    fn clone(&self) -> (copy: Self)
        ensures
            copy == *self,
    {
        LocalLLMConfig {
            runtime: self.runtime,
            model_path: clone_opt(&self.model_path),
            port: self.port,
            gpu_enabled: self.gpu_enabled,
        }
    }
}

/// The port on which Ollama listens unless told otherwise.
pub const DEFAULT_OLLAMA_PORT: u16 = 11434;

impl LocalLLMConfig {
    /// The configuration of an Ollama runtime with no model chosen: on the
    /// given port, or the default port, with the GPU in use unless
    /// `gpu_enabled` says otherwise.
    pub fn ollama(port: Option<u16>, gpu_enabled: Option<bool>) -> (config: LocalLLMConfig)
        ensures
            config == (LocalLLMConfig {
                runtime: LocalRuntime::Ollama,
                model_path: None,
                port: match port {
                    Some(p) => p,
                    None => DEFAULT_OLLAMA_PORT,
                },
                gpu_enabled: match gpu_enabled {
                    Some(g) => g,
                    None => true,
                },
            }),
    {
        LocalLLMConfig {
            runtime: LocalRuntime::Ollama,
            model_path: None,
            port: match port {
                Some(p) => p,
                None => DEFAULT_OLLAMA_PORT,
            },
            gpu_enabled: match gpu_enabled {
                Some(g) => g,
                None => true,
            },
        }
    }
}

/// A provider as the user configured it.
#[derive(Debug, PartialEq, Eq)]
pub struct ProviderConfig {
    pub id: String,
    pub name: String,
    pub provider_type: ProviderType,
    pub credentials: Option<CloudCredentials>,
    pub local_config: Option<LocalLLMConfig>,
    pub is_default: bool,
}

/// A request to generate text. The temperature is held in hundredths, so
/// that `70` asks for 0.7.
#[derive(Debug, PartialEq, Eq)]
pub struct GenerateRequest {
    pub prompt: String,
    pub max_tokens: Option<u32>,
    pub temperature_hundredths: Option<u32>,
    pub system_message: Option<String>,
}

/// A generate request as contracts see it.
pub struct GenerateRequestView {
    pub prompt: Seq<char>,
    pub max_tokens: Option<u32>,
    pub temperature_hundredths: Option<u32>,
    pub system_message: Option<Seq<char>>,
}

impl View for GenerateRequest {
    type V = GenerateRequestView;

    open spec fn view(&self) -> GenerateRequestView {
        GenerateRequestView {
            prompt: self.prompt@,
            max_tokens: self.max_tokens,
            temperature_hundredths: self.temperature_hundredths,
            system_message: self.system_message.deep_view(),
        }
    }
}

impl Clone for GenerateRequest {
    fn clone(&self) -> (copy: Self)
        ensures
            copy == *self,
    {
        GenerateRequest {
            prompt: self.prompt.clone(),
            max_tokens: self.max_tokens,
            temperature_hundredths: self.temperature_hundredths,
            system_message: clone_opt(&self.system_message),
        }
    }
}

/// The most tokens that a provider is asked for where a request names none.
pub const DEFAULT_MAX_TOKENS: u32 = 1000;

/// The temperature, in hundredths, that a provider is asked for where a
/// request names none.
pub const DEFAULT_TEMPERATURE_HUNDREDTHS: u32 = 70;

/// The prompt that Ollama is given: the prompt itself, behind the system
/// message where there is one.
pub open spec fn ollama_prompt_text(prompt: Seq<char>, system_message: Option<Seq<char>>) -> Seq<
    char,
> {
    match system_message {
        Some(system) => system + "\n\nUser: "@ + prompt,
        None => prompt,
    }
}

/// The prompt that Ollama is given for `prompt` under `system_message`.
pub fn ollama_prompt(prompt: &str, system_message: &Option<String>) -> (text: String)
    ensures
        text@ == ollama_prompt_text(prompt@, system_message.deep_view()),
{
    match system_message {
        Some(system) => {
            let mut text = system.clone();
            text.append("\n\nUser: ");
            text.append(prompt);
            text
        },
        None => String::from_str(prompt),
    }
}

/// The model that Ollama runs where the configuration names none.
pub open spec fn default_ollama_model() -> Seq<char> {
    "llama3.3"@
}

/// The model that Ollama runs for `config`: the configured one, or the
/// default.
pub fn ollama_model(config: &LocalLLMConfig) -> (model: String)
    ensures
        model@ == (match config.model_path {
            Some(path) => path@,
            None => default_ollama_model(),
        }),
{
    match &config.model_path {
        Some(path) => path.clone(),
        None => String::from_str("llama3.3"),
    }
}

/// What a provider generated.
#[derive(Debug, PartialEq, Eq)]
pub struct GenerateResponse {
    pub text: String,
    pub model: String,
    pub finish_reason: Option<String>,
    pub tokens_used: Option<u32>,
}

/// Whether a provider can be used, and how it answers.
#[derive(Debug, PartialEq, Eq)]
pub struct ProviderStatus {
    pub is_available: bool,
    pub is_running: bool,
    pub message: String,
    pub version: Option<String>,
}

/// A provider status as contracts see it.
pub struct ProviderStatusView {
    pub is_available: bool,
    pub is_running: bool,
    pub message: Seq<char>,
    pub version: Option<Seq<char>>,
}

impl View for ProviderStatus {
    type V = ProviderStatusView;

    open spec fn view(&self) -> ProviderStatusView {
        ProviderStatusView {
            is_available: self.is_available,
            is_running: self.is_running,
            message: self.message@,
            version: self.version.deep_view(),
        }
    }
}

/// The provider that a configuration selects, with what it needs to run.
#[derive(Debug, PartialEq, Eq)]
pub enum Provider {
    OpenAI(CloudCredentials),
    Anthropic(CloudCredentials),
    Custom(CloudCredentials),
    Ollama(LocalLLMConfig),
}

impl Provider {
    /// The kind of the provider.
    pub fn provider_type(&self) -> (kind: ProviderType)
        ensures
            kind == (match *self {
                Provider::OpenAI(_) => ProviderType::CloudOpenAI,
                Provider::Anthropic(_) => ProviderType::CloudAnthropic,
                Provider::Custom(_) => ProviderType::CloudCustom,
                Provider::Ollama(_) => ProviderType::LocalOllama,
            }),
    {
        match self {
            Provider::OpenAI(_) => ProviderType::CloudOpenAI,
            Provider::Anthropic(_) => ProviderType::CloudAnthropic,
            Provider::Custom(_) => ProviderType::CloudCustom,
            Provider::Ollama(_) => ProviderType::LocalOllama,
        }
    }
}

/// The status of `provider`, given whether its service answered and, for
/// a local runtime, whether it is installed.
pub open spec fn status_of(provider: Provider, reachable: bool, installed: bool) -> ProviderStatusView {
    if reachable {
        ProviderStatusView {
            is_available: true,
            is_running: true,
            message: match provider {
                Provider::OpenAI(_) => "OpenAI API is accessible"@,
                Provider::Anthropic(_) => "Anthropic API is accessible"@,
                Provider::Custom(credentials) => "Custom endpoint "@ + credentials.base_url@
                    + " is accessible"@,
                Provider::Ollama(_) => "Ollama is running"@,
            },
            version: Some(
                match provider {
                    Provider::OpenAI(_) => "v1"@,
                    Provider::Anthropic(_) => "2023-06-01"@,
                    Provider::Custom(_) => "custom"@,
                    Provider::Ollama(_) => "latest"@,
                },
            ),
        }
    } else {
        ProviderStatusView {
            is_available: provider is Ollama && installed,
            is_running: false,
            message: match provider {
                Provider::OpenAI(_) => "Cannot connect to OpenAI API"@,
                Provider::Anthropic(_) => "Cannot connect to Anthropic API"@,
                Provider::Custom(credentials) => "Cannot connect to "@ + credentials.base_url@,
                Provider::Ollama(_) => "Ollama is not running"@,
            },
            version: None,
        }
    }
}

impl Provider {
    /// The status that the provider reports. `reachable` says whether its
    /// service answered; `installed`, whether the local runtime is
    /// installed, which counts for Ollama alone: a cloud provider that does
    /// not answer is not available, Ollama is available while installed.
    pub fn status(&self, reachable: bool, installed: bool) -> (status: ProviderStatus)
        ensures
            status@ == status_of(*self, reachable, installed),
    {
        if reachable {
            match self {
                Provider::OpenAI(_) => ProviderStatus {
                    is_available: true,
                    is_running: true,
                    message: String::from_str("OpenAI API is accessible"),
                    version: Some(String::from_str("v1")),
                },
                Provider::Anthropic(_) => ProviderStatus {
                    is_available: true,
                    is_running: true,
                    message: String::from_str("Anthropic API is accessible"),
                    version: Some(String::from_str("2023-06-01")),
                },
                Provider::Custom(credentials) => {
                    let mut message = String::from_str("Custom endpoint ");
                    message.append(credentials.base_url.as_str());
                    message.append(" is accessible");
                    ProviderStatus {
                        is_available: true,
                        is_running: true,
                        message,
                        version: Some(String::from_str("custom")),
                    }
                },
                Provider::Ollama(_) => ProviderStatus {
                    is_available: true,
                    is_running: true,
                    message: String::from_str("Ollama is running"),
                    version: Some(String::from_str("latest")),
                },
            }
        } else {
            match self {
                Provider::OpenAI(_) => ProviderStatus {
                    is_available: false,
                    is_running: false,
                    message: String::from_str("Cannot connect to OpenAI API"),
                    version: None,
                },
                Provider::Anthropic(_) => ProviderStatus {
                    is_available: false,
                    is_running: false,
                    message: String::from_str("Cannot connect to Anthropic API"),
                    version: None,
                },
                Provider::Custom(credentials) => {
                    let mut message = String::from_str("Cannot connect to ");
                    message.append(credentials.base_url.as_str());
                    ProviderStatus { is_available: false, is_running: false, message, version: None }
                },
                Provider::Ollama(_) => ProviderStatus {
                    is_available: installed,
                    is_running: false,
                    message: String::from_str("Ollama is not running"),
                    version: None,
                },
            }
        }
    }
}

/// Why a configuration selects no provider.
#[derive(Clone, Copy, Debug, PartialEq, Eq, Structural, Hash)]
pub enum ProviderError {
    /// A cloud provider of the given kind was configured without credentials.
    MissingCredentials(ProviderType),
    /// Ollama was configured without a local configuration.
    MissingLocalConfig,
    /// The kind is known and has no provider yet.
    NotImplemented,
    /// The kind is not that of a cloud provider.
    NotCloud,
}

/// The text of `ProviderError::message`.
pub open spec fn provider_error_text(error: ProviderError) -> Seq<char> {
    match error {
        ProviderError::MissingCredentials(ProviderType::CloudOpenAI) => "Missing credentials for OpenAI"@,
        ProviderError::MissingCredentials(ProviderType::CloudAnthropic) => "Missing credentials for Anthropic"@,
        ProviderError::MissingCredentials(_) => "Missing credentials for Custom provider"@,
        ProviderError::MissingLocalConfig => "Missing local config for Ollama"@,
        ProviderError::NotImplemented => "vLLM provider not yet implemented"@,
        ProviderError::NotCloud => "Invalid cloud provider type"@,
    }
}

impl ProviderError {
    /// A description of the error for people.
    pub fn message(&self) -> (text: String)
        ensures
            text@ == provider_error_text(*self),
    {
        match self {
            ProviderError::MissingCredentials(ProviderType::CloudOpenAI) => String::from_str(
                "Missing credentials for OpenAI",
            ),
            ProviderError::MissingCredentials(ProviderType::CloudAnthropic) => String::from_str(
                "Missing credentials for Anthropic",
            ),
            ProviderError::MissingCredentials(_) => String::from_str(
                "Missing credentials for Custom provider",
            ),
            ProviderError::MissingLocalConfig => String::from_str("Missing local config for Ollama"),
            ProviderError::NotImplemented => String::from_str("vLLM provider not yet implemented"),
            ProviderError::NotCloud => String::from_str("Invalid cloud provider type"),
        }
    }
}

/// What `create_provider` makes of a configuration.
pub open spec fn provider_for(config: ProviderConfig) -> Result<Provider, ProviderError> {
    match config.provider_type {
        ProviderType::CloudOpenAI => match config.credentials {
            Some(credentials) => Ok(Provider::OpenAI(credentials)),
            None => Err(ProviderError::MissingCredentials(ProviderType::CloudOpenAI)),
        },
        ProviderType::CloudAnthropic => match config.credentials {
            Some(credentials) => Ok(Provider::Anthropic(credentials)),
            None => Err(ProviderError::MissingCredentials(ProviderType::CloudAnthropic)),
        },
        ProviderType::CloudCustom => match config.credentials {
            Some(credentials) => Ok(Provider::Custom(credentials)),
            None => Err(ProviderError::MissingCredentials(ProviderType::CloudCustom)),
        },
        ProviderType::LocalOllama => match config.local_config {
            Some(local) => Ok(Provider::Ollama(local)),
            None => Err(ProviderError::MissingLocalConfig),
        },
        ProviderType::LocalVLLM => Err(ProviderError::NotImplemented),
    }
}

/// Selects the provider that `config` asks for: a cloud provider with the
/// configured credentials, or Ollama with the configured local setup. Fails
/// where what the kind needs is not configured, and for vLLM, which has no
/// provider.
pub fn create_provider(config: &ProviderConfig) -> (outcome: Result<Provider, ProviderError>)
    ensures
        outcome == provider_for(*config),
{
    match config.provider_type {
        ProviderType::CloudOpenAI => match &config.credentials {
            Some(credentials) => Ok(Provider::OpenAI(credentials.clone())),
            None => Err(ProviderError::MissingCredentials(ProviderType::CloudOpenAI)),
        },
        ProviderType::CloudAnthropic => match &config.credentials {
            Some(credentials) => Ok(Provider::Anthropic(credentials.clone())),
            None => Err(ProviderError::MissingCredentials(ProviderType::CloudAnthropic)),
        },
        ProviderType::CloudCustom => match &config.credentials {
            Some(credentials) => Ok(Provider::Custom(credentials.clone())),
            None => Err(ProviderError::MissingCredentials(ProviderType::CloudCustom)),
        },
        ProviderType::LocalOllama => match &config.local_config {
            Some(local) => Ok(Provider::Ollama(local.clone())),
            None => Err(ProviderError::MissingLocalConfig),
        },
        ProviderType::LocalVLLM => Err(ProviderError::NotImplemented),
    }
}

/// What `cloud_provider` makes of a kind and credentials.
pub open spec fn cloud_provider_for(kind: ProviderType, credentials: CloudCredentials) -> Result<
    Provider,
    ProviderError,
> {
    match kind {
        ProviderType::CloudOpenAI => Ok(Provider::OpenAI(credentials)),
        ProviderType::CloudAnthropic => Ok(Provider::Anthropic(credentials)),
        ProviderType::CloudCustom => Ok(Provider::Custom(credentials)),
        _ => Err(ProviderError::NotCloud),
    }
}

/// The cloud provider of the given kind with the given credentials; fails
/// for a kind that is not a cloud provider's.
pub fn cloud_provider(kind: ProviderType, credentials: CloudCredentials) -> (outcome: Result<
    Provider,
    ProviderError,
>)
    ensures
        outcome == cloud_provider_for(kind, credentials),
{
    match kind {
        ProviderType::CloudOpenAI => Ok(Provider::OpenAI(credentials)),
        ProviderType::CloudAnthropic => Ok(Provider::Anthropic(credentials)),
        ProviderType::CloudCustom => Ok(Provider::Custom(credentials)),
        _ => Err(ProviderError::NotCloud),
    }
}

} // verus!
