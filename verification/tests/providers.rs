use braincells::providers::{
    cloud_provider, create_provider, ollama_model, ollama_prompt, CloudCredentials,
    DEFAULT_MAX_TOKENS, DEFAULT_OLLAMA_PORT, DEFAULT_TEMPERATURE_HUNDREDTHS, LocalLLMConfig,
    LocalRuntime, Provider, ProviderConfig, ProviderError, ProviderStatus, ProviderType,
};

fn credentials() -> CloudCredentials {
    CloudCredentials {
        api_key: "SECRET-REDACTED".to_string(),
        base_url: "https://api.example.com/v1".to_string(),
        model_name: "model".to_string(),
    }
}

fn config(
    provider_type: ProviderType,
    credentials: Option<CloudCredentials>,
    local_config: Option<LocalLLMConfig>,
) -> ProviderConfig {
    ProviderConfig {
        id: "p".to_string(),
        name: "Provider".to_string(),
        provider_type,
        credentials,
        local_config,
        is_default: false,
    }
}

#[test]
fn cloud_kinds_need_credentials() {
    let kinds = [
        (ProviderType::CloudOpenAI, "Missing credentials for OpenAI"),
        (ProviderType::CloudAnthropic, "Missing credentials for Anthropic"),
        (ProviderType::CloudCustom, "Missing credentials for Custom provider"),
    ];
    for (kind, message) in kinds {
        let provider = create_provider(&config(kind, Some(credentials()), None)).unwrap();
        assert_eq!(provider.provider_type(), kind);
        let error = create_provider(&config(kind, None, Some(LocalLLMConfig::ollama(None, None))))
            .unwrap_err();
        assert_eq!(error, ProviderError::MissingCredentials(kind));
        assert_eq!(error.message(), message);
    }
    assert_eq!(
        create_provider(&config(ProviderType::CloudAnthropic, Some(credentials()), None)),
        Ok(Provider::Anthropic(credentials()))
    );
}

#[test]
fn ollama_needs_a_local_configuration() {
    let local = LocalLLMConfig::ollama(Some(8080), Some(false));
    assert_eq!(
        create_provider(&config(ProviderType::LocalOllama, None, Some(local.clone()))),
        Ok(Provider::Ollama(local))
    );
    let error = create_provider(&config(ProviderType::LocalOllama, Some(credentials()), None))
        .unwrap_err();
    assert_eq!(error, ProviderError::MissingLocalConfig);
    assert_eq!(error.message(), "Missing local config for Ollama");
}

#[test]
fn vllm_has_no_provider() {
    let error = create_provider(&config(
        ProviderType::LocalVLLM,
        Some(credentials()),
        Some(LocalLLMConfig::ollama(None, None)),
    ))
    .unwrap_err();
    assert_eq!(error, ProviderError::NotImplemented);
    assert_eq!(error.message(), "vLLM provider not yet implemented");
}

#[test]
fn only_cloud_kinds_make_cloud_providers() {
    assert_eq!(
        cloud_provider(ProviderType::CloudOpenAI, credentials()),
        Ok(Provider::OpenAI(credentials()))
    );
    assert_eq!(
        cloud_provider(ProviderType::CloudCustom, credentials()),
        Ok(Provider::Custom(credentials()))
    );
    for kind in [ProviderType::LocalOllama, ProviderType::LocalVLLM] {
        let error = cloud_provider(kind, credentials()).unwrap_err();
        assert_eq!(error, ProviderError::NotCloud);
        assert_eq!(error.message(), "Invalid cloud provider type");
    }
}

#[test]
fn ollama_defaults() {
    assert_eq!(
        LocalLLMConfig::ollama(None, None),
        LocalLLMConfig {
            runtime: LocalRuntime::Ollama,
            model_path: None,
            port: 11434,
            gpu_enabled: true
        }
    );
    assert_eq!(DEFAULT_OLLAMA_PORT, 11434);
    assert_eq!(LocalLLMConfig::ollama(Some(1), Some(false)).port, 1);
    assert!(!LocalLLMConfig::ollama(Some(1), Some(false)).gpu_enabled);
}

fn status(available: bool, running: bool, message: &str, version: Option<&str>) -> ProviderStatus {
    ProviderStatus {
        is_available: available,
        is_running: running,
        message: message.to_string(),
        version: version.map(String::from),
    }
}

#[test]
fn a_provider_that_answers_is_available_and_running() {
    let local = LocalLLMConfig::ollama(None, None);
    assert_eq!(
        Provider::OpenAI(credentials()).status(true, false),
        status(true, true, "OpenAI API is accessible", Some("v1"))
    );
    assert_eq!(
        Provider::Anthropic(credentials()).status(true, false),
        status(true, true, "Anthropic API is accessible", Some("2023-06-01"))
    );
    assert_eq!(
        Provider::Custom(credentials()).status(true, true),
        status(true, true, "Custom endpoint https://api.example.com/v1 is accessible", Some("custom"))
    );
    assert_eq!(
        Provider::Ollama(local).status(true, false),
        status(true, true, "Ollama is running", Some("latest"))
    );
}

#[test]
fn a_provider_that_does_not_answer_is_not_running() {
    let local = LocalLLMConfig::ollama(None, None);
    assert_eq!(
        Provider::OpenAI(credentials()).status(false, true),
        status(false, false, "Cannot connect to OpenAI API", None)
    );
    assert_eq!(
        Provider::Anthropic(credentials()).status(false, true),
        status(false, false, "Cannot connect to Anthropic API", None)
    );
    assert_eq!(
        Provider::Custom(credentials()).status(false, true),
        status(false, false, "Cannot connect to https://api.example.com/v1", None)
    );
    assert_eq!(
        Provider::Ollama(local.clone()).status(false, true),
        status(true, false, "Ollama is not running", None)
    );
    assert_eq!(
        Provider::Ollama(local).status(false, false),
        status(false, false, "Ollama is not running", None)
    );
}

#[test]
fn ollama_prompts_and_models() {
    assert_eq!(ollama_prompt("Hello", &None), "Hello");
    assert_eq!(
        ollama_prompt("Hello", &Some("Be brief.".to_string())),
        "Be brief.\n\nUser: Hello"
    );
    let mut local = LocalLLMConfig::ollama(None, None);
    assert_eq!(ollama_model(&local), "llama3.3");
    local.model_path = Some("mistral".to_string());
    assert_eq!(ollama_model(&local), "mistral");
    assert_eq!((DEFAULT_MAX_TOKENS, DEFAULT_TEMPERATURE_HUNDREDTHS), (1000, 70));
}
