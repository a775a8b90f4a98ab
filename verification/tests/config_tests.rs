use llm_inference::config::{
    default_device, default_host, default_log_level, default_max_concurrent,
    default_max_prompt_length, default_max_response_tokens, default_max_sessions, default_port,
    default_rate_limit, default_session_ttl, default_true, ApiKeyConfig, Config, ConfigError,
};

#[test]
fn config_test_default_config() {
    let config = Config::default();
    assert_eq!(config.server.port, 3000);
    assert!(!config.security.enable_auth);
    assert!(config.validate().is_ok());
}

#[test]
fn test_config_validation() {
    let mut config = Config::default();
    config.security.enable_auth = true;
    assert!(config.validate().is_err());
}

#[test]
fn config_tests_test_default_config() {
    let config = Config::default();
    assert_eq!(config.server.port, 3000);
    assert_eq!(config.server.host, "127.0.0.1");
    assert!(!config.security.enable_auth);
    assert!(config.observability.enable_metrics);
}

#[test]
fn test_config_validation_success() {
    let config = Config::default();
    assert!(config.validate().is_ok());
}

#[test]
fn test_config_validation_auth_without_keys() {
    let mut config = Config::default();
    config.security.enable_auth = true;
    assert!(config.validate().is_err());
}

#[test]
fn test_config_validation_zero_port() {
    let mut config = Config::default();
    config.server.port = 0;
    assert!(config.validate().is_err());
}

#[test]
fn test_config_validation_no_models() {
    let mut config = Config::default();
    config.models.available_models.clear();
    assert!(config.validate().is_err());
}

#[test]
fn test_config_with_api_keys() {
    let mut config = Config::default();
    config.security.enable_auth = true;
    config.security.api_keys.push(ApiKeyConfig {
        key: "test-key".to_string(),
        name: "test".to_string(),
        rate_limit_per_minute: Some(100),
        enabled: true,
    });
    assert!(config.validate().is_ok());
}

#[test]
fn test_config_model_config() {
    let config = Config::default();
    assert_eq!(config.models.available_models.len(), 2);
    assert_eq!(config.models.default_device, "cuda");
}

#[test]
fn test_config_limits() {
    let config = Config::default();
    assert_eq!(config.limits.max_prompt_length, 8192);
    assert_eq!(config.limits.max_response_tokens, 2048);
    assert_eq!(config.limits.max_sessions, 1000);
}

#[test]
fn default_config_lists_the_stock_models() {
    let config = Config::default();
    let models = &config.models.available_models;
    assert_eq!(models[0].id, "qwen");
    assert_eq!(models[0].name, "Qwen/Qwen2.5-0.5B-Instruct");
    assert_eq!(models[0].context_length, Some(4096));
    assert!(models[0].path.is_none());
    assert!(models[0].quantization.is_none());
    assert_eq!(models[1].id, "phi");
    assert_eq!(models[1].name, "microsoft/Phi-3.5-mini-instruct");
    assert_eq!(models[1].context_length, Some(4096));
    assert!(config.models.model_dir.is_none());
    assert_eq!(config.models.max_concurrent_requests, 10);
    assert_eq!(config.server.log_level, "info");
    assert_eq!(config.security.allowed_origins, vec!["*".to_string()]);
    assert!(config.security.api_keys.is_empty());
    assert_eq!(config.limits.session_ttl_seconds, 3600);
    assert_eq!(config.limits.default_rate_limit_per_minute, 60);
    assert!(config.observability.enable_tracing);
    assert_eq!(config.observability.metrics_path, "/metrics");
}

#[test]
fn default_values_one_by_one() {
    assert_eq!(default_host(), "127.0.0.1");
    assert_eq!(default_port(), 3000);
    assert_eq!(default_log_level(), "info");
    assert_eq!(default_device(), "cuda");
    assert_eq!(default_max_concurrent(), 10);
    assert_eq!(default_max_prompt_length(), 8192);
    assert_eq!(default_max_response_tokens(), 2048);
    assert_eq!(default_max_sessions(), 1000);
    assert_eq!(default_session_ttl(), 3600);
    assert_eq!(default_rate_limit(), 60);
    assert!(default_true());
}

#[test]
fn validation_names_the_first_fault() {
    let mut config = Config::default();
    config.server.port = 0;
    config.models.available_models.clear();
    config.security.enable_auth = true;
    assert_eq!(config.validate(), Err(ConfigError::ZeroPort));
    config.server.port = 8080;
    assert_eq!(config.validate(), Err(ConfigError::NoModels));
    let stock = Config::default();
    config.models.available_models = stock.models.available_models;
    assert_eq!(config.validate(), Err(ConfigError::AuthWithoutKeys));
    config.security.enable_auth = false;
    assert_eq!(config.validate(), Ok(()));
}

#[test]
fn config_error_messages() {
    assert_eq!(ConfigError::ZeroPort.message(), "Server port cannot be 0");
    assert_eq!(ConfigError::NoModels.message(), "At least one model must be configured");
    assert_eq!(
        ConfigError::AuthWithoutKeys.message(),
        "Authentication enabled but no API keys configured"
    );
}

#[test]
fn load_keeps_a_valid_configuration() {
    let mut read = Config::default();
    read.server.port = 8080;
    read.limits.max_sessions = 7;
    let config = Config::load(Some(read));
    assert_eq!(config.server.port, 8080);
    assert_eq!(config.limits.max_sessions, 7);
}

#[test]
fn load_falls_back_to_the_default() {
    let mut read = Config::default();
    read.server.port = 0;
    read.limits.max_sessions = 7;
    let config = Config::load(Some(read));
    assert_eq!(config.server.port, 3000);
    assert_eq!(config.limits.max_sessions, 1000);
    let none = Config::load(None);
    assert_eq!(none.server.port, 3000);
    assert!(none.validate().is_ok());
}

#[test]
fn cloning_a_configuration_keeps_everything() {
    let mut config = Config::default();
    config.security.api_keys.push(ApiKeyConfig {
        key: "k".to_string(),
        name: "n".to_string(),
        rate_limit_per_minute: None,
        enabled: false,
    });
    config.models.available_models[0].path = Some("models/qwen".to_string());
    let copy = config.clone();
    assert_eq!(copy.server.host, config.server.host);
    assert_eq!(copy.models.available_models.len(), 2);
    assert_eq!(copy.models.available_models[0].path, Some("models/qwen".to_string()));
    assert_eq!(copy.models.available_models[1].name, "microsoft/Phi-3.5-mini-instruct");
    assert_eq!(copy.security.api_keys.len(), 1);
    assert_eq!(copy.security.api_keys[0].key, "k");
    assert_eq!(copy.security.allowed_origins, config.security.allowed_origins);
    assert_eq!(copy.limits.max_prompt_length, 8192);
    assert_eq!(copy.observability.metrics_path, "/metrics");
}
