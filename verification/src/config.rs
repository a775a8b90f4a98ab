//! Service configuration: its shape, its defaults and what makes it valid.
use vstd::prelude::*;

verus! {

/// Model of a [`ServerConfig`].
pub struct ServerConfigView {
    pub host: Seq<char>,
    pub port: u16,
    pub log_level: Seq<char>,
}

/// Model of a [`ModelConfig`].
pub struct ModelConfigView {
    pub id: Seq<char>,
    pub name: Seq<char>,
    pub path: Option<Seq<char>>,
    pub quantization: Option<Seq<char>>,
    pub context_length: Option<usize>,
}

/// Model of a [`ModelsConfig`].
pub struct ModelsConfigView {
    pub model_dir: Option<Seq<char>>,
    pub available_models: Seq<ModelConfigView>,
    pub default_device: Seq<char>,
    pub max_concurrent_requests: usize,
}

/// Model of an [`ApiKeyConfig`].
pub struct ApiKeyConfigView {
    pub key: Seq<char>,
    pub name: Seq<char>,
    pub rate_limit_per_minute: Option<u32>,
    pub enabled: bool,
}

/// Model of a [`SecurityConfig`].
pub struct SecurityConfigView {
    pub enable_auth: bool,
    pub api_keys: Seq<ApiKeyConfigView>,
    pub allowed_origins: Seq<Seq<char>>,
}

/// Model of an [`ObservabilityConfig`].
pub struct ObservabilityConfigView {
    pub enable_metrics: bool,
    pub enable_tracing: bool,
    pub metrics_path: Seq<char>,
}

/// Model of a [`Config`].
pub struct ConfigView {
    pub server: ServerConfigView,
    pub models: ModelsConfigView,
    pub security: SecurityConfigView,
    pub limits: LimitsConfig,
    pub observability: ObservabilityConfigView,
}

/// Where the server listens and how much it logs.
#[derive(Debug)]
pub struct ServerConfig {
    pub host: String,
    pub port: u16,
    pub log_level: String,
}

/// One configured model: its canonical id, the display name clients may use
/// in its place, and where and how it is loaded.
#[derive(Debug)]
pub struct ModelConfig {
    pub id: String,
    pub name: String,
    pub path: Option<String>,
    pub quantization: Option<String>,
    pub context_length: Option<usize>,
}

/// The models that can be served, and the device they run on by default.
#[derive(Debug)]
pub struct ModelsConfig {
    pub model_dir: Option<String>,
    pub available_models: Vec<ModelConfig>,
    pub default_device: String,
    pub max_concurrent_requests: usize,
}

/// One API key and the request rate it is allowed.
#[derive(Debug)]
pub struct ApiKeyConfig {
    pub key: String,
    pub name: String,
    pub rate_limit_per_minute: Option<u32>,
    pub enabled: bool,
}

/// Authentication and cross-origin settings.
#[derive(Debug)]
pub struct SecurityConfig {
    pub enable_auth: bool,
    pub api_keys: Vec<ApiKeyConfig>,
    pub allowed_origins: Vec<String>,
}

/// Bounds on what one request and the whole service may consume.
#[derive(Debug, Clone, Copy)]
pub struct LimitsConfig {
    pub max_prompt_length: usize,
    pub max_response_tokens: usize,
    pub max_sessions: usize,
    pub session_ttl_seconds: u64,
    pub default_rate_limit_per_minute: u32,
}

/// Metrics and tracing switches.
#[derive(Debug)]
pub struct ObservabilityConfig {
    pub enable_metrics: bool,
    pub enable_tracing: bool,
    pub metrics_path: String,
}

/// The whole configuration of the service.
#[derive(Debug)]
pub struct Config {
    pub server: ServerConfig,
    pub models: ModelsConfig,
    pub security: SecurityConfig,
    pub limits: LimitsConfig,
    pub observability: ObservabilityConfig,
}

/// Why a configuration is refused.
#[derive(Debug, Clone, Copy, PartialEq, Eq, Structural)]
pub enum ConfigError {
    /// The server port is 0.
    ZeroPort,
    /// No model is configured.
    NoModels,
    /// Authentication is switched on and no API key is configured.
    AuthWithoutKeys,
}

impl View for ServerConfig {
    type V = ServerConfigView;

    open spec fn view(&self) -> ServerConfigView {
        ServerConfigView { host: self.host@, port: self.port, log_level: self.log_level@ }
    }
}

impl View for ModelConfig {
    type V = ModelConfigView;

    open spec fn view(&self) -> ModelConfigView {
        ModelConfigView {
            id: self.id@,
            name: self.name@,
            path: self.path.deep_view(),
            quantization: self.quantization.deep_view(),
            context_length: self.context_length,
        }
    }
}

impl DeepView for ModelConfig {
    type V = ModelConfigView;

    open spec fn deep_view(&self) -> ModelConfigView {
        self@
    }
}

impl View for ModelsConfig {
    type V = ModelsConfigView;

    open spec fn view(&self) -> ModelsConfigView {
        ModelsConfigView {
            model_dir: self.model_dir.deep_view(),
            available_models: self.available_models.deep_view(),
            default_device: self.default_device@,
            max_concurrent_requests: self.max_concurrent_requests,
        }
    }
}

impl View for ApiKeyConfig {
    type V = ApiKeyConfigView;

    open spec fn view(&self) -> ApiKeyConfigView {
        ApiKeyConfigView {
            key: self.key@,
            name: self.name@,
            rate_limit_per_minute: self.rate_limit_per_minute,
            enabled: self.enabled,
        }
    }
}

impl DeepView for ApiKeyConfig {
    type V = ApiKeyConfigView;

    open spec fn deep_view(&self) -> ApiKeyConfigView {
        self@
    }
}

impl View for SecurityConfig {
    type V = SecurityConfigView;

    open spec fn view(&self) -> SecurityConfigView {
        SecurityConfigView {
            enable_auth: self.enable_auth,
            api_keys: self.api_keys.deep_view(),
            allowed_origins: self.allowed_origins.deep_view(),
        }
    }
}

impl View for ObservabilityConfig {
    type V = ObservabilityConfigView;

    open spec fn view(&self) -> ObservabilityConfigView {
        ObservabilityConfigView {
            enable_metrics: self.enable_metrics,
            enable_tracing: self.enable_tracing,
            metrics_path: self.metrics_path@,
        }
    }
}

impl View for Config {
    type V = ConfigView;

    open spec fn view(&self) -> ConfigView {
        ConfigView {
            server: self.server@,
            models: self.models@,
            security: self.security@,
            limits: self.limits,
            observability: self.observability@,
        }
    }
}

/// Copies an optional string.
pub fn clone_optional_text(text: &Option<String>) -> (copy: Option<String>)
    ensures
        copy.deep_view() == text.deep_view(),
{
    match text {
        Some(s) => Some(s.clone()),
        None => None,
    }
}

impl Clone for ServerConfig {
    fn clone(&self) -> (copy: Self)
        ensures
            copy@ == self@,
    {
        ServerConfig {
            host: self.host.clone(),
            port: self.port,
            log_level: self.log_level.clone(),
        }
    }
}

impl Clone for ModelConfig {
    fn clone(&self) -> (copy: Self)
        ensures
            copy@ == self@,
    {
        ModelConfig {
            id: self.id.clone(),
            name: self.name.clone(),
            path: clone_optional_text(&self.path),
            quantization: clone_optional_text(&self.quantization),
            context_length: self.context_length,
        }
    }
}

impl Clone for ModelsConfig {
    fn clone(&self) -> (copy: Self)
        ensures
            copy@ == self@,
    {
        let available_models = self.available_models.clone();
        assert(available_models.deep_view() =~= self.available_models.deep_view());
        ModelsConfig {
            model_dir: clone_optional_text(&self.model_dir),
            available_models,
            default_device: self.default_device.clone(),
            max_concurrent_requests: self.max_concurrent_requests,
        }
    }
}

impl Clone for ApiKeyConfig {
    fn clone(&self) -> (copy: Self)
        ensures
            copy@ == self@,
    {
        ApiKeyConfig {
            key: self.key.clone(),
            name: self.name.clone(),
            rate_limit_per_minute: self.rate_limit_per_minute,
            enabled: self.enabled,
        }
    }
}

impl Clone for SecurityConfig {
    fn clone(&self) -> (copy: Self)
        ensures
            copy@ == self@,
    {
        let api_keys = self.api_keys.clone();
        let allowed_origins = self.allowed_origins.clone();
        assert(api_keys.deep_view() =~= self.api_keys.deep_view());
        assert(allowed_origins.deep_view() =~= self.allowed_origins.deep_view());
        SecurityConfig { enable_auth: self.enable_auth, api_keys, allowed_origins }
    }
}

impl Clone for ObservabilityConfig {
    fn clone(&self) -> (copy: Self)
        ensures
            copy@ == self@,
    {
        ObservabilityConfig {
            enable_metrics: self.enable_metrics,
            enable_tracing: self.enable_tracing,
            metrics_path: self.metrics_path.clone(),
        }
    }
}

impl Clone for Config {
    fn clone(&self) -> (copy: Self)
        ensures
            copy@ == self@,
    {
        Config {
            server: self.server.clone(),
            models: self.models.clone(),
            security: self.security.clone(),
            limits: self.limits,
            observability: self.observability.clone(),
        }
    }
}

/// Host the server binds to unless told otherwise.
pub fn default_host() -> (host: String)
    ensures
        host@ == "127.0.0.1"@,
{
    "127.0.0.1".to_owned()
}

/// Port the server binds to unless told otherwise.
pub fn default_port() -> (port: u16)
    ensures
        port == 3000,
{
    3000
}

/// Log level used unless told otherwise.
pub fn default_log_level() -> (level: String)
    ensures
        level@ == "info"@,
{
    "info".to_owned()
}

/// Device models are placed on unless told otherwise.
pub fn default_device() -> (device: String)
    ensures
        device@ == "cuda"@,
{
    "cuda".to_owned()
}

/// Requests served at once unless told otherwise.
pub fn default_max_concurrent() -> (count: usize)
    ensures
        count == 10,
{
    10
}

/// Longest prompt accepted unless told otherwise, in bytes.
pub fn default_max_prompt_length() -> (length: usize)
    ensures
        length == 8192,
{
    8192
}

/// Most tokens generated for one response unless told otherwise.
pub fn default_max_response_tokens() -> (tokens: usize)
    ensures
        tokens == 2048,
{
    2048
}

/// Most sessions held at once unless told otherwise.
pub fn default_max_sessions() -> (sessions: usize)
    ensures
        sessions == 1000,
{
    1000
}

/// Lifetime of an idle session unless told otherwise, in seconds.
pub fn default_session_ttl() -> (seconds: u64)
    ensures
        seconds == 3600,
{
    3600
}

/// Requests allowed per key and minute unless told otherwise.
pub fn default_rate_limit() -> (requests: u32)
    ensures
        requests == 60,
{
    60
}

/// Default of the switches that are on unless told otherwise.
pub fn default_true() -> (on: bool)
    ensures
        on,
{
    true
}

/// A model entry with an id, a display name and a context length, and
/// nothing else set.
pub fn stock_model(id: &str, name: &str, context_length: usize) -> (model: ModelConfig)
    ensures
        model@ == stock_model_view(id@, name@, context_length),
{
    ModelConfig {
        id: id.to_owned(),
        name: name.to_owned(),
        path: None,
        quantization: None,
        context_length: Some(context_length),
    }
}

/// Model of [`stock_model`].
pub open spec fn stock_model_view(
    id: Seq<char>,
    name: Seq<char>,
    context_length: usize,
) -> ModelConfigView {
    ModelConfigView {
        id,
        name,
        path: None,
        quantization: None,
        context_length: Some(context_length),
    }
}

/// The limits that apply unless told otherwise.
pub open spec fn default_limits() -> LimitsConfig {
    LimitsConfig {
        max_prompt_length: 8192,
        max_response_tokens: 2048,
        max_sessions: 1000,
        session_ttl_seconds: 3600,
        default_rate_limit_per_minute: 60,
    }
}

/// The configuration used when none is given: two stock models on `cuda`, no
/// authentication, every origin allowed, metrics and tracing on.
pub open spec fn default_config() -> ConfigView {
    ConfigView {
        server: ServerConfigView { host: "127.0.0.1"@, port: 3000, log_level: "info"@ },
        models: ModelsConfigView {
            model_dir: None,
            available_models: seq![
                stock_model_view("qwen"@, "Qwen/Qwen2.5-0.5B-Instruct"@, 4096),
                stock_model_view("phi"@, "microsoft/Phi-3.5-mini-instruct"@, 4096),
            ],
            default_device: "cuda"@,
            max_concurrent_requests: 10,
        },
        security: SecurityConfigView {
            enable_auth: false,
            api_keys: Seq::empty(),
            allowed_origins: seq!["*"@],
        },
        limits: default_limits(),
        observability: ObservabilityConfigView {
            enable_metrics: true,
            enable_tracing: true,
            metrics_path: "/metrics"@,
        },
    }
}

/// What makes a configuration refused, if anything: the first of a zero
/// port, an empty model list, and authentication without keys.
pub open spec fn config_fault(config: ConfigView) -> Option<ConfigError> {
    if config.server.port == 0 {
        Some(ConfigError::ZeroPort)
    } else if config.models.available_models.len() == 0 {
        Some(ConfigError::NoModels)
    } else if config.security.enable_auth && config.security.api_keys.len() == 0 {
        Some(ConfigError::AuthWithoutKeys)
    } else {
        None
    }
}

impl Default for Config {
    fn default() -> (config: Self)
        ensures
            config@ == default_config(),
    {
        let mut available_models: Vec<ModelConfig> = Vec::new();
        available_models.push(stock_model("qwen", "Qwen/Qwen2.5-0.5B-Instruct", 4096));
        available_models.push(stock_model("phi", "microsoft/Phi-3.5-mini-instruct", 4096));
        let mut allowed_origins: Vec<String> = Vec::new();
        allowed_origins.push("*".to_owned());
        let config = Config {
            server: ServerConfig {
                host: default_host(),
                port: default_port(),
                log_level: default_log_level(),
            },
            models: ModelsConfig {
                model_dir: None,
                available_models,
                default_device: default_device(),
                max_concurrent_requests: default_max_concurrent(),
            },
            security: SecurityConfig {
                enable_auth: false,
                api_keys: Vec::new(),
                allowed_origins,
            },
            limits: LimitsConfig {
                max_prompt_length: default_max_prompt_length(),
                max_response_tokens: default_max_response_tokens(),
                max_sessions: default_max_sessions(),
                session_ttl_seconds: default_session_ttl(),
                default_rate_limit_per_minute: default_rate_limit(),
            },
            observability: ObservabilityConfig {
                enable_metrics: default_true(),
                enable_tracing: default_true(),
                metrics_path: "/metrics".to_owned(),
            },
        };
        proof {
            assert(config.models.available_models.deep_view() =~= default_config().models.available_models);
            assert(config.security.api_keys.deep_view() =~= default_config().security.api_keys);
            assert(config.security.allowed_origins.deep_view() =~= default_config().security.allowed_origins);
        }
        config
    }
}

impl ConfigError {
    /// The sentence shown for this fault.
    pub fn message(&self) -> (text: String)
        ensures
            text@ == match *self {
                ConfigError::ZeroPort => "Server port cannot be 0"@,
                ConfigError::NoModels => "At least one model must be configured"@,
                ConfigError::AuthWithoutKeys => "Authentication enabled but no API keys configured"@,
            },
    {
        match self {
            ConfigError::ZeroPort => "Server port cannot be 0".to_owned(),
            ConfigError::NoModels => "At least one model must be configured".to_owned(),
            ConfigError::AuthWithoutKeys => "Authentication enabled but no API keys configured".to_owned(),
        }
    }
}

impl Config {
    /// Checks the configuration: the port is not 0, at least one model is
    /// configured, and authentication comes with at least one key.
    pub fn validate(&self) -> (outcome: Result<(), ConfigError>)
        ensures
            outcome == match config_fault(self@) {
                Some(fault) => Err::<(), ConfigError>(fault),
                None => Ok(()),
            },
    {
        if self.server.port == 0 {
            return Err(ConfigError::ZeroPort);
        }
        if self.models.available_models.len() == 0 {
            return Err(ConfigError::NoModels);
        }
        if self.security.enable_auth && self.security.api_keys.len() == 0 {
            return Err(ConfigError::AuthWithoutKeys);
        }
        Ok(())
    }

    /// Settles on the configuration to run with: the one read from the
    /// configuration file where there is one and it is valid, the default
    /// otherwise.
    pub fn load(candidate: Option<Config>) -> (config: Self)
        ensures
            config@ == match candidate {
                Some(read) if config_fault(read@) is None => read@,
                _ => default_config(),
            },
            config_fault(config@) is None,
    {
        match candidate {
            Some(read) => {
                if read.validate().is_ok() {
                    read
                } else {
                    Config::default()
                }
            },
            None => Config::default(),
        }
    }
}

} // verus!
