//! Configuration sections of the sidecar and their defaults. Reading the
//! configuration file is done at the application's edge.
use vstd::prelude::*;

use crate::text::owned;

verus! {

broadcast use vstd::string::group_string_axioms;

/// SSRF protection settings.
#[derive(Debug, Clone)]
pub struct SsrfConfig {
    pub allowed_endpoints: Vec<String>,
    pub disabled: bool,
}

impl SsrfConfig {
    /// No allowed endpoints; protection enabled.
    pub fn default_config() -> (r: Self)
        ensures
            r.allowed_endpoints@.len() == 0,
            !r.disabled,
    {
        SsrfConfig { allowed_endpoints: Vec::new(), disabled: false }
    }
}

/// Server settings.
#[derive(Debug, Clone)]
pub struct ServerConfig {
    pub host: String,
    pub port: u16,
    pub mode: String,
    pub shutdown_timeout_s: u64,
}

impl ServerConfig {
    /// 127.0.0.1:8787, local-only mode, 30 s shutdown timeout.
    pub fn default_config() -> (r: Self)
        ensures
            r.host@ == "127.0.0.1"@,
            r.port == 8787,
            r.mode@ == "local_only"@,
            r.shutdown_timeout_s == 30,
    {
        ServerConfig { host: owned("127.0.0.1"), port: 8787, mode: owned("local_only"), shutdown_timeout_s: 30 }
    }
}

impl Default for ServerConfig {
    fn default() -> (r: Self)
        ensures
            r.host@ == "127.0.0.1"@,
            r.port == 8787,
            r.mode@ == "local_only"@,
            r.shutdown_timeout_s == 30,
    {
        Self::default_config()
    }
}

/// Policy file settings.
#[derive(Debug, Clone)]
pub struct PolicyConfig {
    pub file: Option<String>,
    pub hot_reload: bool,
    pub hot_reload_interval_s: u64,
    pub reload_secret: Option<String>,
    pub disable_reload: bool,
}

impl PolicyConfig {
    /// No file, no hot reload, no secret.
    pub fn default_config() -> (r: Self)
        ensures
            r.file is None,
            !r.hot_reload,
            r.hot_reload_interval_s == 0,
            r.reload_secret is None,
            !r.disable_reload,
    {
        PolicyConfig { file: None, hot_reload: false, hot_reload_interval_s: 0, reload_secret: None, disable_reload: false }
    }
}

/// Identity registry settings.
#[derive(Debug, Clone)]
pub struct IdentityConfig {
    pub file: Option<String>,
    pub default_ttl_s: i64,
    pub queue_item_ttl_s: i64,
}

impl IdentityConfig {
    /// No file, 15-minute identities, 24-hour queue items.
    pub fn default_config() -> (r: Self)
        ensures
            r.file is None,
            r.default_ttl_s == 900,
            r.queue_item_ttl_s == 86400,
    {
        IdentityConfig { file: None, default_ttl_s: 900, queue_item_ttl_s: 86400 }
    }
}

impl Default for IdentityConfig {
    fn default() -> (r: Self)
        ensures
            r.file is None,
            r.default_ttl_s == 900,
            r.queue_item_ttl_s == 86400,
    {
        Self::default_config()
    }
}

/// Local identity provider settings.
#[derive(Debug, Clone)]
pub struct LocalIdpConfig {
    pub issuer: String,
    pub audience: String,
    pub signing_key_env: String,
}

impl LocalIdpConfig {
    /// The development issuer and audience, key from `LOCAL_IDP_SIGNING_KEY`.
    pub fn default_config() -> (r: Self)
        ensures
            r.issuer@ == "http://localhost/predicate-local-idp"@,
            r.audience@ == "api://predicate-authority"@,
            r.signing_key_env@ == "LOCAL_IDP_SIGNING_KEY"@,
    {
        LocalIdpConfig {
            issuer: owned("http://localhost/predicate-local-idp"),
            audience: owned("api://predicate-authority"),
            signing_key_env: owned("LOCAL_IDP_SIGNING_KEY"),
        }
    }
}

impl Default for LocalIdpConfig {
    fn default() -> (r: Self)
        ensures
            r.issuer@ == "http://localhost/predicate-local-idp"@,
            r.audience@ == "api://predicate-authority"@,
            r.signing_key_env@ == "LOCAL_IDP_SIGNING_KEY"@,
    {
        Self::default_config()
    }
}

/// OIDC settings.
#[derive(Debug, Clone)]
pub struct OidcConfig {
    pub issuer: Option<String>,
    pub client_id: Option<String>,
    pub audience: Option<String>,
}

/// Entra settings.
#[derive(Debug, Clone)]
pub struct EntraConfig {
    pub tenant_id: Option<String>,
    pub client_id: Option<String>,
    pub audience: Option<String>,
}

/// Okta settings.
#[derive(Debug, Clone)]
pub struct OktaConfig {
    pub issuer: Option<String>,
    pub client_id: Option<String>,
    pub audience: Option<String>,
    pub required_claims: Vec<String>,
    pub required_scopes: Vec<String>,
    pub required_roles: Vec<String>,
    pub allowed_tenants: Vec<String>,
    pub tenant_claim: String,
    pub scope_claim: String,
    pub role_claim: String,
}

impl OktaConfig {
    /// Nothing required; claims `tenant_id`, `scope` and `groups`.
    pub fn default_config() -> (r: Self)
        ensures
            r.issuer is None && r.client_id is None && r.audience is None,
            r.required_claims@.len() == 0 && r.required_scopes@.len() == 0,
            r.required_roles@.len() == 0 && r.allowed_tenants@.len() == 0,
            r.tenant_claim@ == "tenant_id"@,
            r.scope_claim@ == "scope"@,
            r.role_claim@ == "groups"@,
    {
        OktaConfig {
            issuer: None,
            client_id: None,
            audience: None,
            required_claims: Vec::new(),
            required_scopes: Vec::new(),
            required_roles: Vec::new(),
            allowed_tenants: Vec::new(),
            tenant_claim: owned("tenant_id"),
            scope_claim: owned("scope"),
            role_claim: owned("groups"),
        }
    }
}

impl Default for OktaConfig {
    fn default() -> (r: Self)
        ensures
            r.issuer is None && r.client_id is None && r.audience is None,
            r.tenant_claim@ == "tenant_id"@,
            r.scope_claim@ == "scope"@,
            r.role_claim@ == "groups"@,
    {
        Self::default_config()
    }
}

/// Identity provider settings.
#[derive(Debug, Clone)]
pub struct IdpConfig {
    pub mode: String,
    pub allow_local_fallback: bool,
    pub idp_token_ttl_s: i64,
    pub mandate_ttl_s: i64,
    pub local_idp: LocalIdpConfig,
    pub oidc: OidcConfig,
    pub entra: EntraConfig,
    pub okta: OktaConfig,
}

impl IdpConfig {
    /// Local mode, no fallback, 300 s tokens and mandates.
    pub fn default_config() -> (r: Self)
        ensures
            r.mode@ == "local"@,
            !r.allow_local_fallback,
            r.idp_token_ttl_s == 300,
            r.mandate_ttl_s == 300,
            r.local_idp.issuer@ == "http://localhost/predicate-local-idp"@,
            r.okta.tenant_claim@ == "tenant_id"@,
    {
        IdpConfig {
            mode: owned("local"),
            allow_local_fallback: false,
            idp_token_ttl_s: 300,
            mandate_ttl_s: 300,
            local_idp: LocalIdpConfig::default_config(),
            oidc: OidcConfig { issuer: None, client_id: None, audience: None },
            entra: EntraConfig { tenant_id: None, client_id: None, audience: None },
            okta: OktaConfig::default_config(),
        }
    }
}

impl Default for IdpConfig {
    fn default() -> (r: Self)
        ensures
            r.mode@ == "local"@,
            !r.allow_local_fallback,
            r.idp_token_ttl_s == 300,
            r.mandate_ttl_s == 300,
    {
        Self::default_config()
    }
}

/// Logging settings.
#[derive(Debug, Clone)]
pub struct LoggingConfig {
    pub level: String,
    pub format: String,
    pub include_target: bool,
}

impl LoggingConfig {
    /// Level "info", compact format, targets included.
    pub fn default_config() -> (r: Self)
        ensures
            r.level@ == "info"@,
            r.format@ == "compact"@,
            r.include_target,
    {
        LoggingConfig { level: owned("info"), format: owned("compact"), include_target: true }
    }
}

impl Default for LoggingConfig {
    fn default() -> (r: Self)
        ensures
            r.level@ == "info"@,
            r.format@ == "compact"@,
            r.include_target,
    {
        Self::default_config()
    }
}

/// Control-plane settings. The sync wait and request timeouts are held in
/// milliseconds.
#[derive(Debug, Clone)]
pub struct ControlPlaneFileConfig {
    pub url: Option<String>,
    pub tenant_id: Option<String>,
    pub project_id: Option<String>,
    pub api_key: Option<String>,
    pub sync_enabled: bool,
    pub sync_wait_timeout_ms: u64,
    pub sync_environment: Option<String>,
    pub fail_open: bool,
    pub timeout_ms: u64,
    pub max_retries: u32,
}

/// The control-plane section is empty: nothing set, every switch off.
pub open spec fn control_plane_unset(r: ControlPlaneFileConfig) -> bool {
    &&& r.url is None && r.tenant_id is None && r.project_id is None && r.api_key is None
    &&& !r.sync_enabled && r.sync_wait_timeout_ms == 0 && r.sync_environment is None
    &&& !r.fail_open && r.timeout_ms == 0 && r.max_retries == 0
}

impl ControlPlaneFileConfig {
    /// Nothing set, every switch off.
    pub fn default_config() -> (r: Self)
        ensures
            control_plane_unset(r),
    {
        ControlPlaneFileConfig {
            url: None,
            tenant_id: None,
            project_id: None,
            api_key: None,
            sync_enabled: false,
            sync_wait_timeout_ms: 0,
            sync_environment: None,
            fail_open: false,
            timeout_ms: 0,
            max_retries: 0,
        }
    }
}

/// The whole configuration file.
#[derive(Debug, Clone)]
pub struct Config {
    pub server: ServerConfig,
    pub policy: PolicyConfig,
    pub ssrf: SsrfConfig,
    pub identity: IdentityConfig,
    pub idp: IdpConfig,
    pub control_plane: ControlPlaneFileConfig,
    pub logging: LoggingConfig,
}

/// The configuration holds every section's defaults.
pub open spec fn config_defaults(r: Config) -> bool {
    &&& r.server.host@ == "127.0.0.1"@ && r.server.port == 8787
    &&& r.server.mode@ == "local_only"@ && r.server.shutdown_timeout_s == 30
    &&& r.policy.file is None && !r.policy.hot_reload && r.policy.hot_reload_interval_s == 0
    &&& r.policy.reload_secret is None && !r.policy.disable_reload
    &&& r.ssrf.allowed_endpoints@.len() == 0 && !r.ssrf.disabled
    &&& r.identity.file is None && r.identity.default_ttl_s == 900 && r.identity.queue_item_ttl_s == 86400
    &&& r.idp.mode@ == "local"@ && !r.idp.allow_local_fallback
    &&& r.idp.idp_token_ttl_s == 300 && r.idp.mandate_ttl_s == 300
    &&& control_plane_unset(r.control_plane)
    &&& r.logging.level@ == "info"@ && r.logging.format@ == "compact"@ && r.logging.include_target
}

/// The example configuration file, with every section and its defaults.
pub const EXAMPLE_TOML: &'static str = r#"# Predicate Authority Daemon Configuration
# This file can be placed at:
#   ./predicate-authorityd.toml
#   ~/.predicate/authorityd.toml
#   /etc/predicate/authorityd.toml

[server]
host = "127.0.0.1"
port = 8787
mode = "local_only"  # or "cloud_connected"
shutdown_timeout_s = 30

[policy]
# file = "/path/to/policy.json"
hot_reload = false
hot_reload_interval_s = 30
# reload_secret = "your-secret-here"  # Require bearer token for /policy/reload
# disable_reload = false              # Set to true to disable /policy/reload entirely

# SSRF Protection Configuration
# By default, SSRF blocks private IPs, localhost, and cloud metadata endpoints
[ssrf]
# allowed_endpoints = ["172.30.192.1:11434", "127.0.0.1:9200"]  # Bypass SSRF for these
# disabled = false  # Set to true to disable all SSRF protection (not recommended)

[identity]
# file = "~/.predicate/local-identity-registry.json"
default_ttl_s = 900      # 15 minutes
queue_item_ttl_s = 86400 # 24 hours

# Identity Provider Configuration
# Supported modes: local, local-idp, oidc, entra, okta
[idp]
mode = "local"
allow_local_fallback = false  # Required when using local/local-idp in cloud_connected mode
idp_token_ttl_s = 300
mandate_ttl_s = 300           # Must be <= idp_token_ttl_s

# Local IdP settings (for local-idp mode)
[idp.local_idp]
issuer = "http://localhost/predicate-local-idp"
audience = "api://predicate-authority"
signing_key_env = "LOCAL_IDP_SIGNING_KEY"

# OIDC settings (for oidc mode)
[idp.oidc]
# issuer = "https://your-oidc-provider.com"
# client_id = "your-client-id"
# audience = "api://predicate-authority"

# Entra (Azure AD) settings (for entra mode)
[idp.entra]
# tenant_id = "your-tenant-id"
# client_id = "your-client-id"
# audience = "api://predicate-authority"

# Okta settings (for okta mode)
[idp.okta]
# issuer = "https://your-org.okta.com/oauth2/default"
# client_id = "your-client-id"
# audience = "api://predicate-authority"
# required_claims = ["sub", "tenant_id"]
# required_scopes = ["authority:check"]
# required_roles = ["authority-operator"]
# allowed_tenants = ["tenant-a", "tenant-b"]
tenant_claim = "tenant_id"
scope_claim = "scope"
role_claim = "groups"

[control_plane]
# url = "https://api.predicatesystems.dev"
# tenant_id = "your-tenant-id"
# project_id = "your-project-id"
# api_key = "prefer-env-var-PREDICATE_API_KEY"
sync_enabled = false
sync_wait_timeout_s = 15.0
# sync_environment = "production"
fail_open = true
timeout_s = 2.0
max_retries = 2

[logging]
level = "info"        # trace, debug, info, warn, error
format = "compact"    # compact, pretty, json
include_target = true
"#;

impl Config {
    /// Every section at its defaults.
    pub fn default_config() -> (r: Self)
        ensures
            config_defaults(r),
    {
        Config {
            server: ServerConfig::default_config(),
            policy: PolicyConfig::default_config(),
            ssrf: SsrfConfig::default_config(),
            identity: IdentityConfig::default_config(),
            idp: IdpConfig::default_config(),
            control_plane: ControlPlaneFileConfig::default_config(),
            logging: LoggingConfig::default_config(),
        }
    }

    /// The text of the example configuration file.
    pub fn example_toml() -> (r: String)
        ensures
            r@ == EXAMPLE_TOML@,
    {
        owned(EXAMPLE_TOML)
    }
}

impl Default for Config {
    fn default() -> (r: Self)
        ensures
            config_defaults(r),
    {
        Self::default_config()
    }
}

/// Why the configuration file could not be used: its path and the cause.
#[derive(Debug, Clone)]
pub enum ConfigError {
    ReadError(String, String),
    ParseError(String, String),
}

/// The message of a configuration error.
pub open spec fn config_error_text(e: ConfigError) -> Seq<char> {
    match e {
        ConfigError::ReadError(p, c) => "Failed to read config file '"@ + p@ + "': "@ + c@,
        ConfigError::ParseError(p, c) => "Failed to parse config file '"@ + p@ + "': "@ + c@,
    }
}

impl ConfigError {
    /// The error's message.
    pub fn to_string(&self) -> (r: String)
        ensures
            r@ == config_error_text(*self),
    {
        let mut m: Vec<char> = Vec::new();
        match self {
            ConfigError::ReadError(p, c) => {
                crate::text::append_str(&mut m, "Failed to read config file '");
                crate::text::append_str(&mut m, p.as_str());
                crate::text::append_str(&mut m, "': ");
                crate::text::append_str(&mut m, c.as_str());
            },
            ConfigError::ParseError(p, c) => {
                crate::text::append_str(&mut m, "Failed to parse config file '");
                crate::text::append_str(&mut m, p.as_str());
                crate::text::append_str(&mut m, "': ");
                crate::text::append_str(&mut m, c.as_str());
            },
        }
        crate::text::string_from_chars(m.as_slice())
    }
}

} // verus!
