//! Settings of the event bus and the rules they must meet.
use vstd::prelude::*;
use vstd::string::*;

use crate::coordinator_config::ConfigError;
use crate::text::same_text;

verus! {

/// The HTTP listener.
#[derive(Debug, Clone)]
pub struct RestConfig {
    pub host: String,
    pub port: u16,
    pub request_timeout_secs: u64,
    pub max_body_size: usize,
    pub cors_enabled: bool,
    pub cors_allowed_origins: Vec<String>,
}

/// The RPC listener.
#[derive(Debug, Clone)]
pub struct GrpcConfig {
    pub host: String,
    pub port: u16,
    pub max_message_size: usize,
    pub connection_timeout_secs: u64,
    pub reflection_enabled: bool,
}

/// Both listeners and the server's own settings.
#[derive(Debug, Clone)]
pub struct ServerConfig {
    pub rest: RestConfig,
    pub grpc: GrpcConfig,
    pub worker_threads: Option<usize>,
    pub shutdown_timeout_secs: u64,
}

/// Log level, format and files.
#[derive(Debug, Clone)]
pub struct LoggingConfig {
    pub level: String,
    /// "json" or "pretty".
    pub format: String,
    pub file_enabled: bool,
    pub file_path: Option<String>,
    pub rotation_size_mb: Option<u64>,
    pub rotation_keep: Option<u32>,
}

/// Metrics export.
#[derive(Debug, Clone)]
pub struct MetricsConfig {
    pub enabled: bool,
    pub export_interval_secs: u64,
    pub prometheus_path: String,
}

/// Request rate limits of the listeners.
#[derive(Debug, Clone)]
pub struct RateLimitConfig {
    pub requests_per_second: u32,
    pub burst_size: u32,
    pub per_ip_enabled: bool,
}

/// Certificates for TLS.
#[derive(Debug, Clone)]
pub struct TlsConfig {
    pub cert_path: String,
    pub key_path: String,
    pub ca_path: Option<String>,
    pub mutual_tls: bool,
}

/// Authentication, rate limits and TLS.
#[derive(Debug, Clone)]
pub struct SecurityConfig {
    pub auth_enabled: bool,
    pub api_key_header: Option<String>,
    pub rate_limit: Option<RateLimitConfig>,
    pub tls: Option<TlsConfig>,
}

pub open spec fn rest_ok(c: RestConfig) -> bool {
    &&& 1 <= c.port
    &&& 1 <= c.request_timeout_secs <= 300
    &&& 1024 <= c.max_body_size <= 104857600
}

pub open spec fn grpc_ok(c: GrpcConfig) -> bool {
    &&& 1 <= c.port
    &&& 1024 <= c.max_message_size <= 104857600
    &&& 1 <= c.connection_timeout_secs <= 300
}

pub open spec fn server_ok(c: ServerConfig) -> bool {
    &&& rest_ok(c.rest)
    &&& grpc_ok(c.grpc)
    &&& (c.worker_threads matches Some(w) ==> 1 <= w <= 10000)
    &&& 1 <= c.shutdown_timeout_secs <= 300
}

pub open spec fn log_format_ok(f: Seq<char>) -> bool {
    f == "json"@ || f == "pretty"@
}

pub open spec fn logging_ok(c: LoggingConfig) -> bool {
    &&& c.level@.len() >= 1
    &&& log_format_ok(c.format@)
    &&& (c.rotation_size_mb matches Some(s) ==> 1 <= s <= 1000)
    &&& (c.rotation_keep matches Some(k) ==> 1 <= k <= 100)
}

pub open spec fn metrics_ok(c: MetricsConfig) -> bool {
    1 <= c.export_interval_secs <= 300
}

pub open spec fn rate_limit_ok(c: RateLimitConfig) -> bool {
    &&& 1 <= c.requests_per_second <= 10000
    &&& 1 <= c.burst_size <= 100000
}

pub open spec fn tls_ok(c: TlsConfig) -> bool {
    c.cert_path@.len() >= 1 && c.key_path@.len() >= 1
}

pub open spec fn security_ok(c: SecurityConfig) -> bool {
    &&& (c.rate_limit matches Some(r) ==> rate_limit_ok(r))
    &&& (c.tls matches Some(t) ==> tls_ok(t))
}

/// Accepts the log formats "json" and "pretty".
pub fn validate_log_format(format: &str) -> (r: Result<(), ConfigError>)
    ensures
        log_format_ok(format@) ==> r is Ok,
        !log_format_ok(format@) ==> r == Err::<(), ConfigError>(ConfigError::InvalidLogFormat),
{
    if same_text(format, "json") || same_text(format, "pretty") {
        Ok(())
    } else {
        Err(ConfigError::InvalidLogFormat)
    }
}

impl RestConfig {
    /// Accepts the section when it meets its rules.
    pub fn validate(&self) -> (r: Result<(), ConfigError>)
        ensures
            r is Ok <==> rest_ok(*self),
    {
        if self.port < 1 || self.request_timeout_secs < 1 || self.request_timeout_secs > 300
            || self.max_body_size < 1024 || self.max_body_size > 104857600 {
            Err(ConfigError::ValidationFailed)
        } else {
            Ok(())
        }
    }
}

impl GrpcConfig {
    /// Accepts the section when it meets its rules.
    pub fn validate(&self) -> (r: Result<(), ConfigError>)
        ensures
            r is Ok <==> grpc_ok(*self),
    {
        if self.port < 1 || self.max_message_size < 1024 || self.max_message_size > 104857600
            || self.connection_timeout_secs < 1 || self.connection_timeout_secs > 300 {
            Err(ConfigError::ValidationFailed)
        } else {
            Ok(())
        }
    }
}

impl ServerConfig {
    /// Accepts the section when it meets its rules.
    pub fn validate(&self) -> (r: Result<(), ConfigError>)
        ensures
            r is Ok <==> server_ok(*self),
    {
        self.rest.validate()?;
        self.grpc.validate()?;
        match self.worker_threads {
            Some(w) => {
                if w < 1 || w > 10000 {
                    return Err(ConfigError::ValidationFailed);
                }
            },
            None => {},
        }
        if self.shutdown_timeout_secs < 1 || self.shutdown_timeout_secs > 300 {
            return Err(ConfigError::ValidationFailed);
        }
        Ok(())
    }
}

impl LoggingConfig {
    /// Accepts the section when it meets its rules.
    pub fn validate(&self) -> (r: Result<(), ConfigError>)
        ensures
            r is Ok <==> logging_ok(*self),
            self.level@.len() >= 1 && !log_format_ok(self.format@) ==> r == Err::<(), ConfigError>(
                ConfigError::InvalidLogFormat,
            ),
    {
        if self.level.as_str().is_empty() {
            return Err(ConfigError::ValidationFailed);
        }
        validate_log_format(self.format.as_str())?;
        match self.rotation_size_mb {
            Some(s) => {
                if s < 1 || s > 1000 {
                    return Err(ConfigError::ValidationFailed);
                }
            },
            None => {},
        }
        match self.rotation_keep {
            Some(k) => {
                if k < 1 || k > 100 {
                    return Err(ConfigError::ValidationFailed);
                }
            },
            None => {},
        }
        Ok(())
    }
}

impl MetricsConfig {
    /// Accepts the section when it meets its rules.
    pub fn validate(&self) -> (r: Result<(), ConfigError>)
        ensures
            r is Ok <==> metrics_ok(*self),
    {
        if self.export_interval_secs < 1 || self.export_interval_secs > 300 {
            Err(ConfigError::ValidationFailed)
        } else {
            Ok(())
        }
    }
}

impl RateLimitConfig {
    /// Accepts the section when it meets its rules.
    pub fn validate(&self) -> (r: Result<(), ConfigError>)
        ensures
            r is Ok <==> rate_limit_ok(*self),
    {
        if self.requests_per_second < 1 || self.requests_per_second > 10000 || self.burst_size < 1
            || self.burst_size > 100000 {
            Err(ConfigError::ValidationFailed)
        } else {
            Ok(())
        }
    }
}

impl TlsConfig {
    /// Accepts the section when it meets its rules.
    pub fn validate(&self) -> (r: Result<(), ConfigError>)
        ensures
            r is Ok <==> tls_ok(*self),
    {
        if self.cert_path.as_str().is_empty() || self.key_path.as_str().is_empty() {
            Err(ConfigError::ValidationFailed)
        } else {
            Ok(())
        }
    }
}

impl SecurityConfig {
    /// Accepts the section when it meets its rules.
    pub fn validate(&self) -> (r: Result<(), ConfigError>)
        ensures
            r is Ok <==> security_ok(*self),
    {
        match &self.rate_limit {
            Some(rl) => rl.validate()?,
            None => {},
        }
        match &self.tls {
            Some(t) => t.validate()?,
            None => {},
        }
        Ok(())
    }
}

impl Default for RestConfig {
    fn default() -> (r: Self)
        ensures
            r.host@ == "0.0.0.0"@,
            r.port == 8080,
            r.request_timeout_secs == 30,
            r.max_body_size == 10 * 1024 * 1024,
            r.cors_enabled,
            r.cors_allowed_origins@.len() == 1 && r.cors_allowed_origins@[0]@ == "*"@,
    {
        let mut origins: Vec<String> = Vec::new();
        origins.push(String::from_str("*"));
        RestConfig {
            host: String::from_str("0.0.0.0"),
            port: 8080,
            request_timeout_secs: 30,
            max_body_size: 10 * 1024 * 1024,
            cors_enabled: true,
            cors_allowed_origins: origins,
        }
    }
}

impl Default for GrpcConfig {
    fn default() -> (r: Self)
        ensures
            r.host@ == "0.0.0.0"@,
            r.port == 50051,
            r.max_message_size == 4 * 1024 * 1024,
            r.connection_timeout_secs == 10,
            !r.reflection_enabled,
    {
        GrpcConfig {
            host: String::from_str("0.0.0.0"),
            port: 50051,
            max_message_size: 4 * 1024 * 1024,
            connection_timeout_secs: 10,
            reflection_enabled: false,
        }
    }
}

impl Default for ServerConfig {
    fn default() -> (r: Self)
        ensures
            r.rest.port == 8080,
            r.grpc.port == 50051,
            r.worker_threads is None,
            r.shutdown_timeout_secs == 30,
            server_ok(r),
    {
        ServerConfig {
            rest: RestConfig::default(),
            grpc: GrpcConfig::default(),
            worker_threads: None,
            shutdown_timeout_secs: 30,
        }
    }
}

impl Default for LoggingConfig {
    fn default() -> (r: Self)
        ensures
            r.level@ == "info"@,
            r.format@ == "json"@,
            !r.file_enabled,
            r.file_path is None,
            r.rotation_size_mb == Some(100u64),
            r.rotation_keep == Some(5u32),
            logging_ok(r),
    {
        let r = LoggingConfig {
            level: String::from_str("info"),
            format: String::from_str("json"),
            file_enabled: false,
            file_path: None,
            rotation_size_mb: Some(100),
            rotation_keep: Some(5),
        };
        proof {
            reveal_strlit("info");
        }
        r
    }
}

impl Default for MetricsConfig {
    fn default() -> (r: Self)
        ensures
            r.enabled,
            r.export_interval_secs == 60,
            r.prometheus_path@ == "/metrics"@,
    {
        MetricsConfig {
            enabled: true,
            export_interval_secs: 60,
            prometheus_path: String::from_str("/metrics"),
        }
    }
}

impl Default for SecurityConfig {
    fn default() -> (r: Self)
        ensures
            !r.auth_enabled,
            r.api_key_header matches Some(h) && h@ == "X-API-Key"@,
            r.rate_limit is None,
            r.tls is None,
    {
        SecurityConfig {
            auth_enabled: false,
            api_key_header: Some(String::from_str("X-API-Key")),
            rate_limit: None,
            tls: None,
        }
    }
}

} // verus!
