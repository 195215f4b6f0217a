//! Settings of the resource coordinator and the rules they must meet.
use vstd::prelude::*;
use vstd::string::*;

verus! {

/// Why a configuration was refused.
#[derive(Debug, Clone, Copy, PartialEq, Eq, Structural)]
pub enum ConfigError {
    /// A value is outside its allowed range, or a required text is empty.
    ValidationFailed,
    /// Less than 1024 MB of memory.
    InsufficientMemory,
    /// A port below 1024 other than 80 and 443.
    PrivilegedPort,
    /// A log format other than "json" and "pretty".
    InvalidLogFormat,
}

/// The coordinator's listener.
#[derive(Debug, Clone)]
pub struct ServerConfig {
    pub host: String,
    pub port: u16,
    pub max_connections: usize,
    pub request_timeout_secs: u64,
}

/// The resource pools and lease defaults.
#[derive(Debug, Clone)]
pub struct ResourceConfig {
    pub cpu_cores: u32,
    pub memory_mb: u64,
    pub gpu_count: u8,
    pub default_duration_secs: u64,
    /// Priority per component name.
    pub component_priorities: Vec<(String, u8)>,
}

/// Call limits of outside services.
#[derive(Debug, Clone)]
pub struct ApiLimitsConfig {
    pub claude_hourly_limit: u32,
    pub questdb_writes_per_second: u32,
    pub eventstore_writes_per_second: u32,
    pub custom_limits: Vec<(String, ApiLimit)>,
}

/// The limit of one outside service.
#[derive(Debug, Clone)]
pub struct ApiLimit {
    pub requests: u32,
    pub window_secs: u64,
    pub burst_capacity: Option<u32>,
}

pub open spec fn server_ok(c: ServerConfig) -> bool {
    &&& c.host@.len() >= 1
    &&& 1 <= c.port
    &&& 1 <= c.max_connections <= 10000
    &&& 1 <= c.request_timeout_secs <= 300
}

pub open spec fn resources_ok(c: ResourceConfig) -> bool {
    &&& 1 <= c.cpu_cores <= 256
    &&& 128 <= c.memory_mb <= 1048576
    &&& c.gpu_count <= 8
    &&& 1 <= c.default_duration_secs <= 86400
}

pub open spec fn api_limits_ok(c: ApiLimitsConfig) -> bool {
    &&& 1 <= c.claude_hourly_limit <= 10000
    &&& 1 <= c.questdb_writes_per_second <= 100000
    &&& 1 <= c.eventstore_writes_per_second <= 100000
}

pub open spec fn api_limit_ok(c: ApiLimit) -> bool {
    &&& c.requests >= 1
    &&& 1 <= c.window_secs <= 86400
}

impl ServerConfig {
    /// Accepts the section when it meets its rules.
    pub fn validate(&self) -> (r: Result<(), ConfigError>)
        ensures
            r is Ok <==> server_ok(*self),
            r is Err ==> r == Err::<(), ConfigError>(ConfigError::ValidationFailed),
    {
        if self.host.as_str().is_empty() || self.port < 1 || self.max_connections < 1
            || self.max_connections > 10000 || self.request_timeout_secs < 1
            || self.request_timeout_secs > 300 {
            Err(ConfigError::ValidationFailed)
        } else {
            Ok(())
        }
    }
}

impl ResourceConfig {
    /// Accepts the section when it meets its rules.
    pub fn validate(&self) -> (r: Result<(), ConfigError>)
        ensures
            r is Ok <==> resources_ok(*self),
            r is Err ==> r == Err::<(), ConfigError>(ConfigError::ValidationFailed),
    {
        if self.cpu_cores < 1 || self.cpu_cores > 256 || self.memory_mb < 128 || self.memory_mb
            > 1048576 || self.gpu_count > 8 || self.default_duration_secs < 1
            || self.default_duration_secs > 86400 {
            Err(ConfigError::ValidationFailed)
        } else {
            Ok(())
        }
    }
}

impl ApiLimitsConfig {
    /// Accepts the section when it meets its rules.
    pub fn validate(&self) -> (r: Result<(), ConfigError>)
        ensures
            r is Ok <==> api_limits_ok(*self),
            r is Err ==> r == Err::<(), ConfigError>(ConfigError::ValidationFailed),
    {
        if self.claude_hourly_limit < 1 || self.claude_hourly_limit > 10000
            || self.questdb_writes_per_second < 1 || self.questdb_writes_per_second > 100000
            || self.eventstore_writes_per_second < 1 || self.eventstore_writes_per_second > 100000 {
            Err(ConfigError::ValidationFailed)
        } else {
            Ok(())
        }
    }
}

impl ApiLimit {
    /// Accepts the section when it meets its rules.
    pub fn validate(&self) -> (r: Result<(), ConfigError>)
        ensures
            r is Ok <==> api_limit_ok(*self),
            r is Err ==> r == Err::<(), ConfigError>(ConfigError::ValidationFailed),
    {
        if self.requests < 1 || self.window_secs < 1 || self.window_secs > 86400 {
            Err(ConfigError::ValidationFailed)
        } else {
            Ok(())
        }
    }
}

/// The deployment rules beyond the ranges: at least 1024 MB of memory, and no
/// privileged port but 80 and 443.
pub fn validate_config(
    server: &ServerConfig,
    resources: &ResourceConfig,
    api_limits: &ApiLimitsConfig,
) -> (r: Result<(), ConfigError>)
    ensures
        !(server_ok(*server) && resources_ok(*resources) && api_limits_ok(*api_limits)) ==> r
            == Err::<(), ConfigError>(ConfigError::ValidationFailed),
        server_ok(*server) && resources_ok(*resources) && api_limits_ok(*api_limits) ==> (
        if resources.memory_mb < 1024 {
            r == Err::<(), ConfigError>(ConfigError::InsufficientMemory)
        } else if server.port < 1024 && server.port != 80 && server.port != 443 {
            r == Err::<(), ConfigError>(ConfigError::PrivilegedPort)
        } else {
            r is Ok
        }),
{
    server.validate()?;
    resources.validate()?;
    api_limits.validate()?;
    if resources.memory_mb < 1024 {
        return Err(ConfigError::InsufficientMemory);
    }
    if server.port < 1024 && server.port != 80 && server.port != 443 {
        return Err(ConfigError::PrivilegedPort);
    }
    Ok(())
}

impl Default for ServerConfig {
    fn default() -> (r: Self)
        ensures
            r.host@ == "127.0.0.1"@,
            r.port == 50052,
            r.max_connections == 100,
            r.request_timeout_secs == 30,
    {
        ServerConfig {
            host: String::from_str("127.0.0.1"),
            port: 50052,
            max_connections: 100,
            request_timeout_secs: 30,
        }
    }
}

impl Default for ResourceConfig {
    fn default() -> (r: Self)
        ensures
            r.cpu_cores == 4,
            r.memory_mb == 8192,
            r.gpu_count == 1,
            r.default_duration_secs == 300,
            r.component_priorities@.len() == 4,
            r.component_priorities@[0].0@ == "training"@ && r.component_priorities@[0].1 == 200,
            r.component_priorities@[1].0@ == "inference"@ && r.component_priorities@[1].1 == 150,
            r.component_priorities@[2].0@ == "analytics"@ && r.component_priorities@[2].1 == 100,
            r.component_priorities@[3].0@ == "assistant"@ && r.component_priorities@[3].1 == 180,
    {
        let mut component_priorities: Vec<(String, u8)> = Vec::new();
        component_priorities.push((String::from_str("training"), 200));
        component_priorities.push((String::from_str("inference"), 150));
        component_priorities.push((String::from_str("analytics"), 100));
        component_priorities.push((String::from_str("assistant"), 180));
        ResourceConfig {
            cpu_cores: 4,
            memory_mb: 8192,
            gpu_count: 1,
            default_duration_secs: 300,
            component_priorities,
        }
    }
}

impl Default for ApiLimitsConfig {
    fn default() -> (r: Self)
        ensures
            r.claude_hourly_limit == 100,
            r.questdb_writes_per_second == 10000,
            r.eventstore_writes_per_second == 5000,
            r.custom_limits@.len() == 0,
    {
        ApiLimitsConfig {
            claude_hourly_limit: 100,
            questdb_writes_per_second: 10000,
            eventstore_writes_per_second: 5000,
            custom_limits: Vec::new(),
        }
    }
}

} // verus!
