use jimbot::bus_config::{GrpcConfig, LoggingConfig, MetricsConfig, RestConfig, SecurityConfig, ServerConfig, TlsConfig};
use jimbot::coordinator_config::{validate_config, ApiLimit, ApiLimitsConfig, ConfigError, ResourceConfig};
use jimbot::coordinator_config::ServerConfig as CoordinatorServer;

#[test]
fn test_default_config() {
    let server = CoordinatorServer::default();
    let resources = ResourceConfig::default();
    assert_eq!(server.host, "127.0.0.1");
    assert_eq!(server.port, 50052);
    assert_eq!(resources.cpu_cores, 4);
    assert_eq!(resources.memory_mb, 8192);
}

#[test]
fn test_config_validation() {
    let mut server = CoordinatorServer::default();
    let mut resources = ResourceConfig::default();
    let limits = ApiLimitsConfig::default();

    // Valid config should pass
    assert!(validate_config(&server, &resources, &limits).is_ok());

    // Invalid port
    server.port = 0;
    assert!(validate_config(&server, &resources, &limits).is_err());
    server.port = 50052;

    // Invalid CPU cores
    resources.cpu_cores = 0;
    assert!(validate_config(&server, &resources, &limits).is_err());
    resources.cpu_cores = 4;

    // Invalid memory
    resources.memory_mb = 0;
    assert!(validate_config(&server, &resources, &limits).is_err());
}

#[test]
fn deployment_rules() {
    let mut server = CoordinatorServer::default();
    let mut resources = ResourceConfig::default();
    let limits = ApiLimitsConfig::default();
    resources.memory_mb = 512;
    assert_eq!(validate_config(&server, &resources, &limits), Err(ConfigError::InsufficientMemory));
    resources.memory_mb = 8192;
    server.port = 22;
    assert_eq!(validate_config(&server, &resources, &limits), Err(ConfigError::PrivilegedPort));
    server.port = 443;
    assert_eq!(validate_config(&server, &resources, &limits), Ok(()));
    let limit = ApiLimit { requests: 0, window_secs: 60, burst_capacity: None };
    assert!(limit.validate().is_err());
}

#[test]
fn test_default_config_validation() {
    assert!(ServerConfig::default().validate().is_ok());
    assert!(LoggingConfig::default().validate().is_ok());
    assert!(MetricsConfig::default().validate().is_ok());
    assert!(SecurityConfig::default().validate().is_ok());
}

#[test]
fn test_invalid_port() {
    let mut config = ServerConfig::default();
    config.rest.port = 0;
    assert!(config.validate().is_err());
}

#[test]
fn test_invalid_log_format() {
    let mut config = LoggingConfig::default();
    config.format = "invalid".to_string();
    assert!(config.validate().is_err());
    assert_eq!(config.validate(), Err(ConfigError::InvalidLogFormat));
}

#[test]
fn nested_sections_are_checked() {
    let mut security = SecurityConfig::default();
    security.tls = Some(TlsConfig { cert_path: "".to_string(), key_path: "k".to_string(), ca_path: None, mutual_tls: false });
    assert!(security.validate().is_err());
    let mut grpc = GrpcConfig::default();
    grpc.max_message_size = 10;
    assert!(grpc.validate().is_err());
    let mut rest = RestConfig::default();
    rest.request_timeout_secs = 301;
    assert!(rest.validate().is_err());
}
