use superbook_pdf::auth::{extract_api_key, AuthError, AuthResult, AuthStatusResponse, Scope};
use superbook_pdf::batch::{BatchProgress, BatchStatus, Priority};
use superbook_pdf::cors::CorsConfig;
use superbook_pdf::metrics::MetricsCollector;
use superbook_pdf::persistence::{HistoryQuery, PersistenceConfig, RecoveryResult, StorageBackend};
use superbook_pdf::server::{
    AppError, ServerConfig, WebServer, DEFAULT_BIND, DEFAULT_JOB_TIMEOUT, DEFAULT_PORT, DEFAULT_UPLOAD_LIMIT,
};
use superbook_pdf::shutdown::{shutdown_step, ShutdownConfig, ShutdownResult};

#[test]
fn test_default_constants() {
    assert_eq!(DEFAULT_PORT, 8080);
    assert_eq!(DEFAULT_BIND, "127.0.0.1");
    assert_eq!(DEFAULT_UPLOAD_LIMIT, 500 * 1024 * 1024);
    assert_eq!(DEFAULT_JOB_TIMEOUT, 3600);
}

#[test]
fn test_cors_config_default() {
    let config = CorsConfig::default();
    assert!(config.enabled);
    assert!(config.allowed_origins.is_none());
    assert!(config.allowed_methods.contains(&"GET".to_string()));
    assert!(config.allowed_methods.contains(&"POST".to_string()));
    assert!(config.allowed_headers.contains(&"Content-Type".to_string()));
    assert!(!config.allow_credentials);
    assert_eq!(config.max_age_secs, 86400);
}

#[test]
fn test_cors_config_permissive() {
    let config = CorsConfig::permissive();
    assert!(config.enabled);
    assert!(config.allowed_origins.is_none());
    assert!(config.allowed_headers.contains(&"*".to_string()));
    assert!(config.allow_credentials);
}

#[test]
fn test_cors_config_strict() {
    let origins = vec!["https://example.com".to_string()];
    let config = CorsConfig::strict(origins);
    assert!(config.enabled);
    assert!(config.allowed_origins.is_some());
    assert_eq!(config.allowed_origins.as_ref().unwrap()[0], "https://example.com");
    assert!(!config.allow_credentials);
}

#[test]
fn test_cors_config_disabled() {
    let config = CorsConfig::disabled();
    assert!(!config.enabled);
}

#[test]
fn test_cors_is_origin_allowed() {
    let config = CorsConfig::default();
    assert!(config.is_origin_allowed("https://example.com"));
    assert!(config.is_origin_allowed("http://localhost:3000"));
    let config = CorsConfig::strict(vec!["https://example.com".to_string(), "https://app.example.com".to_string()]);
    assert!(config.is_origin_allowed("https://example.com"));
    assert!(config.is_origin_allowed("https://app.example.com"));
    assert!(!config.is_origin_allowed("https://other.com"));
    let config = CorsConfig::disabled();
    assert!(!config.is_origin_allowed("https://example.com"));
}

#[test]
fn test_cors_is_method_allowed() {
    let config = CorsConfig::default();
    assert!(config.is_method_allowed("GET"));
    assert!(config.is_method_allowed("get"));
    assert!(config.is_method_allowed("POST"));
    assert!(!config.is_method_allowed("PATCH"));
    let config = CorsConfig::permissive();
    assert!(config.is_method_allowed("PATCH"));
    let config = CorsConfig::disabled();
    assert!(!config.is_method_allowed("GET"));
}

#[test]
fn test_cors_is_header_allowed() {
    let config = CorsConfig::default();
    assert!(config.is_header_allowed("Content-Type"));
    assert!(config.is_header_allowed("content-type"));
    assert!(config.is_header_allowed("Authorization"));
    assert!(config.is_header_allowed("X-API-Key"));
    assert!(!config.is_header_allowed("X-Custom-Header"));
    let config = CorsConfig::permissive();
    assert!(config.is_header_allowed("X-Custom-Header"));
    let config = CorsConfig::disabled();
    assert!(!config.is_header_allowed("Content-Type"));
}

#[test]
fn test_cors_credentials() {
    let config = CorsConfig::default();
    assert!(!config.allow_credentials);
    let config = CorsConfig::permissive();
    assert!(config.allow_credentials);
    let config = CorsConfig::default().with_credentials(true);
    assert!(config.allow_credentials);
}

#[test]
fn test_cors_max_age() {
    let config = CorsConfig::default();
    assert_eq!(config.max_age_secs, 86400);
    let config = CorsConfig::strict(vec![]);
    assert_eq!(config.max_age_secs, 3600);
    let config = CorsConfig::default().with_max_age(7200);
    assert_eq!(config.max_age_secs, 7200);
}

#[test]
fn test_cors_builder_methods() {
    let config = CorsConfig::default()
        .with_origin("https://custom.com")
        .with_method("PATCH")
        .with_header("X-Custom")
        .with_credentials(true)
        .with_max_age(1800);
    assert!(config.allowed_origins.is_some());
    assert!(config.allowed_origins.as_ref().unwrap().contains(&"https://custom.com".to_string()));
    assert!(config.allowed_methods.contains(&"PATCH".to_string()));
    assert!(config.allowed_headers.contains(&"X-Custom".to_string()));
    assert!(config.allow_credentials);
    assert_eq!(config.max_age_secs, 1800);
}

#[test]
fn cors_wildcard_origin_allows_all() {
    let config = CorsConfig::strict(vec!["*".to_string()]);
    assert!(config.is_origin_allowed("https://anything.example"));
    assert!(!config.is_method_allowed("GETS"));
}

#[test]
fn test_validate_missing_key() {
    let result = extract_api_key(None, None);
    assert!(result.is_none());
}

#[test]
fn test_scope_includes() {
    assert!(Scope::Admin.includes(Scope::Read));
    assert!(Scope::Admin.includes(Scope::Write));
    assert!(Scope::Admin.includes(Scope::Admin));
    assert!(Scope::Write.includes(Scope::Read));
    assert!(Scope::Write.includes(Scope::Write));
    assert!(!Scope::Write.includes(Scope::Admin));
    assert!(Scope::Read.includes(Scope::Read));
    assert!(!Scope::Read.includes(Scope::Write));
    assert!(!Scope::Read.includes(Scope::Admin));
}

#[test]
fn test_extract_bearer_token() {
    let key = extract_api_key(Some("Bearer my-api-key"), None);
    assert_eq!(key, Some("my-api-key".to_string()));
}

#[test]
fn test_extract_x_api_key() {
    let key = extract_api_key(None, Some("my-api-key"));
    assert_eq!(key, Some("my-api-key".to_string()));
}

#[test]
fn test_extract_prefers_bearer() {
    let key = extract_api_key(Some("Bearer bearer-key"), Some("x-api-key"));
    assert_eq!(key, Some("bearer-key".to_string()));
}

#[test]
fn extract_ignores_other_schemes() {
    assert_eq!(extract_api_key(Some("Basic abc"), Some("k")), Some("k".to_string()));
    assert_eq!(extract_api_key(Some("Basic abc"), None), None);
}

#[test]
fn test_auth_status_response_authenticated() {
    let response = AuthStatusResponse::authenticated("my-key".to_string(), vec![Scope::Read, Scope::Write]);
    assert!(response.authenticated);
    assert_eq!(response.key_name, Some("my-key".to_string()));
    assert!(response.scopes.is_some());
}

#[test]
fn test_auth_status_response_unauthenticated() {
    let response = AuthStatusResponse::unauthenticated(true);
    assert!(!response.authenticated);
    assert_eq!(response.auth_required, Some(true));
    assert!(response.message.is_some());
}

#[test]
fn test_auth_error_unauthorized() {
    let error = AuthError::unauthorized();
    assert_eq!(error.error, "unauthorized");
}

#[test]
fn test_auth_error_forbidden() {
    let error = AuthError::forbidden();
    assert_eq!(error.error, "forbidden");
}

#[test]
fn test_auth_error_expired() {
    let error = AuthError::expired();
    assert_eq!(error.error, "unauthorized");
    assert!(error.message.contains("expired"));
}

#[test]
fn auth_result_queries() {
    let ok = AuthResult::Authenticated { key_name: "k1".to_string(), scopes: vec![Scope::Read] };
    assert!(ok.is_authenticated());
    assert_eq!(ok.key_name(), Some("k1"));
    assert!(AuthResult::Disabled.is_authenticated());
    assert!(!AuthResult::Missing.is_authenticated());
    assert_eq!(AuthResult::Expired.key_name(), None);
}

#[test]
fn test_priority_values() {
    assert!(Priority::High.value() > Priority::Normal.value());
    assert!(Priority::Normal.value() > Priority::Low.value());
}

#[test]
fn test_batch_progress() {
    let mut progress = BatchProgress::new(10);
    assert_eq!(progress.total, 10);
    assert_eq!(progress.pending, 10);
    assert_eq!(progress.percent(), 0);
    assert!(!progress.is_complete());
    progress.completed = 5;
    progress.pending = 5;
    assert_eq!(progress.percent(), 50);
    progress.completed = 8;
    progress.failed = 2;
    progress.pending = 0;
    assert_eq!(progress.percent(), 80);
    assert!(progress.is_complete());
}

#[test]
fn test_empty_batch_progress() {
    let progress = BatchProgress::new(0);
    assert_eq!(progress.percent(), 100);
    assert!(progress.is_complete());
}

#[test]
fn test_batch_status_display() {
    assert_eq!(BatchStatus::Queued.to_string(), "queued");
    assert_eq!(BatchStatus::Processing.to_string(), "processing");
    assert_eq!(BatchStatus::Completed.to_string(), "completed");
    assert_eq!(BatchStatus::PartiallyCompleted.to_string(), "partially_completed");
    assert_eq!(BatchStatus::Failed.to_string(), "failed");
    assert_eq!(BatchStatus::Cancelled.to_string(), "cancelled");
}

#[test]
fn test_priority_default() {
    let priority = Priority::default();
    assert_eq!(priority, Priority::Normal);
}

#[test]
fn batch_percent_rounds_down() {
    let mut progress = BatchProgress::new(3);
    progress.completed = 1;
    assert_eq!(progress.percent(), 33);
}

#[test]
fn test_shutdown_config_default() {
    let config = ShutdownConfig::default();
    assert_eq!(config.timeout_secs, 30);
    assert!(config.wait_for_jobs);
    assert_eq!(config.ws_drain_ms, 1000);
}

#[test]
fn test_shutdown_config_quick() {
    let config = ShutdownConfig::quick();
    assert_eq!(config.timeout_secs, 5);
    assert!(!config.wait_for_jobs);
    assert_eq!(config.ws_drain_ms, 100);
}

#[test]
fn test_shutdown_config_with_timeout() {
    let config = ShutdownConfig::with_timeout(60);
    assert_eq!(config.timeout_secs, 60);
    assert!(config.wait_for_jobs);
}

#[test]
fn test_shutdown_result_variants() {
    let success = ShutdownResult::Success;
    assert!(success.is_success());
    assert_eq!(success.pending_jobs(), None);
    let timeout = ShutdownResult::Timeout { pending_jobs: 3 };
    assert!(!timeout.is_success());
    assert_eq!(timeout.pending_jobs(), Some(3));
    let error = ShutdownResult::Error("test error".to_string());
    assert!(!error.is_success());
    assert_eq!(error.pending_jobs(), None);
}

#[test]
fn shutdown_steps() {
    let config = ShutdownConfig::default();
    assert_eq!(shutdown_step(&config, 0, false), Some(ShutdownResult::Success));
    assert_eq!(shutdown_step(&config, 2, false), None);
    assert_eq!(shutdown_step(&config, 2, true), Some(ShutdownResult::Timeout { pending_jobs: 2 }));
    assert_eq!(shutdown_step(&ShutdownConfig::quick(), 2, false), Some(ShutdownResult::Success));
}

#[test]
fn test_server_config_default() {
    let config = ServerConfig::default();
    assert_eq!(config.port, 8080);
    assert_eq!(config.bind, "127.0.0.1");
    assert_eq!(config.upload_limit, 500 * 1024 * 1024);
    assert!(config.workers > 0);
}

#[test]
fn server_test_server_config_builder() {
    let config = ServerConfig::default().with_port(3000).with_bind("0.0.0.0").with_upload_limit(100 * 1024 * 1024);
    assert_eq!(config.port, 3000);
    assert_eq!(config.bind, "0.0.0.0");
    assert_eq!(config.upload_limit, 100 * 1024 * 1024);
}

#[test]
fn test_web_server_new() {
    let server = WebServer::new();
    assert_eq!(server.config().port, 8080);
}

#[test]
fn test_web_server_with_config() {
    let config = ServerConfig::default().with_port(9000);
    let server = WebServer::with_config(config);
    assert_eq!(server.config().port, 9000);
}

#[test]
fn app_error_codes() {
    assert_eq!(AppError::BadRequest("x".to_string()).status_code(), 400);
    assert_eq!(AppError::NotFound("x".to_string()).status_code(), 404);
    assert_eq!(AppError::Conflict("x".to_string()).status_code(), 409);
    assert_eq!(AppError::Internal("x".to_string()).status_code(), 500);
}

#[test]
fn test_persistence_config_default() {
    let config = PersistenceConfig::default();
    assert!(!config.enabled);
    assert_eq!(config.backend, StorageBackend::Json);
    assert_eq!(config.auto_save_interval, 30);
    assert_eq!(config.retention_days, 30);
}

#[test]
fn test_persistence_config_enabled() {
    let config = PersistenceConfig::enabled();
    assert!(config.enabled);
}

#[test]
fn test_persistence_config_builder() {
    let config = PersistenceConfig::enabled().with_path("/custom/path").with_backend(StorageBackend::Sqlite);
    assert!(config.enabled);
    assert_eq!(config.storage_path, "/custom/path");
    assert_eq!(config.backend, StorageBackend::Sqlite);
}

#[test]
fn test_storage_backend_default() {
    assert_eq!(StorageBackend::default(), StorageBackend::Json);
}

#[test]
fn test_history_query_default() {
    let query = HistoryQuery::default();
    assert_eq!(query.limit, 50);
    assert_eq!(query.offset, 0);
    assert!(query.status.is_none());
}

#[test]
fn test_recovery_result_default() {
    let result = RecoveryResult::default();
    assert_eq!(result.recovered, 0);
    assert_eq!(result.requeued, 0);
    assert_eq!(result.failed, 0);
}

#[test]
fn test_format_prometheus() {
    let mut collector = MetricsCollector::new();
    collector.record_job_started();
    collector.record_job_completed(1000, 5);
    let output = collector.format_prometheus(2, 3, 4, 0);
    assert!(output.contains("superbook_jobs_total{status=\"completed\"} 1"));
    assert!(output.contains("superbook_pages_processed_total 5"));
    assert!(output.contains("superbook_websocket_connections 3"));
    assert!(output.contains("superbook_workers 4"));
    assert!(output.contains("superbook_avg_processing_seconds 1.00"));
    assert!(output.contains("superbook_jobs_total{status=\"queued\"} 2"));
}

#[test]
fn test_batch_statistics() {
    let mut collector = MetricsCollector::new();
    collector.record_batch_started();
    collector.record_batch_started();
    let stats = collector.get_batch_statistics();
    assert_eq!(stats.total, 2);
    assert_eq!(stats.processing, 2);
    collector.record_batch_completed();
    let stats = collector.get_batch_statistics();
    assert_eq!(stats.completed, 1);
    assert_eq!(stats.processing, 1);
}

#[test]
fn uptime_and_average() {
    let mut collector = MetricsCollector::new();
    collector.started_at_secs = 100;
    assert_eq!(collector.get_uptime(160), 60);
    assert_eq!(collector.get_uptime(50), 0);
    collector.record_job_started();
    collector.record_job_completed(1234, 1);
    collector.record_job_started();
    collector.record_job_failed();
    let stats = collector.get_job_statistics(7);
    assert_eq!(stats.failed_jobs, 1);
    assert_eq!(stats.active_jobs, 0);
    let text = collector.format_prometheus(0, 0, 1, 130);
    assert!(text.contains("superbook_avg_processing_seconds 1.23\n"));
    assert!(text.contains("superbook_uptime_seconds 30\n"));
    let info = collector.get_server_info("1.2.3", 130);
    assert_eq!(info.version, "1.2.3");
    assert_eq!(info.uptime_seconds, 30);
}
