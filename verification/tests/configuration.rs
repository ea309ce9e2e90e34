use service_flow::config::{
    default_theme, get_config, init, save_config, update_config, Config, ConfigManager,
    RetryConfig, ServiceGroup, Settings, StartupStrategy, TimeoutConfig, DEFAULT_SERVER_PORT,
};
use service_flow::database::{connection_string, health_row, status_column};
use service_flow::web::WebServer;

fn sample() -> Config {
    Config {
        settings: Settings { server_port: 9000, auto_start: true, theme: "dark".to_string() },
        groups: Vec::new(),
        applications: Vec::new(),
    }
}

#[test]
fn default_config_is_empty_with_stock_settings() {
    let config = Config::default();
    assert_eq!(config.settings.server_port, 8899);
    assert_eq!(DEFAULT_SERVER_PORT, 8899);
    assert!(!config.settings.auto_start);
    assert_eq!(config.settings.theme, "system");
    assert_eq!(default_theme(), "system");
    assert!(config.groups.is_empty());
    assert!(config.applications.is_empty());
}

#[test]
fn default_retry_and_timeouts() {
    let retry = RetryConfig::default();
    assert!(!retry.enabled);
    assert_eq!(retry.max_retries, 3);
    assert_eq!(retry.retry_delay, 1000);
    assert_eq!(retry.backoff_multiplier.map(f32::from_bits), Some(2.0));
    let limits = TimeoutConfig::default();
    assert_eq!(limits.start_timeout, 30000);
    assert_eq!(limits.stop_timeout, 10000);
    assert_eq!(limits.health_check_timeout, 5000);
}

#[test]
fn manager_starts_from_the_store_or_from_the_default() {
    let stored = ConfigManager::new("/data/config.json", Some(sample()));
    assert_eq!(stored.get().settings.server_port, 9000);
    let (path, config) = stored.save();
    assert_eq!(path, "/data/config.json");
    assert_eq!(config.settings.theme, "dark");
    let fresh = ConfigManager::new("/data/config.json", None);
    assert_eq!(fresh.get().settings.server_port, 8899);
    assert_eq!(ConfigManager::load(None).settings.theme, "system");
    assert_eq!(ConfigManager::load(Some(sample())).settings.theme, "dark");
}

#[test]
fn manager_set_replaces_the_snapshot() {
    let mut manager = ConfigManager::new("c.json", None);
    manager.set(sample());
    assert!(manager.get().settings.auto_start);
    assert_eq!(manager.save().0, "c.json");
}

#[test]
fn slot_functions_follow_the_installed_manager() {
    let mut slot: Option<ConfigManager> = None;
    assert!(get_config(&slot).is_none());
    assert!(save_config(&slot).is_none());
    assert!(update_config(&mut slot, sample()).is_none());
    assert!(slot.is_none());
    init(&mut slot, "store.json", None);
    assert_eq!(get_config(&slot).map(|c| c.settings.server_port), Some(8899));
    let written = update_config(&mut slot, sample()).map(|(p, c)| (p.to_string(), c.settings.server_port));
    assert_eq!(written, Some(("store.json".to_string(), 9000)));
    assert_eq!(save_config(&slot).map(|(p, _)| p.to_string()), Some("store.json".to_string()));
    init(&mut slot, "other.json", Some(Config::default()));
    assert_eq!(save_config(&slot).map(|(p, c)| (p.to_string(), c.settings.server_port)), Some(("other.json".to_string(), 8899)));
}

#[test]
fn absent_strategy_means_sequential() {
    let mut group = ServiceGroup {
        id: "g".to_string(),
        name: "g".to_string(),
        description: None,
        startup_delay: 0,
        application_id: None,
        services: Vec::new(),
        order: 0,
        dependencies: Vec::new(),
        startup_strategy: None,
    };
    assert_eq!(group.effective_strategy(), StartupStrategy::Sequential);
    group.startup_strategy = Some(StartupStrategy::Mixed);
    assert_eq!(group.effective_strategy(), StartupStrategy::Mixed);
}

#[test]
fn web_server_keeps_its_port() {
    assert_eq!(WebServer::new(8899).port(), 8899);
    assert_eq!(WebServer::new(0).port(), 0);
}

#[test]
fn connection_string_normalizes_backslashes() {
    assert_eq!(
        connection_string("C:\\Users\\me\\service-flow.db"),
        "sqlite:C:/Users/me/service-flow.db?mode=rwc"
    );
    assert_eq!(connection_string("/var/lib/sf.db"), "sqlite:/var/lib/sf.db?mode=rwc");
    assert_eq!(connection_string(""), "sqlite:?mode=rwc");
    assert_eq!(connection_string("dönér\\ü"), "sqlite:dönér/ü?mode=rwc");
}

#[test]
fn health_rows_read_as_status_and_message() {
    assert_eq!(health_row(1, Some("ok".to_string())), (true, "ok".to_string()));
    assert_eq!(health_row(0, None), (false, String::new()));
    assert_eq!(health_row(-3, None), (true, String::new()));
    assert_eq!(status_column(true), 1);
    assert_eq!(status_column(false), 0);
}

#[test]
fn a_copy_of_a_typed_declaration_keeps_its_settings() {
    let mut settings = serde_json::Map::new();
    settings.insert("path".to_string(), serde_json::Value::String("/healthz".to_string()));
    settings.insert("expect".to_string(), serde_json::Value::from(200u64));
    let declared = service_flow::config::HealthCheckConfig {
        enabled: true,
        kind: "http".to_string(),
        config: serde_json::Value::Object(settings),
        interval: 10,
        timeout: 2,
        retries: 3,
        failure_threshold: 2,
        success_threshold: 1,
        start_period: Some(5),
    };
    let copy = declared.clone();
    assert_eq!(copy.config, declared.config);
    assert_eq!(copy.config["path"], serde_json::Value::String("/healthz".to_string()));
    assert_eq!(copy.config["expect"].as_u64(), Some(200));
    assert_eq!(copy.kind, "http");
    assert_eq!(copy.start_period, Some(5));
}
