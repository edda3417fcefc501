use nodeindex::config::{
    default_cluster_url, default_socket_addr, entity_ids, parse_region, validate_db_and_cors,
    AppConfig, Config, ConfigError, DbConfig, Entity, ServerConfig,
};
use nodeindex::state::ConnectionState;

fn base_config() -> AppConfig {
    AppConfig {
        db: DbConfig { region: 3, token: String::from("file-token") },
        server: ServerConfig {
            socket_addr: String::from("0.0.0.0:3000"),
            cors_origin: String::new(),
        },
        resources: vec![
            Entity { id: 102, name: String::from("White Lily") },
            Entity { id: 473828668, name: String::from("Bamboo") },
        ],
        enemies: vec![Entity { id: 5, name: String::from("Goat") }],
    }
}

#[test]
fn empty_config_is_empty() {
    let c = Config::new();
    assert!(c.is_empty());
    assert_eq!(c.socket_addr(), "");
    assert_eq!(c.cors_origin(), "");
}

#[test]
fn from_env_parts_requires_region_and_token() {
    let r = Config::from_env_parts(None, None, None, None, Some(String::from("tok")));
    assert!(matches!(r, Err(ConfigError::MissingRegion)));
    let r = Config::from_env_parts(None, None, None, Some(String::from("3")), None);
    assert!(matches!(r, Err(ConfigError::MissingToken)));
}

#[test]
fn from_env_parts_fills_defaults() {
    let c = Config::from_env_parts(
        None,
        None,
        None,
        Some(String::from("3")),
        Some(String::from("tok")),
    )
    .unwrap();
    assert_eq!(c.socket_addr(), "0.0.0.0:3000");
    assert_eq!(c.cors_origin(), "");
    assert_eq!(c.cluster_url(), "https://bitcraft-early-access.spacetimedb.com");
    assert_eq!(c.region(), "3");
    assert_eq!(c.token(), "tok");
    assert!(!c.is_empty());
}

#[test]
fn from_env_parts_keeps_given_values() {
    let c = Config::from_env_parts(
        Some(String::from("127.0.0.1:8080")),
        Some(String::from("https://example.test")),
        Some(String::from("https://cluster.test")),
        Some(String::from("9")),
        Some(String::from("tok")),
    )
    .unwrap();
    assert_eq!(c.socket_addr(), "127.0.0.1:8080");
    assert_eq!(c.cors_origin(), "https://example.test");
    assert_eq!(c.cluster_url(), "https://cluster.test");
}

#[test]
fn defaults_render_as_expected() {
    assert_eq!(default_socket_addr().as_str(), "0.0.0.0:3000");
    assert_eq!(
        default_cluster_url().as_str(),
        "https://bitcraft-early-access.spacetimedb.com"
    );
}

#[test]
fn parse_region_reads_decimal() {
    assert_eq!(parse_region("0"), Ok(0));
    assert_eq!(parse_region("7"), Ok(7));
    assert_eq!(parse_region("255"), Ok(255));
}

#[test]
fn parse_region_rejects_bad_numbers() {
    assert_eq!(parse_region(""), Err(ConfigError::InvalidRegion));
    assert_eq!(parse_region("256"), Err(ConfigError::InvalidRegion));
    assert_eq!(parse_region("12a"), Err(ConfigError::InvalidRegion));
    assert_eq!(parse_region("-1"), Err(ConfigError::InvalidRegion));
    assert_eq!(parse_region("nine"), Err(ConfigError::InvalidRegion));
}

#[test]
fn validate_rejects_empty_token() {
    let r = validate_db_and_cors(&String::new(), &String::new());
    assert_eq!(r, Err(ConfigError::EmptyToken));
}

#[test]
fn validate_rejects_wildcard_origin() {
    let r = validate_db_and_cors(&String::from("tok"), &String::from("*"));
    assert_eq!(r, Err(ConfigError::AnyCorsOrigin));
}

#[test]
fn validate_accepts_normal_settings() {
    let r = validate_db_and_cors(&String::from("tok"), &String::from("https://example.test"));
    assert_eq!(r, Ok(()));
    let r = validate_db_and_cors(&String::from("tok"), &String::new());
    assert_eq!(r, Ok(()));
}

#[test]
fn apply_env_overrides_token_and_region() {
    let merged = base_config()
        .apply_env(Some(String::from("env-token")), Some(String::from("8")), None, None)
        .unwrap();
    assert_eq!(merged.db.token, "env-token");
    assert_eq!(merged.db.region, 8);
    assert_eq!(merged.server.socket_addr, "0.0.0.0:3000");
}

#[test]
fn apply_env_rejects_bad_region() {
    let r = base_config().apply_env(None, Some(String::from("ten")), None, None);
    assert!(matches!(r, Err(ConfigError::InvalidRegion)));
}

#[test]
fn apply_env_rejects_emptied_token() {
    let mut cfg = base_config();
    cfg.db.token = String::new();
    let r = cfg.apply_env(None, None, None, None);
    assert!(matches!(r, Err(ConfigError::EmptyToken)));
}

#[test]
fn apply_env_rejects_wildcard_cors() {
    let r = base_config().apply_env(None, None, None, Some(String::from("*")));
    assert!(matches!(r, Err(ConfigError::AnyCorsOrigin)));
}

#[test]
fn build_creates_stale_empty_categories() {
    let (state, db, server) = base_config().build();
    assert!(matches!(state.connection_state(), ConnectionState::CONNECTING(5)));
    assert_eq!(db.region, 3);
    assert_eq!(server.socket_addr, "0.0.0.0:3000");
    assert_eq!(state.resource_snapshot(102), Some(vec![]));
    assert_eq!(state.resource_snapshot(473828668), Some(vec![]));
    assert_eq!(state.enemy_snapshot(5), Some(vec![]));
    assert_eq!(state.resource_snapshot(999), None);
    assert!(matches!(
        state.resource_state(102),
        Some(nodeindex::index::DataState::STALE)
    ));
}

#[test]
fn entity_ids_keeps_order() {
    let cfg = base_config();
    let ids = entity_ids(&cfg.resources);
    assert_eq!(ids, vec![102, 473828668]);
}
