use cyberscope::config::{bind_address, Config, ConfigError, ConfigSource};

fn source(values: &[(&str, &str)]) -> ConfigSource {
    let get = |name: &str| {
        values
            .iter()
            .find(|(key, _)| *key == name)
            .map(|(_, value)| (*value).to_owned())
    };
    ConfigSource {
        fofa_api_key: get("FOFA_API_KEY"),
        fofa_api_base_url: get("FOFA_API_BASE_URL"),
        fofa_relay_quota_enabled: get("FOFA_RELAY_QUOTA_ENABLED"),
        web_bind_address: get("WEB_BIND_ADDRESS"),
        web_admin_username: get("WEB_ADMIN_USERNAME"),
        web_admin_password: get("WEB_ADMIN_PASSWORD"),
        database_path: get("DATABASE_PATH"),
    }
}

/// The bind addresses these tests use, and whether each parses as a socket
/// address.
fn bind_valid(address: &str) -> bool {
    match address {
        "127.0.0.1:3000" | "0.0.0.0:8080" => true,
        "bad" => false,
        other => panic!("unexpected address {other}"),
    }
}

fn config(values: &[(&str, &str)]) -> Result<Config, ConfigError> {
    let mut all: Vec<(&str, &str)> = values.to_vec();
    if !values.iter().any(|(key, _)| *key == "WEB_ADMIN_PASSWORD") {
        all.push(("WEB_ADMIN_PASSWORD", "correct horse battery staple"));
    }
    let source = source(&all);
    let valid = bind_valid(&bind_address(&source));
    Config::from_source(&source, valid)
}

#[test]
fn parses_web_configuration() {
    let config = config(&[
        ("FOFA_API_KEY", "fofa-key"),
        ("WEB_BIND_ADDRESS", "0.0.0.0:8080"),
        ("DATABASE_PATH", "data"),
    ])
    .unwrap();

    assert_eq!(config.fofa_api_key, "fofa-key");
    assert_eq!(config.web_bind_address, "0.0.0.0:8080");
    assert_eq!(config.database_path, "data");
    assert!(!config.relay_quota_enabled);
    assert_eq!(config.fofa_api_base_url, "https://fofa.info/");
    assert_eq!(config.web_admin_username, "admin");
}

#[test]
fn missing_key_is_rejected() {
    assert_eq!(
        config(&[]).map(|_| ()).unwrap_err(),
        ConfigError::Missing("FOFA_API_KEY")
    );
}

#[test]
fn relay_quota_requires_custom_endpoint() {
    assert_eq!(
        config(&[
            ("FOFA_API_KEY", "key"),
            ("FOFA_RELAY_QUOTA_ENABLED", "true"),
        ])
        .map(|_| ()).unwrap_err(),
        ConfigError::RelayQuotaBaseUrl
    );

    let config = config(&[
        ("FOFA_API_KEY", "key"),
        ("FOFA_API_BASE_URL", "https://relay.example.invalid"),
        ("FOFA_RELAY_QUOTA_ENABLED", "true"),
    ])
    .unwrap();
    assert!(config.relay_quota_enabled);
}

#[test]
fn invalid_web_bind_address_is_rejected() {
    assert_eq!(
        config(&[("FOFA_API_KEY", "key"), ("WEB_BIND_ADDRESS", "bad")]).map(|_| ()).unwrap_err(),
        ConfigError::InvalidWebBindAddress
    );
}

#[test]
fn empty_database_path_is_rejected() {
    assert_eq!(
        config(&[("FOFA_API_KEY", "key"), ("DATABASE_PATH", " ")]).map(|_| ()).unwrap_err(),
        ConfigError::InvalidDatabasePath
    );
}

#[test]
fn booleans_base_urls_and_credentials_are_checked() {
    assert_eq!(
        config(&[("FOFA_API_KEY", "key"), ("FOFA_RELAY_QUOTA_ENABLED", "maybe")]).map(|_| ()).unwrap_err(),
        ConfigError::InvalidBoolean("FOFA_RELAY_QUOTA_ENABLED")
    );
    assert!(config(&[("FOFA_API_KEY", "key"), ("FOFA_RELAY_QUOTA_ENABLED", " OFF ")]).is_ok());
    assert_eq!(
        config(&[("FOFA_API_KEY", "key"), ("FOFA_API_BASE_URL", "http://fofa.info")]).map(|_| ()).unwrap_err(),
        ConfigError::InvalidBaseUrl
    );
    assert_eq!(
        config(&[("FOFA_API_KEY", "key"), ("FOFA_API_BASE_URL", "https://x.example/api")])
            .map(|_| ()).unwrap_err(),
        ConfigError::InvalidBaseUrl
    );
    assert_eq!(
        config(&[("FOFA_API_KEY", "key"), ("WEB_ADMIN_PASSWORD", "short")]).map(|_| ()).unwrap_err(),
        ConfigError::WeakAdminPassword(8)
    );
    assert_eq!(
        config(&[("FOFA_API_KEY", "key"), ("WEB_ADMIN_PASSWORD", "   ")]).map(|_| ()).unwrap_err(),
        ConfigError::Missing("WEB_ADMIN_PASSWORD")
    );
    assert_eq!(
        config(&[("FOFA_API_KEY", "key"), ("WEB_ADMIN_USERNAME", "  ")]).map(|_| ()).unwrap_err(),
        ConfigError::InvalidAdminUsername
    );
    assert_eq!(
        ConfigError::WeakAdminPassword(8).message(),
        "WEB_ADMIN_PASSWORD 至少需要 8 个字符"
    );
}
