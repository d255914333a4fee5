use nsnfind::config::{
    ends_with_u01, user_config_path, ApiConfig, Config, ConfigLocations, Credentials,
    DEFAULT_CONCURRENCY, DEFAULT_ENDPOINT, DEFAULT_TIMEOUT_SECS,
};

fn config(user_id: &str, password: &str) -> Config {
    Config {
        credentials: Credentials { user_id: user_id.to_owned(), password: password.to_owned() },
        api: ApiConfig::default(),
        source: None,
    }
}

#[test]
fn minimal_config_parses() {
    // [credentials] user_id = "ABCU01", password = "s3cret"; no [api] table.
    let cfg = config("ABCU01", "s3cret");
    assert_eq!(cfg.credentials.user_id, "ABCU01");
    assert_eq!(cfg.api.endpoint, DEFAULT_ENDPOINT);
    assert_eq!(cfg.api.concurrency, DEFAULT_CONCURRENCY);
    cfg.validate().expect("valid");
}

#[test]
fn validate_rejects_bad_user_id_suffix() {
    let cfg = config("ABCDEF", "s3cret");
    assert!(cfg.validate().is_err());
}

#[test]
fn validate_rejects_short_password() {
    let cfg = config("ABCU01", "short");
    assert!(cfg.validate().is_err());
}

#[test]
fn credentials_debug_redacts_password() {
    let c = Credentials {
        user_id: "ABCU01".into(),
        password: "topsecret".into(),
    };
    let s = c.debug_text();
    assert!(s.contains("ABCU01"));
    assert!(!s.contains("topsecret"));
    assert!(s.contains("redacted"));
    assert_eq!(s, "Credentials { user_id: \"ABCU01\", password: \"<redacted>\" }");
}

#[test]
fn default_api_settings() {
    let api = ApiConfig::default();
    assert_eq!(api.endpoint, "https://secure.ilsmart.com/services/v2/soap11");
    assert_eq!(api.concurrency, 4);
    assert_eq!(api.timeout_secs, DEFAULT_TIMEOUT_SECS);
    assert_eq!(DEFAULT_TIMEOUT_SECS, 30);
}

#[test]
fn u01_suffix_is_case_insensitive() {
    assert!(ends_with_u01("ABCU01"));
    assert!(ends_with_u01("abcu01"));
    assert!(ends_with_u01("U01"));
    assert!(!ends_with_u01("ABCU02"));
    assert!(!ends_with_u01("01"));
    assert!(config("xyzu01", "s3cret").validate().is_ok());
}

#[test]
fn validate_reports_each_problem() {
    assert_eq!(
        config("ABCDEF", "s3cret").validate().unwrap_err(),
        "credentials.user_id must end with 'U01' (got \"ABCDEF\")"
    );
    assert_eq!(
        config("ABCDEFGHU01", "s3cret").validate().unwrap_err(),
        "credentials.user_id must be at most 10 characters (got 11)"
    );
    assert_eq!(
        config("AB-CU01", "s3cret").validate().unwrap_err(),
        "credentials.user_id must be alphanumeric ASCII"
    );
    assert_eq!(
        config("ABCU01", "x".repeat(21).as_str()).validate().unwrap_err(),
        "credentials.password must be between 6 and 20 characters (got 21)"
    );
    let mut c = config("ABCU01", "s3cret");
    c.api.concurrency = 0;
    assert_eq!(c.validate().unwrap_err(), "api.concurrency must be >= 1");
    let mut c = config("ABCU01", "s3cret");
    c.api.timeout_secs = 0;
    assert_eq!(c.validate().unwrap_err(), "api.timeout_secs must be >= 1");
}

#[test]
fn user_id_length_counts_bytes() {
    // Seven characters but eleven UTF-8 bytes: the length check comes first.
    assert_eq!(
        config("ÄÖÜÄU01", "s3cret").validate().unwrap_err(),
        "credentials.user_id must be at most 10 characters (got 11)"
    );
    // Password length counts characters.
    assert!(config("ABCU01", "ääääää").validate().is_ok());
}

fn locations(explicit: Option<&str>, env: Option<&str>, local: bool, home: Option<&str>, user: bool) -> ConfigLocations {
    ConfigLocations {
        explicit: explicit.map(|s| s.to_owned()),
        env_config: env.map(|s| s.to_owned()),
        local_exists: local,
        home: home.map(|s| s.to_owned()),
        user_config_exists: user,
    }
}

#[test]
fn config_resolution_order() {
    let r = |l: ConfigLocations| Config::resolve_existing(&l);
    assert_eq!(r(locations(Some("a.toml"), Some("b.toml"), true, Some("/h"), true)).as_deref(), Some("a.toml"));
    assert_eq!(r(locations(None, Some("b.toml"), true, Some("/h"), true)).as_deref(), Some("b.toml"));
    assert_eq!(r(locations(None, Some(""), true, Some("/h"), true)).as_deref(), Some("nsnfind.toml"));
    assert_eq!(
        r(locations(None, None, false, Some("/home/me"), true)).as_deref(),
        Some("/home/me/.config/nsnfind/config.toml")
    );
    assert_eq!(r(locations(None, None, false, Some("/home/me"), false)), None);
    assert_eq!(r(locations(None, None, false, None, true)), None);
}

#[test]
fn user_config_path_joins_like_pathbuf() {
    assert_eq!(user_config_path("/home/me"), "/home/me/.config/nsnfind/config.toml");
    assert_eq!(user_config_path("/home/me/"), "/home/me/.config/nsnfind/config.toml");
    assert_eq!(user_config_path(""), ".config/nsnfind/config.toml");
}
