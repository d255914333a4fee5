use nsnfind::cli::{
    check_entries, config_path_to_show, default_log_filter, default_user_config_path,
    parse_config_document, parse_dataset, password_from_line, render_config_show, resolve_write_target, ConfigDoc,
    ConfigSetArgs, Section,
};
use nsnfind::config::{ApiConfig, Config, ConfigLocations, Credentials};
use nsnfind::nsn::parse_nsn_list;
use nsnfind::soap::government::Dataset;
use nsnfind::toml_doc::{TomlTable, TomlValue};

#[test]
fn dataset_values() {
    assert_eq!(parse_dataset(" mcrl "), Ok(Dataset::Mcrl));
    assert_eq!(parse_dataset("PH"), Ok(Dataset::Ph));
    assert_eq!(parse_dataset("  "), Err("empty dataset value".to_owned()));
    assert_eq!(parse_dataset(" xyz "), Err("unknown dataset \"xyz\"".to_owned()));
}

#[test]
fn log_filters() {
    assert_eq!(default_log_filter(0), "nsnfind=warn");
    assert_eq!(default_log_filter(1), "nsnfind=info");
    assert_eq!(default_log_filter(2), "nsnfind=debug");
    assert_eq!(default_log_filter(9), "nsnfind=trace");
}

#[test]
fn password_line_endings_are_stripped() {
    assert_eq!(password_from_line("s3cret\r\n"), Ok("s3cret".to_owned()));
    assert_eq!(password_from_line("a b \n\n"), Ok("a b ".to_owned()));
    assert_eq!(password_from_line("\r\n"), Err("empty password on stdin".to_owned()));
    assert_eq!(password_from_line(""), Err("empty password on stdin".to_owned()));
}

fn loc(explicit: Option<&str>, env: Option<&str>, local: bool, home: Option<&str>, user: bool) -> ConfigLocations {
    ConfigLocations {
        explicit: explicit.map(|s| s.to_owned()),
        env_config: env.map(|s| s.to_owned()),
        local_exists: local,
        home: home.map(|s| s.to_owned()),
        user_config_exists: user,
    }
}

#[test]
fn write_target_and_shown_path() {
    assert_eq!(resolve_write_target(&loc(None, Some(""), false, Some("/h"), false)), Ok("/h/.config/nsnfind/config.toml".to_owned()));
    assert_eq!(resolve_write_target(&loc(None, None, true, None, false)), Ok("nsnfind.toml".to_owned()));
    assert_eq!(
        resolve_write_target(&loc(None, None, false, None, false)),
        Err("cannot determine config path; set $HOME or pass --config".to_owned())
    );
    assert_eq!(config_path_to_show(&loc(None, None, false, Some("/h"), false)), Ok("/h/.config/nsnfind/config.toml".to_owned()));
    assert_eq!(config_path_to_show(&loc(Some("x"), None, false, None, false)), Ok("x".to_owned()));
    assert!(config_path_to_show(&loc(None, None, false, None, false)).is_err());
    assert_eq!(default_user_config_path(&None), None);
}

#[test]
fn config_show_redacts_password() {
    let cfg = Config {
        credentials: Credentials { user_id: "ABCU01".to_owned(), password: "topsecret".to_owned() },
        api: ApiConfig::default(),
        source: Some("/tmp/c.toml".to_owned()),
    };
    let text = render_config_show(&cfg);
    assert_eq!(
        text,
        "# config: /tmp/c.toml\n[credentials]\nuser_id = \"ABCU01\"\npassword = \"<redacted>\"\n\n[api]\nendpoint = \"https://secure.ilsmart.com/services/v2/soap11\"\nconcurrency = 4\ntimeout_secs = 30\n"
    );
    assert!(!text.contains("topsecret"));
}

#[test]
fn entry_tally() {
    let entries = parse_nsn_list("012345678\nBAD\n# c\n4730012345678\n");
    assert_eq!(check_entries(&entries), Ok((2, 1)));
    let none = parse_nsn_list("# nothing\n");
    assert_eq!(
        check_entries(&none),
        Err("input file contains no NSNs (after stripping blanks and comments)".to_owned())
    );
}

fn set_args() -> ConfigSetArgs {
    ConfigSetArgs {
        user_id: None,
        password: None,
        password_stdin: false,
        endpoint: None,
        concurrency: None,
        timeout_secs: None,
    }
}

#[test]
fn config_set_on_empty_document() {
    let mut doc = ConfigDoc { credentials: None, api: None };
    let mut set = set_args();
    set.user_id = Some("ABCU01".to_owned());
    set.concurrency = Some(8);
    doc.apply(set, Some("s3cret".to_owned()));
    assert_eq!(doc.validate(), Ok(()));
    assert_eq!(
        doc.to_toml_string(),
        "# ILSmart CLI configuration\n\
# Generated by `ils config set`. Free-form edits are preserved on load\n\
# but will be rewritten (without comments) on the next `config set`.\n\
\n\
[credentials]\n\
password = \"s3cret\"\n\
user_id = \"ABCU01\"\n\
\n\
[api]\n\
endpoint = \"https://secure.ilsmart.com/services/v2/soap11\"\n\
concurrency = 8\n\
timeout_secs = 30\n"
    );
    assert_eq!(doc.checked_toml_text(), Ok(doc.to_toml_string()));
}

#[test]
fn config_set_refuses_invalid_documents() {
    let doc = ConfigDoc { credentials: None, api: None };
    assert_eq!(doc.validate(), Err("[credentials] section is required".to_owned()));
    let mut doc = ConfigDoc { credentials: Some(Section::NotTable), api: None };
    assert!(doc.checked_toml_text().is_err());
    let mut set = set_args();
    set.user_id = Some("abcu01".to_owned());
    doc.apply(set, None);
    assert_eq!(doc.validate(), Err("credentials.password is required".to_owned()));
    let mut set = set_args();
    set.timeout_secs = Some(0);
    doc.apply(set, Some("short".to_owned()));
    assert_eq!(
        doc.validate(),
        Err("credentials.password must be between 6 and 20 characters".to_owned())
    );
    let mut set = set_args();
    set.user_id = Some("BADUSER".to_owned());
    doc.apply(set, Some("longenough".to_owned()));
    assert_eq!(
        doc.validate(),
        Err("credentials.user_id must end with 'U01' (case-insensitive); got \"BADUSER\"".to_owned())
    );
    let mut set = set_args();
    set.user_id = Some("ABCDEFGHU01".to_owned());
    doc.apply(set, None);
    assert_eq!(
        doc.validate(),
        Err("credentials.user_id must be <= 10 alphanumeric ASCII chars".to_owned())
    );
    let mut set = set_args();
    set.user_id = Some("ABCU01".to_owned());
    doc.apply(set, None);
    assert_eq!(doc.validate(), Err("api.timeout_secs must be >= 1".to_owned()));
    let mut set = set_args();
    set.concurrency = Some(usize::MAX);
    set.timeout_secs = Some(5);
    doc.apply(set, None);
    assert_eq!(doc.validate(), Err("api.concurrency must be >= 1".to_owned()));
}

#[test]
fn config_doc_keeps_other_keys_sorted() {
    let mut creds = TomlTable::new();
    creds.insert("zeta".to_owned(), TomlValue::Boolean(true));
    creds.insert("alpha".to_owned(), TomlValue::Other("1.5".to_owned()));
    creds.insert("user_id".to_owned(), TomlValue::Integer(-3));
    let mut api = TomlTable::new();
    api.insert("endpoint".to_owned(), TomlValue::Text("http://x/\"q\"".to_owned()));
    let mut doc = ConfigDoc { credentials: Some(Section::Table(creds)), api: Some(Section::Table(api)) };
    assert_eq!(doc.validate(), Err("credentials.user_id is required".to_owned()));
    let mut set = set_args();
    set.user_id = Some("ABCU01".to_owned());
    doc.apply(set, Some("s3cret!".to_owned()));
    assert_eq!(doc.validate(), Ok(()));
    let text = doc.to_toml_string();
    assert!(text.contains(
        "[credentials]\nalpha = 1.5\npassword = \"s3cret!\"\nuser_id = \"ABCU01\"\nzeta = true\n\n[api]\n"
    ));
    assert!(text.ends_with("endpoint = \"http://x/\\\"q\\\"\"\nconcurrency = 4\ntimeout_secs = 30\n"));
}

#[test]
fn toml_table_insert_replaces() {
    let mut t = TomlTable::new();
    t.insert("b".to_owned(), TomlValue::Integer(1));
    t.insert("a".to_owned(), TomlValue::Integer(2));
    t.insert("b".to_owned(), TomlValue::Integer(3));
    assert_eq!(t.len(), 2);
    assert!(matches!(t.get("b"), Some(TomlValue::Integer(3))));
    assert!(matches!(t.get("a"), Some(TomlValue::Integer(2))));
    assert!(t.get("c").is_none());
    assert_eq!(t.entry(0).0, "a");
}

fn table_of(s: &Option<Section>) -> &TomlTable {
    match s {
        Some(Section::Table(t)) => t,
        _ => panic!("not a table"),
    }
}

#[test]
fn config_document_is_read_from_toml() {
    let doc = parse_config_document(
        "title = \"x\"\n[credentials]\nuser_id = \"ABCU01\"\npassword = \"s3cret!\"\n\
         [api]\nconcurrency = 8\nratio = 1.5\nverbose = true\nhosts = [1, 2]\n",
    )
    .unwrap();
    let c = table_of(&doc.credentials);
    assert_eq!(c.len(), 2);
    assert!(matches!(c.get("user_id"), Some(TomlValue::Text(s)) if s == "ABCU01"));
    assert!(matches!(c.get("password"), Some(TomlValue::Text(s)) if s == "s3cret!"));
    let a = table_of(&doc.api);
    assert_eq!(a.len(), 4);
    assert!(matches!(a.get("concurrency"), Some(TomlValue::Integer(8))));
    assert!(matches!(a.get("ratio"), Some(TomlValue::Other(s)) if s == "1.5"));
    assert!(matches!(a.get("verbose"), Some(TomlValue::Boolean(true))));
    assert!(matches!(a.get("hosts"), Some(TomlValue::Other(_))));
    assert_eq!(doc.validate(), Ok(()));
}

#[test]
fn config_document_sections_that_are_not_tables() {
    let doc = parse_config_document("credentials = 5\n").unwrap();
    assert!(matches!(doc.credentials, Some(Section::NotTable)));
    assert!(doc.api.is_none());
    let doc = parse_config_document("").unwrap();
    assert!(doc.credentials.is_none() && doc.api.is_none());
}

#[test]
fn config_document_refuses_invalid_toml() {
    assert!(parse_config_document("[credentials\nuser_id = 1\n").is_err());
    assert!(parse_config_document("[api]\nconcurrency = 1\nconcurrency = 2\n").is_err());
    assert!(parse_config_document("user_id = \n").is_err());
}

#[test]
fn config_document_round_trips_through_set() {
    let mut doc = parse_config_document("[credentials]\nuser_id = \"OLDU01\"\nnote = 1.5\n").unwrap();
    let mut set = set_args();
    set.user_id = Some("ABCU01".to_owned());
    set.timeout_secs = Some(45);
    doc.apply(set, Some("s3cret".to_owned()));
    let text = doc.checked_toml_text().unwrap();
    let again = parse_config_document(&text).unwrap();
    let c = table_of(&again.credentials);
    assert!(matches!(c.get("user_id"), Some(TomlValue::Text(s)) if s == "ABCU01"));
    assert!(matches!(c.get("password"), Some(TomlValue::Text(s)) if s == "s3cret"));
    assert!(matches!(c.get("note"), Some(TomlValue::Other(s)) if s == "1.5"));
    let a = table_of(&again.api);
    assert!(matches!(a.get("timeout_secs"), Some(TomlValue::Integer(45))));
    assert!(matches!(a.get("concurrency"), Some(TomlValue::Integer(4))));
    assert!(
        matches!(a.get("endpoint"), Some(TomlValue::Text(s)) if s == "https://secure.ilsmart.com/services/v2/soap11")
    );
    assert_eq!(again.to_toml_string(), text);
}
