use lqs::config::{parse_config, validate_connection, Config, ConfigEntry, ConfigSection, Connection};

const EXAMPLE: &str = "[example]
system = postgres
host = localhost
port = 5432
username = postgres
password = secret
database = shop
namespace = test
";

fn entry(key: &str, value: &str) -> ConfigEntry {
    ConfigEntry { key: key.to_string(), value: Some(value.to_string()) }
}

fn section(name: &str) -> ConfigSection {
    ConfigSection {
        name: name.to_string(),
        entries: vec![
            entry("system", "surrealdb"),
            entry("host", "db.local"),
            entry("port", "8000"),
            entry("username", "root"),
            entry("password", "root"),
            entry("database", "test"),
            entry("namespace", "ns"),
        ],
    }
}

#[test]
fn from_config_reads_every_setting() {
    let config = parse_config(EXAMPLE.to_string()).unwrap();
    let c = Connection::from_config(String::from("example"), &config);
    assert_eq!(c.name, "example");
    assert_eq!(c.system, "postgres");
    assert_eq!(c.host, "localhost");
    assert_eq!(c.port, "5432");
    assert_eq!(c.username, "postgres");
    assert_eq!(c.password, "secret");
    assert_eq!(c.database, "shop");
    assert_eq!(c.namespace, "test");
}

#[test]
fn parse_config_lowers_section_names_and_keys() {
    let config = parse_config(String::from("[Example]\nHOST = Remote\nflag\n")).unwrap();
    assert_eq!(config.sections.len(), 1);
    let s = &config.sections[0];
    assert_eq!(s.name, "example");
    assert_eq!(s.get(&String::from("host")), Some(&Some(String::from("Remote"))));
    assert_eq!(s.get(&String::from("flag")), Some(&None));
    assert_eq!(s.get(&String::from("port")), None);
    assert!(config.section(&String::from("example")).is_some());
    assert!(config.section(&String::from("other")).is_none());
}

#[test]
fn parse_config_reports_unclosed_section() {
    assert!(parse_config(String::from("[broken\nhost = x\n")).is_err());
}

#[test]
fn from_config_on_hand_built_config() {
    let config = Config { sections: vec![section("a"), section("b")] };
    let c = Connection::from_config(String::from("b"), &config);
    assert_eq!(c.name, "b");
    assert_eq!(c.system, "surrealdb");
    assert_eq!(c.host, "db.local");
    assert_eq!(c.port, "8000");
}

#[test]
fn validate_known_connection() {
    let config = parse_config(EXAMPLE.to_string());
    assert_eq!(
        validate_connection(Some(String::from("example")), config),
        Ok(String::from("example"))
    );
}

#[test]
fn validate_unknown_connection() {
    let config = parse_config(EXAMPLE.to_string());
    assert_eq!(validate_connection(Some(String::from("other")), config), Err("Connection not found"));
}

#[test]
fn validate_without_connection() {
    let config = parse_config(EXAMPLE.to_string());
    assert_eq!(validate_connection(None, config), Err("--connection not set"));
}

#[test]
fn validate_when_config_did_not_load() {
    assert_eq!(
        validate_connection(Some(String::from("example")), Err(String::from("no file"))),
        Err("Connection not found")
    );
}

#[test]
fn validate_empty_connection_name() {
    let config = Config { sections: vec![section("")] };
    assert_eq!(validate_connection(Some(String::new()), Ok(config)), Err("Connection not found"));
}

#[test]
fn validate_connection_missing_setting() {
    let config = parse_config(String::from("[example]\nsystem = postgres\nhost = localhost\n"));
    assert_eq!(
        validate_connection(Some(String::from("example")), config),
        Err("Connection not found")
    );
    let config = parse_config(String::from(
        "[example]\nsystem = postgres\nhost = h\nport = 1\nusername = u\npassword\ndatabase = d\nnamespace = n\n",
    ));
    assert_eq!(
        validate_connection(Some(String::from("example")), config),
        Err("Connection not found")
    );
}

#[test]
fn has_connection_settings_checks_every_key() {
    let config = parse_config(EXAMPLE.to_string()).unwrap();
    assert!(config.has_connection_settings(&String::from("example")));
    assert!(!config.has_connection_settings(&String::from("missing")));
    let partial = parse_config(String::from("[p]\nsystem = x\n")).unwrap();
    assert!(!partial.has_connection_settings(&String::from("p")));
}
