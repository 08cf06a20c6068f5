use lqs::config::Connection;
use lqs::connector::{backend_for, postgres_params, surreal_address, Backend};
use lqs::session::{line_action, LineAction};

fn connection() -> Connection {
    Connection {
        name: String::from("example"),
        system: String::from("postgres"),
        host: String::from("localhost"),
        port: String::from("5432"),
        username: String::from("admin"),
        password: String::from("pw"),
        database: String::from("shop"),
        namespace: String::from("ns"),
    }
}

#[test]
fn backends_by_system_name() {
    assert_eq!(backend_for(&String::from("postgres")), Backend::Postgres);
    assert_eq!(backend_for(&String::from("surrealdb")), Backend::SurrealDb);
    assert_eq!(backend_for(&String::from("mysql")), Backend::Unconfigured);
    assert_eq!(backend_for(&String::from("Postgres")), Backend::Unconfigured);
}

#[test]
fn postgres_parameter_string() {
    assert_eq!(postgres_params(&connection()), "host=localhost user=admin password=pw dbname=shop");
}

#[test]
fn surreal_server_address() {
    assert_eq!(surreal_address(&connection()), "localhost:5432");
}

#[test]
fn exit_line_ends_session() {
    assert_eq!(line_action(&String::from("exit\n")), LineAction::Exit);
    assert_eq!(line_action(&String::from("exit")), LineAction::Submit);
    assert_eq!(line_action(&String::from("from t select a\n")), LineAction::Submit);
}
