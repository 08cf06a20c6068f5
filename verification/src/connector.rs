//! Where a translated query is sent: the database system named by a
//! connection, and the address or parameters its client is given.

use vstd::prelude::*;
use crate::config::Connection;
use crate::text::{append_chars, chars_eq, chars_of, string_of};

verus! {

/// The database systems that queries can be sent to.
#[derive(PartialEq, Eq, Structural, Clone, Copy, Debug)]
pub enum Backend {
    Postgres,
    SurrealDb,
    /// A system that no client is configured for.
    Unconfigured,
}

pub open spec fn postgres_word() -> Seq<char> {
    seq!['p', 'o', 's', 't', 'g', 'r', 'e', 's']
}

pub open spec fn surrealdb_word() -> Seq<char> {
    seq!['s', 'u', 'r', 'r', 'e', 'a', 'l', 'd', 'b']
}

/// The backend that a connection's `system` setting names.
pub open spec fn backend_of(system: Seq<char>) -> Backend {
    if system == postgres_word() {
        Backend::Postgres
    } else if system == surrealdb_word() {
        Backend::SurrealDb
    } else {
        Backend::Unconfigured
    }
}

/// The backend that a connection's `system` setting names.
pub fn backend_for(system: &String) -> (b: Backend)
    ensures
        b == backend_of(system@),
{
    proof {
        reveal_strlit("postgres");
        reveal_strlit("surrealdb");
        assert("postgres"@ =~= postgres_word());
        assert("surrealdb"@ =~= surrealdb_word());
    }
    let name = chars_of(system.as_str());
    if chars_eq(&name, &chars_of("postgres")) {
        Backend::Postgres
    } else if chars_eq(&name, &chars_of("surrealdb")) {
        Backend::SurrealDb
    } else {
        Backend::Unconfigured
    }
}

/// The parameter string of a PostgreSQL client:
/// `host=<host> user=<username> password=<password> dbname=<database>`.
pub open spec fn postgres_params_text(c: Connection) -> Seq<char> {
    seq!['h', 'o', 's', 't', '='] + c.host@ + seq![' ', 'u', 's', 'e', 'r', '='] + c.username@
        + seq![' ', 'p', 'a', 's', 's', 'w', 'o', 'r', 'd', '='] + c.password@ + seq![
        ' ',
        'd',
        'b',
        'n',
        'a',
        'm',
        'e',
        '=',
    ] + c.database@
}

/// The parameter string of a PostgreSQL client for a connection.
pub fn postgres_params(config: &Connection) -> (r: String)
    ensures
        r@ == postgres_params_text(*config),
{
    proof {
        reveal_strlit("host=");
        reveal_strlit(" user=");
        reveal_strlit(" password=");
        reveal_strlit(" dbname=");
    }
    let mut out = chars_of("host=");
    append_chars(&mut out, &chars_of(config.host.as_str()));
    append_chars(&mut out, &chars_of(" user="));
    append_chars(&mut out, &chars_of(config.username.as_str()));
    append_chars(&mut out, &chars_of(" password="));
    append_chars(&mut out, &chars_of(config.password.as_str()));
    append_chars(&mut out, &chars_of(" dbname="));
    append_chars(&mut out, &chars_of(config.database.as_str()));
    assert(out@ =~= postgres_params_text(*config));
    string_of(&out)
}

/// The address of a SurrealDB server: `<host>:<port>`.
pub fn surreal_address(config: &Connection) -> (r: String)
    ensures
        r@ == config.host@ + seq![':'] + config.port@,
{
    let mut out = chars_of(config.host.as_str());
    out.push(':');
    append_chars(&mut out, &chars_of(config.port.as_str()));
    string_of(&out)
}

} // verus!
