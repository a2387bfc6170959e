//! Where the chat sessions' database lives.
use vstd::prelude::*;

verus! {

/// How to reach a PostgreSQL database: host, port (5432 by default for
/// PostgreSQL), database name and credentials.
pub struct PostgresDb {
    pub host: String,
    pub port: u16,
    pub db: String,
    pub user: String,
    pub password: String,
}

} // verus!
