//! What the configuration file holds: the credentials of the relational
//! database and the table names that the file adds to the selection.

use vstd::prelude::*;

verus! {

/// How to reach a MySQL server.
#[derive(Debug, PartialEq, Eq)]
pub struct MySqlCredentials {
    pub host: String,
    pub user: String,
    pub password: String,
    pub database: String,
    pub port: u16,
}

impl Clone for MySqlCredentials {
    fn clone(&self) -> (r: Self)
        ensures
            r == *self,
    {
        MySqlCredentials {
            host: self.host.clone(),
            user: self.user.clone(),
            password: self.password.clone(),
            database: self.database.clone(),
            port: self.port,
        }
    }
}

/// Where a SQLite database lies.
#[derive(Debug, PartialEq, Eq)]
pub struct SqliteCredentials {
    pub file_path: String,
}

impl Clone for SqliteCredentials {
    fn clone(&self) -> (r: Self)
        ensures
            r == *self,
    {
        SqliteCredentials { file_path: self.file_path.clone() }
    }
}

/// The credentials of the relational database, by dialect.
#[derive(Debug, PartialEq, Eq)]
pub enum DbCred {
    Mysql(MySqlCredentials),
    Sqlite(SqliteCredentials),
}

impl Clone for DbCred {
    fn clone(&self) -> (r: Self)
        ensures
            r == *self,
    {
        match self {
            DbCred::Mysql(c) => DbCred::Mysql(c.clone()),
            DbCred::Sqlite(c) => DbCred::Sqlite(c.clone()),
        }
    }
}

/// The configuration file: the credentials, and the table names that it
/// adds to the included, the excluded and the ignored ones.
#[derive(Debug, PartialEq, Eq)]
pub struct ConfigYml {
    pub db: DbCred,
    pub include_tables: Vec<String>,
    pub exclude_tables: Vec<String>,
    pub exportignore: Vec<String>,
}

} // verus!
