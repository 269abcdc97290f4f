//! A key/value store kept in one relational table, reachable through the
//! embedded SQLite engine or a PostgreSQL server, with the connection
//! lifecycle, the per-backend statement dialects and the schema migrations
//! verified.
//!
//! - `target`: which backend family a target descriptor's scheme selects.
//! - `dialect`: the statements each family is addressed with, and the
//!   requests an operation hands to a backend.
//! - `migration`: the ordered schema steps and which of them are pending.
//! - `model`: what the requests mean for the stored entries, and the laws
//!   of the store under that meaning.
//! - `rows`: answers computed from the rows a backend returned.
//! - `orm`: the connection manager and the operations on its connection.
//! - `db`: the store as a host sees it, migrated on connect.
pub mod db;
pub mod dialect;
mod driver;
pub mod error;
pub mod migration;
pub mod model;
pub mod orm;
pub mod rows;
pub mod target;
