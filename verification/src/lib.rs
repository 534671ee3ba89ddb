//! Synchronisation of a document database with a relational database:
//! table selection, command-line configuration and row translation.

pub mod cli_parser;
pub mod codec;
pub mod config;
pub mod decode;
pub mod document;
pub mod literal;
pub mod numeral;
pub mod scan;
pub mod schema;
pub mod selection;
pub mod store;
pub mod task;
pub mod text;
pub mod yml_parser;
