//! SCIM 2.0 server-side protocol logic.

pub mod text;
pub mod number;
pub mod json;
pub mod filter;
pub mod grammar;
pub mod path_laws;
pub mod lexer_laws;
pub mod filter_laws;
pub mod common;
pub mod error;
pub mod list_response;
pub mod value_laws;
pub mod discovery;
pub mod matching;
pub mod patch;
pub mod mutability;
pub mod patch_laws;
pub mod write_laws;
pub mod mutability_laws;
pub mod entry_laws;
pub mod matching_laws;
pub mod bulk;
pub mod bulk_laws;
pub mod order_laws;
pub mod user;
pub mod group;
pub mod schema_laws;
pub mod server;
