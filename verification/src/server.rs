//! The decisions of a small SCIM server that keeps its resources in memory.

pub mod clock;
pub mod discovery;
pub mod error;
pub mod patch_request;
pub mod resources;
pub mod store;
pub mod redaction_laws;
pub mod response_laws;
