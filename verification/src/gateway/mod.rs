//! What the gateway answers with when a request fails.
pub mod error;
pub mod status;
pub mod errors;
pub mod rewrite;
pub mod utils;
