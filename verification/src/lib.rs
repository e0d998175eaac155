//! Remote browser introspection core: tab discovery, a multiplexed
//! command/response transport, an HTML sanitizer, a screenshot compressor,
//! and the page-read orchestration that composes them, together with the
//! local-configuration string logic that surrounds them.

pub mod config;
pub mod discovery;
pub mod json;
pub mod mime;
pub mod page;
pub mod pattern;
pub mod sanitize;
pub mod screenshot;
pub mod text;
pub mod transport;
