//! Client-side logic for a transactional-email provider's template-management
//! REST API: header and URL construction, JSON encoding of request bodies,
//! JSON decoding of responses, and the uniform status-based error mapping.
//!
//! The network round trip itself is left to the embedding application; every
//! function here is a pure computation with a verified contract.

pub mod error;
pub mod headers;
pub mod json;
pub mod model;
pub mod ops;
pub mod laws;
