//! Application assembly and response emission for a small HTTP server: a builder
//! that is frozen into a shareable application (routes, shared state, middleware,
//! fallback handler), a store holding one value per type, and responses that are
//! serialized byte for byte, with optional gzip compression of the body.

pub mod app;
pub mod bytes;
pub mod extensions;
pub mod http;
pub mod keyed;
pub mod response;
pub mod router;
