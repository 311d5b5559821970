//! Interaction engine for an HTTP reverse proxy aimed at LLM-style API
//! traffic: captured request/response interactions, a bounded newest-first
//! ring, header redaction, predicate filtering, body transformation, usage
//! extraction, intercept bookkeeping, and cassette rendering.

pub mod strutil;
pub mod headers;
pub mod json;
pub mod model;
pub mod ring;
pub mod usage;
pub mod transform;
pub mod intercept;
pub mod proxy;
pub mod cassette;
pub mod predicate;
pub mod logfmt;
