//! The domain layer: value objects, structural events, metrics and the rules
//! that compute them. All metrics are deterministic functions of the
//! structural events of a source file.
pub mod primitives;
pub mod events;
pub mod metrics;
pub mod rules;
pub mod source_code;
pub mod entropy;
