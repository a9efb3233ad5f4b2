//! Validation and volume lifecycle rules for a container engine.
//!
//! Untrusted names, stored paths and filesystem observations are checked
//! here before any destructive or containment-sensitive operation.

pub mod validation;
pub mod volume;
