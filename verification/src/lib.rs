//! Redaction orchestration engine.
//!
//! Drives an external inference capability unit by unit (document page
//! or audio segment), accumulates proposed redactions, tracks user
//! acceptance, and prepares the accepted set for write-back onto the
//! original artifact.

pub mod adapter;
pub mod errors;
pub mod export;
pub mod facade;
pub mod json;
pub mod laws;
pub mod model;
pub mod session;
pub mod text;
