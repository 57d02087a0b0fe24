//! A policy-gated privilege-elevation library.
//!
//! A policy file maps users and groups to permitted commands and to whether
//! a credential challenge is required first. This crate parses such
//! policies ([`store::NyadoConfig`]), resolves a caller identity and a
//! command string to an allow/deny plus password-required decision
//! ([`store::NyadoConfig::resolve`]), and plans the ordered credential
//! transition for a granted launch ([`launch`]).

pub mod ident;
pub mod launch;
pub mod laws;
pub mod policy;
pub mod store;
pub mod text;
