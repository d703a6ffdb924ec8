//! Core reconciliation engine of an operator that keeps declarative resource
//! objects in agreement with an external identity-management server's admin
//! REST API.
//!
//! The engine is split into:
//! - the lifecycle state machine every resource kind plugs into ([`lifecycle`]),
//! - the payload resolution pipeline (definition, patch list, immutable
//!   overlay) and the REST synchronization protocol ([`payload`], [`sync`]),
//! - the reverse index from watched external dependencies to their owners
//!   ([`refwatch`]),
//! - the credential refresh scheduler ([`refresh`]),
//! - the instance-provisioning decisions, credential secret included
//!   ([`instance`], [`legacy`]).

pub mod error;
pub mod instance;
pub mod legacy;
pub mod lifecycle;
pub mod payload;
pub mod refresh;
pub mod refwatch;
pub mod sync;
