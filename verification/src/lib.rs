//! The decision core of a PHP trace and profile collector: what becomes a span,
//! what goes on the wire, what is sampled, and how batches are framed on disk.

pub mod context;
pub mod json;
pub mod observer;
pub mod profile_spool;
pub mod propagation_priority;
pub mod rate;
pub mod replay_hooks;
pub mod request_attributes;
pub mod sampler;
pub mod settings;
pub mod spool;
pub mod spool_common;
pub mod spool_log;
pub mod text;
pub mod vcs;
pub mod zend_helpers;
