//! Registry, discovery and session orchestration for a fleet of remotely
//! reachable test devices.
//!
//! Every function here works on plain values: the caller performs the remote
//! queries, the file accesses and the waiting, and hands their results in.

pub mod actions;
pub mod assoc;
pub mod attributes;
pub mod descriptor;
pub mod discovery;
pub mod error;
pub mod failure;
pub mod json;
pub mod layout;
pub mod monitor;
pub mod order;
pub mod reconcile;
pub mod registry;
pub mod resolver;
pub mod session;
pub mod text;
