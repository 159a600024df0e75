//! A content-addressed claim registry.
//!
//! An identified actor can register that they hold a piece of content
//! (identified by its raw bytes) at a logical time, later revoke that
//! claim, or transfer it to another actor.  The registry validates a
//! configured length bound, key uniqueness and ownership before any
//! mutation, and records a notification for the host event sink after
//! every successful one.
//!
//! The host execution environment is expected to authenticate callers,
//! advance the logical clock, persist the registry between calls and
//! drain the event buffer; none of that happens here.

pub mod laws;
pub mod registry;
