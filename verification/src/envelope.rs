//! Shared identifiers and the envelope namespace.
//!
//! The envelope *type* lives in [`crate::wire`]; its serialization lives in
//! [`crate::codec`]. Here are the cross-cutting type aliases and the wire namespace.

use vstd::prelude::*;

verus! {

/// The envelope namespace URI.
pub const ENVELOPE_NS: &'static str = "https://xml-pipeline.org/ns/envelope/v1";

/// Unique agent identifier (listener name). Used by routing/registry, which are
/// name-keyed; the canonical addressable form is [`crate::wire::Address`].
pub type AgentId = String;

/// Opaque thread identifier (UUID string).
pub type ThreadId = String;

} // verus!
