//! Convenient re-exports for common usage.

pub use crate::codec::{decode_envelope, encode_envelope};
pub use crate::config::{ListenerConfig, OrganismConfig, PipelineConfig};
pub use crate::envelope::{AgentId, ThreadId};
pub use crate::error::{PipelineError, PipelineResult};
pub use crate::federation::{
    open, seal, AllowAll, Authorizer, FederationError, Peer, PeerDirectory, PeerKey,
};
pub use crate::handler::{HandlerContext, HandlerResponse, HandlerResult, ValidatedPayload};
pub use crate::middleware::{DispatchMeta, PostDispatchVerdict, PreDispatchVerdict};
pub use crate::registry::ListenerRegistry;
pub use crate::routing::RoutingTable;
pub use crate::switchboard::SwitchboardError;
pub use crate::thread::ThreadRegistry;
pub use crate::validation::{FieldSchema, FieldType, PayloadSchema, SchemaRegistry};
pub use crate::wire::{
    Address, AddressError, Envelope, Field, Meta, Payload, PayloadValue, Provenance, Segment,
};
