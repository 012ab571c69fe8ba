//! What handlers take and return.
//!
//! Handlers receive **validated, typed** payloads — the pipeline has already decoded
//! the wire bytes and schema-checked the value by the time a handler sees the message.
//! Handlers never touch wire bytes: they work with [`PayloadValue`] in and a typed
//! [`Payload`] out. The pipeline owns serialization on both sides.
//!
//! Handler *responses* are NOT trusted: they are serialized back to bytes and re-enter
//! the pipeline from the top. The trust boundary is the pipeline, not the handler.

use vstd::prelude::*;

use crate::envelope::ThreadId;
use crate::error::PipelineError;
use crate::wire::{Address, Payload, PayloadValue, PayloadView, Provenance, SegmentView};

verus! {

/// Validated payload that handlers receive.
///
/// By the time a handler gets this, the pipeline has decoded the envelope, schema-checked
/// the value, and verified routing. `value` is a typed [`PayloadValue`] — never raw bytes.
#[derive(Debug, PartialEq)]
pub struct ValidatedPayload {
    /// The payload tag (e.g., "Greeting") — selects the operation/schema.
    pub tag: String,
    /// The decoded, schema-validated value.
    pub value: PayloadValue,
}

impl View for ValidatedPayload {
    type V = PayloadView;

    open spec fn view(&self) -> PayloadView {
        PayloadView { tag: self.tag@, value: self.value@ }
    }
}

impl Clone for ValidatedPayload {
    fn clone(&self) -> (r: Self)
        ensures
            r@ == self@,
    {
        ValidatedPayload { tag: self.tag.clone(), value: self.value.clone() }
    }
}

impl ValidatedPayload {
    /// A payload of the given tag and value.
    pub fn new(tag: &str, value: PayloadValue) -> (r: ValidatedPayload)
        ensures
            r@ == (PayloadView { tag: tag@, value: value@ }),
    {
        ValidatedPayload { tag: tag.to_owned(), value }
    }

    /// Clone this into an outgoing [`Payload`] (e.g., for an echo handler).
    pub fn to_payload(&self) -> (r: Payload)
        ensures
            r@ == self@,
    {
        Payload { tag: self.tag.clone(), value: self.value.clone() }
    }
}

/// Context passed to handlers alongside the payload.
///
/// Provides verified metadata without giving handlers the ability to forge identity or
/// bypass routing. `from` is a full [`Address`] (last hop) — set by the pipeline.
#[derive(Debug)]
pub struct HandlerContext {
    /// Thread UUID for this conversation chain.
    pub thread_id: ThreadId,
    /// Who sent this message (verified by pipeline, not forgeable by handler).
    pub from: Address,
    /// This handler's own address (set by pipeline, not self-reported).
    pub own_name: Address,
    /// The message's accumulated provenance set, set by the pipeline.
    ///
    /// **Observation only.** A handler MUST NOT gate on this. It's exposed read-only so
    /// observers/audit can see the durable origin set; the handler cannot forge it (the
    /// pipeline owns the field).
    pub provenance: Provenance,
}

/// The model of a [`HandlerContext`].
pub struct ContextView {
    pub thread_id: Seq<char>,
    pub from: Seq<SegmentView>,
    pub own_name: Seq<SegmentView>,
    pub provenance: Provenance,
}

impl View for HandlerContext {
    type V = ContextView;

    open spec fn view(&self) -> ContextView {
        ContextView {
            thread_id: self.thread_id@,
            from: self.from@,
            own_name: self.own_name@,
            provenance: self.provenance,
        }
    }
}

impl Clone for HandlerContext {
    fn clone(&self) -> (r: Self)
        ensures
            r@ == self@,
    {
        HandlerContext {
            thread_id: self.thread_id.clone(),
            from: self.from.clone(),
            own_name: self.own_name.clone(),
            provenance: self.provenance,
        }
    }
}

/// What a handler can return.
///
/// Handlers express *intent* — the pipeline enforces the rules. A handler can't forge
/// identity (`from` is always overwritten by the pipeline) and can't escape peers (the
/// pipeline validates `to` against the peer table). Outgoing payloads are typed; the
/// pipeline serializes them — handlers never produce bytes.
#[derive(Debug, PartialEq)]
pub enum HandlerResponse {
    /// Send a new message to a target address and **wait** for its reply (a synchronous
    /// sub-call). The pipeline enforces peer constraints, extends the thread chain, and
    /// suspends this conversation until the callee replies back up the chain.
    Send { to: Address, payload: Payload },
    /// **Asynchronously** delegate to a target and continue immediately — the async dual of
    /// [`Send`](HandlerResponse::Send).
    ///
    /// The pipeline hands the work to `to` on a detached branch whose chain records *this*
    /// handler as the return target, then synthesizes an immediate acknowledgement (a
    /// `SpawnAck` payload) back to this handler so it can proceed — e.g. tell its own caller
    /// "working on it" — without blocking on the result. The eventual result routes back
    /// through the ordinary reply path, so **the callee never learns who spawned it**;
    /// return routing is the pipeline's bookkeeping (the thread chain), not the callee's
    /// concern.
    ///
    /// This is "received ≠ done": the ack means *accepted for processing*, and the pipeline
    /// only acks once the handoff is routable (peer-checked) — a spawn that can't be
    /// delivered acks with `accepted: false` rather than a false "working on it".
    Spawn { to: Address, payload: Payload },
    /// Respond back to the caller (prune the thread chain).
    Reply { payload: Payload },
    /// No response — this handler has nothing to say.
    /// If a parent exists in the thread chain, the pipeline synthesizes an ACK
    /// (`ToolResponse { success: true, result: "ack" }`) and routes it back so the parent
    /// doesn't hang. If no parent exists, the thread ends silently.
    Silent,
}

/// The model of a [`HandlerResponse`].
pub enum ResponseView {
    Send { to: Seq<SegmentView>, payload: PayloadView },
    Spawn { to: Seq<SegmentView>, payload: PayloadView },
    Reply { payload: PayloadView },
    Silent,
}

impl View for HandlerResponse {
    type V = ResponseView;

    open spec fn view(&self) -> ResponseView {
        match self {
            HandlerResponse::Send { to, payload } => ResponseView::Send {
                to: to@,
                payload: payload@,
            },
            HandlerResponse::Spawn { to, payload } => ResponseView::Spawn {
                to: to@,
                payload: payload@,
            },
            HandlerResponse::Reply { payload } => ResponseView::Reply { payload: payload@ },
            HandlerResponse::Silent => ResponseView::Silent,
        }
    }
}

impl Clone for HandlerResponse {
    fn clone(&self) -> (r: Self)
        ensures
            r@ == self@,
    {
        match self {
            HandlerResponse::Send { to, payload } => HandlerResponse::Send {
                to: to.clone(),
                payload: payload.clone(),
            },
            HandlerResponse::Spawn { to, payload } => HandlerResponse::Spawn {
                to: to.clone(),
                payload: payload.clone(),
            },
            HandlerResponse::Reply { payload } => HandlerResponse::Reply {
                payload: payload.clone(),
            },
            HandlerResponse::Silent => HandlerResponse::Silent,
        }
    }
}

impl HandlerResponse {
    /// Convenience: reply with a payload.
    pub fn reply(payload: Payload) -> (r: HandlerResponse)
        ensures
            r@ == (ResponseView::Reply { payload: payload@ }),
    {
        HandlerResponse::Reply { payload }
    }

    /// Convenience: send a payload to a target.
    pub fn send(to: Address, payload: Payload) -> (r: HandlerResponse)
        ensures
            r@ == (ResponseView::Send { to: to@, payload: payload@ }),
    {
        HandlerResponse::Send { to, payload }
    }

    /// Convenience: asynchronously delegate a payload to a target.
    pub fn spawn(to: Address, payload: Payload) -> (r: HandlerResponse)
        ensures
            r@ == (ResponseView::Spawn { to: to@, payload: payload@ }),
    {
        HandlerResponse::Spawn { to, payload }
    }
}

/// The result type handlers return.
pub type HandlerResult = Result<HandlerResponse, PipelineError>;

} // verus!
