//! The switchboard — the single materialize-then-inject front for a pipeline.
//!
//! Everything that puts a message *into* a pipeline for an addressed instance goes
//! through here: resolve the destination instance, stamp the resolved delivery thread,
//! and inject the **canonical** [`Envelope`] into the pipeline ingress. Resolving and
//! injecting are the host's; what is resolved and what is injected stands here.

use vstd::prelude::*;

use crate::codec;
use crate::error::{ErrorView, PipelineError};
use crate::grammar;
use crate::markup;
use crate::text;
use crate::wire;
use crate::wire::{Address, Envelope, EnvelopeView, MetaView};

verus! {

/// Errors from the switchboard.
#[derive(Debug)]
pub enum SwitchboardError {
    /// The envelope carried no `to` address — nowhere to route.
    NoDestination,
    /// The materializer could not resolve/materialize the destination.
    Materialize(String),
    /// The pipeline ingress channel was closed.
    IngressClosed,
    /// Failed to encode the envelope for injection.
    Encode(PipelineError),
}

/// The model of a [`SwitchboardError`].
pub enum SwitchboardFault {
    NoDestination,
    Materialize(Seq<char>),
    IngressClosed,
    Encode(ErrorView),
}

impl View for SwitchboardError {
    type V = SwitchboardFault;

    open spec fn view(&self) -> SwitchboardFault {
        match self {
            SwitchboardError::NoDestination => SwitchboardFault::NoDestination,
            SwitchboardError::Materialize(s) => SwitchboardFault::Materialize(s@),
            SwitchboardError::IngressClosed => SwitchboardFault::IngressClosed,
            SwitchboardError::Encode(e) => SwitchboardFault::Encode(e@),
        }
    }
}

impl SwitchboardError {
    /// The message of the error; that of an underlying encoding error stands for itself.
    pub fn to_string(&self) -> (r: String)
        ensures
            match self {
                SwitchboardError::NoDestination => r@ == "envelope has no destination address"@,
                SwitchboardError::Materialize(why) => r@ == "materialization failed: "@ + why@,
                SwitchboardError::IngressClosed => r@ == "pipeline ingress closed"@,
                SwitchboardError::Encode(e) => e.is_displayed_as(r@),
            },
    {
        match self {
            SwitchboardError::NoDestination => "envelope has no destination address".to_owned(),
            SwitchboardError::Materialize(why) => text::cat(
                "materialization failed: ",
                why.as_str(),
            ),
            SwitchboardError::IngressClosed => "pipeline ingress closed".to_owned(),
            SwitchboardError::Encode(e) => e.to_string(),
        }
    }
}

impl From<PipelineError> for SwitchboardError {
    fn from(e: PipelineError) -> (r: Self) {
        SwitchboardError::Encode(e)
    }
}

impl vstd::std_specs::convert::FromSpecImpl<PipelineError> for SwitchboardError {
    open spec fn obeys_from_spec() -> bool {
        true
    }

    open spec fn from_spec(e: PipelineError) -> Self {
        SwitchboardError::Encode(e)
    }
}

/// An envelope on its delivery thread.
pub open spec fn on_thread(env: EnvelopeView, thread: Seq<char>) -> EnvelopeView {
    EnvelopeView { meta: MetaView { thread, ..env.meta }, ..env }
}

/// The address to resolve before an envelope can be injected.
pub fn destination(envelope: &Envelope) -> (r: Result<&Address, SwitchboardError>)
    ensures
        match (r, envelope@.meta.to) {
            (Ok(to), Some(w)) => to@ == w,
            (Err(e), None) => e@ == SwitchboardFault::NoDestination,
            _ => false,
        },
{
    match &envelope.meta.to {
        Some(to) => Ok(to),
        None => Err(SwitchboardError::NoDestination),
    }
}

/// What to inject once the destination has been resolved to a delivery thread: the
/// canonical envelope on that thread, its address intact. Where the destination could
/// not be resolved there is nothing to inject (fail-closed).
pub fn injection(envelope: Envelope, resolved: Result<String, String>) -> (r: Result<
    Vec<u8>,
    SwitchboardError,
>)
    ensures
        match (r, resolved) {
            (Ok(bytes), Ok(thread)) => {
                let env = on_thread(envelope@, thread@);
                &&& bytes@ == text::utf8(markup::rendered(grammar::envelope_pieces(env)))
                &&& grammar::envelope_survives(env) ==> grammar::envelope_from(
                    markup::markup_of(bytes@),
                ) == Ok::<_, ErrorView>(env)
            },
            (Err(e), Err(why)) => e@ == SwitchboardFault::Materialize(why@),
            _ => false,
        },
{
    let thread = match resolved {
        Ok(thread) => thread,
        Err(why) => {
            return Err(SwitchboardError::Materialize(why));
        },
    };
    let mut env = envelope;
    env.meta.thread = thread;
    assert(env@ == on_thread(envelope@, thread@));
    match codec::encode_envelope(&env) {
        Ok(bytes) => Ok(bytes),
        Err(e) => Err(SwitchboardError::from(e)),
    }
}

// ── Laws ─────────────────────────────────────────────────────────────

/// Delivery changes the thread and nothing else: the address is not collapsed, and origin,
/// provenance and payload are the sender's.
pub proof fn law_only_the_thread_changes(env: EnvelopeView, thread: Seq<char>)
    ensures
        on_thread(env, thread).meta.thread == thread,
        on_thread(env, thread).meta.from == env.meta.from,
        on_thread(env, thread).meta.to == env.meta.to,
        on_thread(env, thread).meta.provenance == env.meta.provenance,
        on_thread(env, thread).payload == env.payload,
        on_thread(on_thread(env, thread), env.meta.thread) == env,
{
}

} // verus!
