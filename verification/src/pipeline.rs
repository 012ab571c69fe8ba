//! The stages of the self-feeding pipeline.
//!
//! ```text
//! [Ingress] → [Parse] → [Validate] → [Route] → [Dispatch] → [Reinject]
//!      ↑                                                        |
//!      └──────── serialize to raw bytes (UNTRUSTED) ────────────┘
//! ```
//!
//! Handler responses are serialized back to raw bytes and re-injected at the ingress —
//! losing all trust, going through the full validation gauntlet again. The pipeline IS
//! the trust boundary. What each stage decides about a message stands here; moving
//! messages from stage to stage, and calling handlers, is up to whoever drives it.

use vstd::prelude::*;

use crate::address;
use crate::envelope::AgentId;
use crate::error::{ErrorView, PipelineError, PipelineResult};
use crate::federation;
use crate::federation::{PeerDirectory, PeerView};
use crate::grammar;
use crate::handler::{ContextView, HandlerContext, HandlerResponse, HandlerResult, ResponseView};
use crate::handler::ValidatedPayload;
use crate::middleware::{DispatchMeta, DispatchMetaView};
use crate::registry::ListenerRegistry;
use crate::routing;
use crate::routing::{ListenerView, RoutingTable, TableView};
use crate::text;
use crate::thread;
use crate::thread::{ThreadRegistry, ThreadsView};
use crate::validation;
use crate::validation::{PayloadSchema, SchemaRegistry};
use crate::wire;
use crate::wire::{
    Address, Envelope, EnvelopeView, FieldView, Meta, MetaView, Payload, PayloadValue, PayloadView,
    Provenance, SegmentView, ValueView,
};

verus! {

// ── Validate ─────────────────────────────────────────────────────────

/// Message after successful validation.
pub struct ValidatedMsg {
    pub envelope: Envelope,
    pub payload: ValidatedPayload,
}

/// Whether `r` is what becomes of a message in the validate stage.
pub open spec fn is_validation(
    schemas: Map<Seq<char>, PayloadSchema>,
    env: EnvelopeView,
    r: PipelineResult<ValidatedMsg>,
) -> bool {
    match (
        r,
        validation::value_matches(
            env.payload.value,
            validation::schema_for(schemas, env.payload.tag),
        ),
    ) {
        (Ok(msg), Ok(_)) => msg.envelope@ == env && msg.payload@ == env.payload,
        (Err(e), Err(f)) => e@ == f,
        _ => false,
    }
}

/// Stage 2: Validate the payload against its schema. A message that fails dies here.
pub fn validate_message(schemas: &SchemaRegistry, envelope: Envelope) -> (r: PipelineResult<
    ValidatedMsg,
>)
    ensures
        is_validation(schemas@, envelope@, r),
{
    match schemas.validate_value(envelope.payload.tag.as_str(), &envelope.payload.value) {
        Ok(_) => {
            let payload = ValidatedPayload {
                tag: envelope.payload.tag.clone(),
                value: envelope.payload.value.clone(),
            };
            Ok(ValidatedMsg { envelope, payload })
        },
        Err(e) => Err(e),
    }
}

// ── Route ────────────────────────────────────────────────────────────

/// Message after successful routing.
pub struct RoutedMsg {
    pub envelope: Envelope,
    pub payload: ValidatedPayload,
    pub target_name: AgentId,
}

/// What becomes of a message in the route stage.
pub enum RouteOutcome {
    /// It leaves for a remote node.
    Remote(Envelope),
    /// It goes to a local listener.
    Routed(RoutedMsg),
    /// It dies here.
    Dropped(PipelineError),
}

/// Whether a destination's leading segment is a registered remote node.
pub open spec fn leaves_node(
    to: Option<Seq<SegmentView>>,
    peers: Option<Map<Seq<char>, PeerView>>,
) -> bool {
    match (to, peers) {
        (Some(to), Some(peers)) => to.len() > 0 && peers.contains_key(to[0].name),
        _ => false,
    }
}

/// The listener that an address names, or the empty name.
pub open spec fn listener_of(a: Seq<SegmentView>) -> Seq<char> {
    match address::organism_of(a) {
        Some(name) => name,
        None => seq![],
    }
}

/// The route key of a message.
pub open spec fn key_of(env: EnvelopeView) -> Seq<char> {
    routing::route_key_of(
        match env.meta.to {
            Some(to) => address::organism_of(to),
            None => None,
        },
        env.payload.tag,
    )
}

/// The threads once a message from `from` to `target` has been routed: a thread that is
/// not known is registered.
pub open spec fn threads_routed(
    t: ThreadsView,
    thread: Seq<char>,
    from: Seq<char>,
    target: Seq<char>,
) -> ThreadsView {
    if t.threads.contains_key(thread) {
        t
    } else {
        t.named(t.outside_chain(from, target), thread)
    }
}

/// The model of an optional directory.
pub open spec fn opt_peers(d: Option<&PeerDirectory>) -> Option<Map<Seq<char>, PeerView>> {
    match d {
        Some(d) => Some(d@),
        None => None,
    }
}

/// Whether `r` is what becomes of a message in the route stage.
pub open spec fn is_routing(
    table: TableView,
    peers: Option<Map<Seq<char>, PeerView>>,
    before: ThreadsView,
    after: ThreadsView,
    env: EnvelopeView,
    payload: PayloadView,
    r: RouteOutcome,
) -> bool {
    let key = key_of(env);
    let from = listener_of(env.meta.from);
    if leaves_node(env.meta.to, peers) {
        r matches RouteOutcome::Remote(out) && out@ == env && after == before
    } else if table.at(key).len() == 0 {
        r matches RouteOutcome::Dropped(e) && e@ == ErrorView::NoRoute(key) && after == before
    } else {
        let target = table.at(key)[0].name;
        if !table.may_send(from, target) {
            r matches RouteOutcome::Dropped(e) && table.is_violation(e@, from, target) && after
                == before
        } else {
            &&& r matches RouteOutcome::Routed(out)
            &&& out.envelope@ == env
            &&& out.payload@ == payload
            &&& out.target_name@ == target
            &&& after == threads_routed(before, env.meta.thread, from, target)
        }
    }
}

/// The organism of an address, or the empty name.
fn listener_name(a: &Address) -> (r: String)
    ensures
        r@ == listener_of(a@),
{
    match a.organism() {
        Some(name) => name.to_owned(),
        None => {
            let none = String::new();
            assert(none@ =~= seq![]);
            none
        },
    }
}

/// Whether an address lies on a registered remote node.
fn is_remote(to: &Address, directory: Option<&PeerDirectory>) -> (r: bool)
    ensures
        r == leaves_node(Some(to@), opt_peers(directory)),
{
    match (directory, to.node()) {
        (Some(directory), Some(node)) => directory.is_remote(node),
        _ => false,
    }
}

/// Stage 3: Resolve routing and enforce peer constraints.
///
/// A destination whose leading segment is a registered remote node leaves via federation,
/// not local routing. Any other goes to the first listener of its organism and tag, if
/// the sender may send to it, and its thread is registered if need be.
pub fn route_message<H>(
    registry: &ListenerRegistry<H>,
    threads: &mut ThreadRegistry,
    directory: Option<&PeerDirectory>,
    msg: ValidatedMsg,
) -> (r: RouteOutcome)
    ensures
        is_routing(
            registry@.routing,
            opt_peers(directory),
            old(threads)@,
            final(threads)@,
            msg.envelope@,
            msg.payload@,
            r,
        ),
{
    if let Some(to) = &msg.envelope.meta.to {
        if is_remote(to, directory) {
            return RouteOutcome::Remote(msg.envelope);
        }
    }
    let to = match &msg.envelope.meta.to {
        Some(to) => to.organism(),
        None => None,
    };
    let table = registry.routing_table();
    let entries = match table.resolve(to, msg.envelope.payload.tag.as_str()) {
        Ok(entries) => entries,
        Err(e) => {
            return RouteOutcome::Dropped(e);
        },
    };
    let target_name = entries[0].name.clone();
    let from_name = listener_name(&msg.envelope.meta.from);
    proof {
        assert(routing::listener_views(entries@)[0] == entries@[0]@);
    }
    match table.enforce_peers(from_name.as_str(), target_name.as_str()) {
        Ok(_) => {},
        Err(e) => {
            return RouteOutcome::Dropped(e);
        },
    }
    if threads.lookup(msg.envelope.meta.thread.as_str()).is_none() {
        threads.register_thread(
            msg.envelope.meta.thread.as_str(),
            from_name.as_str(),
            target_name.as_str(),
        );
    }
    RouteOutcome::Routed(
        RoutedMsg { envelope: msg.envelope, payload: msg.payload, target_name },
    )
}

// ── Dispatch ─────────────────────────────────────────────────────────

/// What the handler named `target` is told about a message.
pub open spec fn context_of(env: EnvelopeView, target: Seq<char>) -> ContextView {
    ContextView {
        thread_id: env.meta.thread,
        from: env.meta.from,
        own_name: address::flat(target),
        provenance: env.meta.provenance,
    }
}

/// What middleware is told about a message to `target`.
pub open spec fn dispatch_view(
    env: EnvelopeView,
    payload: PayloadView,
    target: Seq<char>,
) -> DispatchMetaView {
    DispatchMetaView {
        from: listener_of(env.meta.from),
        to: target,
        thread_id: env.meta.thread,
        payload_tag: payload.tag,
    }
}

/// What the handler of a routed message is told about it.
pub fn handler_context(msg: &RoutedMsg) -> (r: HandlerContext)
    ensures
        r@ == context_of(msg.envelope@, msg.target_name@),
{
    HandlerContext {
        thread_id: msg.envelope.meta.thread.clone(),
        from: msg.envelope.meta.from.clone(),
        own_name: Address::flat(msg.target_name.as_str()),
        provenance: msg.envelope.meta.provenance,
    }
}

/// What middleware is told about a routed message (name-keyed).
pub fn dispatch_meta(msg: &RoutedMsg) -> (r: DispatchMeta)
    ensures
        r@ == dispatch_view(msg.envelope@, msg.payload@, msg.target_name@),
{
    DispatchMeta {
        from: listener_name(&msg.envelope.meta.from),
        to: msg.target_name.clone(),
        thread_id: msg.envelope.meta.thread.clone(),
        payload_tag: msg.payload.tag.clone(),
    }
}

/// What a response is about: the handler that gave it, and the thread and the provenance
/// of the message that it was given to.
pub struct Origin {
    pub handler: Seq<char>,
    pub thread: Seq<char>,
    pub provenance: Provenance,
}

/// The origin of responses to a routed message.
pub open spec fn origin_of(msg: RoutedMsg) -> Origin {
    Origin {
        handler: msg.target_name@,
        thread: msg.envelope@.meta.thread,
        provenance: msg.envelope@.meta.provenance,
    }
}

/// An envelope that the pipeline builds: from a bare name, with the provenance of the
/// message at its origin.
pub open spec fn built(
    from: Seq<char>,
    to: Seq<SegmentView>,
    thread: Seq<char>,
    provenance: Provenance,
    payload: PayloadView,
) -> EnvelopeView {
    EnvelopeView {
        meta: MetaView { from: address::flat(from), to: Some(to), thread, provenance },
        payload,
    }
}

/// The acknowledgement for a caller whose callee has nothing to say.
pub open spec fn ack() -> PayloadView {
    PayloadView {
        tag: "ToolResponse"@,
        value: ValueView::Rec(
            seq![
                FieldView { name: "success"@, value: ValueView::Boolean(true) },
                FieldView { name: "result"@, value: ValueView::Text("ack"@) },
            ],
        ),
    }
}

/// The acknowledgement for a handler that delegates.
pub open spec fn spawn_ack(accepted: bool) -> PayloadView {
    PayloadView {
        tag: "SpawnAck"@,
        value: ValueView::Rec(
            seq![FieldView { name: "accepted"@, value: ValueView::Boolean(accepted) }],
        ),
    }
}

/// Whether `id` stands for `chain` in `after`, as it does in `before` or newly.
pub open spec fn takes_thread(
    before: ThreadsView,
    after: ThreadsView,
    chain: Seq<char>,
    id: Seq<char>,
) -> bool {
    &&& after == before.named(chain, id)
    &&& id == before.id_for(chain, id)
    &&& !before.chains.contains_key(chain) ==> thread::is_uuid_text(id)
}

/// What goes back to the caller: the payload, on the caller's thread. Where there is no
/// caller, nothing goes out and the thread is forgotten.
pub open spec fn goes_back(
    before: ThreadsView,
    after: ThreadsView,
    origin: Origin,
    payload: PayloadView,
    out: Seq<EnvelopeView>,
) -> bool {
    match before.caller(origin.thread) {
        Some((caller, chain)) => {
            &&& out.len() == 1
            &&& takes_thread(before, after, chain, out[0].meta.thread)
            &&& out[0] == built(
                origin.handler,
                address::flat(caller),
                out[0].meta.thread,
                origin.provenance,
                payload,
            )
        },
        None => out.len() == 0 && after == before.cleaned(origin.thread),
    }
}

/// What goes on to a peer: the payload, on the thread one hop further.
pub open spec fn goes_on(
    before: ThreadsView,
    after: ThreadsView,
    origin: Origin,
    to: Seq<SegmentView>,
    payload: PayloadView,
    out: Seq<EnvelopeView>,
) -> bool {
    &&& out.len() == 1
    &&& takes_thread(
        before,
        after,
        before.extended(origin.thread, listener_of(to)),
        out[0].meta.thread,
    )
    &&& out[0] == built(
        origin.handler,
        to,
        out[0].meta.thread,
        origin.provenance,
        payload,
    )
}

/// Whether work can be handed to `to`: the sender may send to it, and it is on a remote
/// node or someone listens here, whom the system may send to.
pub open spec fn deliverable(
    table: TableView,
    peers: Option<Map<Seq<char>, PeerView>>,
    from: Seq<char>,
    to: Seq<SegmentView>,
    tag: Seq<char>,
) -> bool {
    &&& table.may_send(from, listener_of(to))
    &&& leaves_node(Some(to), peers) || {
        let listeners = table.at(routing::route_key_of(address::organism_of(to), tag));
        listeners.len() > 0 && table.may_send("system"@, listeners[0].name)
    }
}

/// What becomes of delegated work: where it can be delivered, it goes out from the system,
/// on a chain of its own that starts at the handler, and an acknowledgement goes back to
/// the handler on the thread that it is on; where it cannot, only the acknowledgement,
/// which says so.
pub open spec fn goes_aside(
    before: ThreadsView,
    after: ThreadsView,
    table: TableView,
    peers: Option<Map<Seq<char>, PeerView>>,
    origin: Origin,
    to: Seq<SegmentView>,
    payload: PayloadView,
    out: Seq<EnvelopeView>,
) -> bool {
    let accepted = deliverable(table, peers, origin.handler, to, payload.tag);
    let answer = built(
        "system"@,
        address::flat(origin.handler),
        origin.thread,
        origin.provenance,
        spawn_ack(accepted),
    );
    if accepted {
        &&& out.len() == 2
        &&& takes_thread(
            before,
            after,
            origin.handler + "."@ + listener_of(to),
            out[0].meta.thread,
        )
        &&& out[0] == built("system"@, to, out[0].meta.thread, origin.provenance, payload)
        &&& out[1] == answer
    } else {
        out == seq![answer] && after == before
    }
}

/// Whether `r` is what the pipeline makes of a response.
pub open spec fn is_reaction(
    before: ThreadsView,
    after: ThreadsView,
    table: TableView,
    peers: Option<Map<Seq<char>, PeerView>>,
    origin: Origin,
    response: ResponseView,
    r: Result<Seq<EnvelopeView>, ErrorView>,
) -> bool {
    match response {
        ResponseView::Silent => r matches Ok(out) && goes_back(before, after, origin, ack(), out),
        ResponseView::Reply { payload } => r matches Ok(out) && goes_back(
            before,
            after,
            origin,
            payload,
            out,
        ),
        ResponseView::Send { to, payload } => if table.may_send(origin.handler, listener_of(to)) {
            r matches Ok(out) && goes_on(before, after, origin, to, payload, out)
        } else {
            r matches Err(e) && table.is_violation(e, origin.handler, listener_of(to)) && after
                == before
        },
        ResponseView::Spawn { to, payload } => r matches Ok(out) && goes_aside(
            before,
            after,
            table,
            peers,
            origin,
            to,
            payload,
            out,
        ),
    }
}

/// The models of a list of envelopes.
pub open spec fn envelope_views(list: Seq<Envelope>) -> Seq<EnvelopeView> {
    list.map_values(|e: Envelope| e@)
}

/// The model of what is to be reinjected, or of what went wrong.
pub open spec fn reaction_view(r: PipelineResult<Vec<Envelope>>) -> Result<
    Seq<EnvelopeView>,
    ErrorView,
> {
    match r {
        Ok(list) => Ok(envelope_views(list@)),
        Err(e) => Err(e@),
    }
}

/// Builds an envelope from a bare name.
fn build(
    from: &str,
    to: Address,
    thread: String,
    provenance: Provenance,
    payload: Payload,
) -> (r: Envelope)
    ensures
        r@ == built(from@, to@, thread@, provenance, payload@),
{
    Envelope {
        meta: Meta { from: Address::flat(from), to: Some(to), thread, provenance },
        payload,
    }
}

/// The acknowledgement for a caller whose callee has nothing to say.
fn ack_payload() -> (r: Payload)
    ensures
        r@ == ack(),
{
    let mut fields: Vec<(&str, PayloadValue)> = Vec::new();
    fields.push(("success", PayloadValue::Boolean(true)));
    fields.push(("result", PayloadValue::text("ack")));
    let r = Payload::new("ToolResponse", PayloadValue::record(fields));
    assert(r@.value->Rec_0 =~= ack().value->Rec_0);
    r
}

/// The acknowledgement for a handler that delegates.
fn spawn_ack_payload(accepted: bool) -> (r: Payload)
    ensures
        r@ == spawn_ack(accepted),
{
    let mut fields: Vec<(&str, PayloadValue)> = Vec::new();
    fields.push(("accepted", PayloadValue::Boolean(accepted)));
    let r = Payload::new("SpawnAck", PayloadValue::record(fields));
    assert(r@.value->Rec_0 =~= spawn_ack(accepted).value->Rec_0);
    r
}

/// Sends `payload` back to the caller, if there is one.
fn send_back(threads: &mut ThreadRegistry, msg: &RoutedMsg, payload: Payload) -> (r: Vec<Envelope>)
    ensures
        goes_back(
            old(threads)@,
            final(threads)@,
            origin_of(*msg),
            payload@,
            envelope_views(r@),
        ),
{
    let mut out: Vec<Envelope> = Vec::new();
    match threads.prune_for_response(msg.envelope.meta.thread.as_str()) {
        Some(prune) => {
            let env = build(
                msg.target_name.as_str(),
                Address::flat(prune.target.as_str()),
                prune.thread_id,
                msg.envelope.meta.provenance,
                payload,
            );
            out.push(env);
            assert(envelope_views(out@)[0] == env@);
        },
        None => {},
    }
    out
}

/// Whether someone listens to `tag` at `to`, whom the system may send to.
fn is_heard(table: &RoutingTable, to: &Address, tag: &str) -> (r: bool)
    ensures
        r == ({
            let listeners = table@.at(routing::route_key_of(address::organism_of(to@), tag@));
            listeners.len() > 0 && table@.may_send("system"@, listeners[0].name)
        }),
{
    match table.resolve(to.organism(), tag) {
        Ok(entries) => {
            assert(routing::listener_views(entries@)[0] == entries@[0]@);
            table.enforce_peers("system", entries[0].name.as_str()).is_ok()
        },
        Err(_) => false,
    }
}

/// Hands work to `to` on a chain of its own, and acknowledges it to the handler.
fn delegate(
    table: &RoutingTable,
    directory: Option<&PeerDirectory>,
    threads: &mut ThreadRegistry,
    msg: &RoutedMsg,
    to: Address,
    payload: Payload,
) -> (r: Vec<Envelope>)
    ensures
        goes_aside(
            old(threads)@,
            final(threads)@,
            table@,
            opt_peers(directory),
            origin_of(*msg),
            to@,
            payload@,
            envelope_views(r@),
        ),
{
    let to_name = listener_name(&to);
    let me = msg.target_name.as_str();
    let accepted = table.enforce_peers(me, to_name.as_str()).is_ok() && (is_remote(
        &to,
        directory,
    ) || is_heard(table, &to, payload.tag.as_str()));
    let mut out: Vec<Envelope> = Vec::new();
    let ghost mut work: Seq<EnvelopeView> = seq![];
    if accepted {
        let branch = threads.start_chain(me, to_name.as_str());
        let env = build("system", to, branch, msg.envelope.meta.provenance, payload);
        out.push(env);
        proof {
            work = seq![env@];
        }
    }
    assert(envelope_views(out@) =~= work);
    let answer = build(
        "system",
        Address::flat(me),
        msg.envelope.meta.thread.clone(),
        msg.envelope.meta.provenance,
        spawn_ack_payload(accepted),
    );
    out.push(answer);
    assert(envelope_views(out@) =~= work.push(answer@));
    out
}

/// Stage 4, behind the handler: what is to be reinjected for its response.
///
/// Identity, routing and peers are the pipeline's: `from` is the handler's own name, a
/// target must be a declared peer, and the provenance of the message is carried into
/// whatever is built. A failed dispatch reinjects nothing.
pub fn respond(
    table: &RoutingTable,
    directory: Option<&PeerDirectory>,
    threads: &mut ThreadRegistry,
    msg: &RoutedMsg,
    result: HandlerResult,
) -> (r: PipelineResult<Vec<Envelope>>)
    ensures
        match result {
            Ok(response) => is_reaction(
                old(threads)@,
                final(threads)@,
                table@,
                opt_peers(directory),
                origin_of(*msg),
                response@,
                reaction_view(r),
            ),
            Err(e) => r matches Err(f) && f@ == e@ && final(threads)@ == old(threads)@,
        },
{
    match result {
        Ok(HandlerResponse::Silent) => Ok(send_back(threads, msg, ack_payload())),
        Ok(HandlerResponse::Reply { payload }) => Ok(send_back(threads, msg, payload)),
        Ok(HandlerResponse::Send { to, payload }) => {
            let to_name = listener_name(&to);
            match table.enforce_peers(msg.target_name.as_str(), to_name.as_str()) {
                Ok(_) => {},
                Err(e) => {
                    return Err(e);
                },
            }
            let new_thread = threads.extend_chain(
                msg.envelope.meta.thread.as_str(),
                to_name.as_str(),
            );
            let env = build(
                msg.target_name.as_str(),
                to,
                new_thread,
                msg.envelope.meta.provenance,
                payload,
            );
            let mut out: Vec<Envelope> = Vec::new();
            out.push(env);
            assert(envelope_views(out@)[0] == env@);
            Ok(out)
        },
        Ok(HandlerResponse::Spawn { to, payload }) => {
            Ok(delegate(table, directory, threads, msg, to, payload))
        },
        Err(e) => Err(e),
    }
}

// ── Laws ─────────────────────────────────────────────────────────────

/// A handler cannot forge identity: whatever is reinjected for it comes from its own
/// name, or from the system where it delegates.
pub proof fn law_identity_is_the_pipelines(
    before: ThreadsView,
    after: ThreadsView,
    table: TableView,
    peers: Option<Map<Seq<char>, PeerView>>,
    origin: Origin,
    response: ResponseView,
    out: Seq<EnvelopeView>,
    i: int,
)
    requires
        is_reaction(before, after, table, peers, origin, response, Ok(out)),
        0 <= i < out.len(),
    ensures
        out[i].meta.from == address::flat(
            if response is Spawn {
                "system"@
            } else {
                origin.handler
            },
        ),
{
}

/// The one who is handed delegated work never learns by whom: it is the same work, from the
/// system, whoever delegates it. Only its thread tells the pipeline where a reply goes.
pub proof fn law_spawner_is_not_told(
    before: ThreadsView,
    after: ThreadsView,
    table: TableView,
    peers: Option<Map<Seq<char>, PeerView>>,
    origin: Origin,
    to: Seq<SegmentView>,
    payload: PayloadView,
    out: Seq<EnvelopeView>,
)
    requires
        is_reaction(
            before,
            after,
            table,
            peers,
            origin,
            ResponseView::Spawn { to, payload },
            Ok(out),
        ),
        deliverable(table, peers, origin.handler, to, payload.tag),
    ensures
        out[0] == built("system"@, to, out[0].meta.thread, origin.provenance, payload),
        !before.chains.contains_key(origin.handler + "."@ + listener_of(to))
            ==> thread::is_uuid_text(out[0].meta.thread),
{
}

/// Whether the route stage lets an envelope pass, to a remote node or to a listener.
pub open spec fn passes_routing(
    table: TableView,
    peers: Option<Map<Seq<char>, PeerView>>,
    env: EnvelopeView,
) -> bool {
    leaves_node(env.meta.to, peers) || {
        let listeners = table.at(key_of(env));
        listeners.len() > 0 && table.may_send(listener_of(env.meta.from), listeners[0].name)
    }
}

/// What is acknowledged as accepted is delivered: the route stage lets it pass.
pub proof fn law_accepted_work_is_routed(
    before: ThreadsView,
    after: ThreadsView,
    table: TableView,
    peers: Option<Map<Seq<char>, PeerView>>,
    origin: Origin,
    to: Seq<SegmentView>,
    payload: PayloadView,
    out: Seq<EnvelopeView>,
)
    requires
        is_reaction(
            before,
            after,
            table,
            peers,
            origin,
            ResponseView::Spawn { to, payload },
            Ok(out),
        ),
        out.last().payload == spawn_ack(true),
    ensures
        out.len() == 2,
        out[0].payload == payload,
        out[0].meta.to == Some(to),
        passes_routing(table, peers, out[0]),
{
    assert(spawn_ack(true).value->Rec_0[0].value != spawn_ack(false).value->Rec_0[0].value);
    reveal_with_fuel(address::first_keyed, 2);
    assert(listener_of(address::flat("system"@)) == "system"@);
}

/// Provenance is carried into every envelope that is built for a response.
pub proof fn law_provenance_is_carried(
    before: ThreadsView,
    after: ThreadsView,
    table: TableView,
    peers: Option<Map<Seq<char>, PeerView>>,
    origin: Origin,
    response: ResponseView,
    out: Seq<EnvelopeView>,
    i: int,
)
    requires
        is_reaction(before, after, table, peers, origin, response, Ok(out)),
        0 <= i < out.len(),
    ensures
        out[i].meta.provenance == origin.provenance,
{
}

/// A handler cannot escape its peers: what goes out to an address of its choice goes to a
/// listener that it may send to.
pub proof fn law_peers_are_kept(
    before: ThreadsView,
    after: ThreadsView,
    table: TableView,
    peers: Option<Map<Seq<char>, PeerView>>,
    origin: Origin,
    to: Seq<SegmentView>,
    payload: PayloadView,
    out: Seq<EnvelopeView>,
)
    requires
        !table.may_send(origin.handler, listener_of(to)),
    ensures
        !is_reaction(
            before,
            after,
            table,
            peers,
            origin,
            ResponseView::Send { to, payload },
            Ok(out),
        ),
        is_reaction(
            before,
            after,
            table,
            peers,
            origin,
            ResponseView::Spawn { to, payload },
            Ok(out),
        ) ==> out.len() == 1 && out[0].payload == spawn_ack(false),
{
}

/// A caller does not hang: behind a handler that says nothing, it is sent an
/// acknowledgement, as it would be sent a reply.
pub proof fn law_silence_is_acknowledged(
    before: ThreadsView,
    after: ThreadsView,
    table: TableView,
    peers: Option<Map<Seq<char>, PeerView>>,
    origin: Origin,
    out: Seq<EnvelopeView>,
)
    requires
        before.caller(origin.thread) is Some,
        is_reaction(before, after, table, peers, origin, ResponseView::Silent, Ok(out)),
    ensures
        out.len() == 1,
        out[0].payload == ack(),
        before.caller(origin.thread) matches Some((caller, _)) && out[0].meta.to == Some(
            address::flat(caller),
        ),
{
}

/// What the pipeline answers by itself reaches the one it is for: on the wire an
/// acknowledgement is read back as it was built, if its names and thread are.
pub proof fn law_acknowledgements_survive(
    from: Seq<char>,
    to: Seq<SegmentView>,
    thread: Seq<char>,
    provenance: Provenance,
    accepted: bool,
)
    requires
        grammar::address_survives(address::flat(from)),
        grammar::address_survives(to),
        thread.len() > 0,
        grammar::is_trimmed(thread),
    ensures
        grammar::envelope_survives(built(from, to, thread, provenance, ack())),
        grammar::envelope_survives(built(from, to, thread, provenance, spawn_ack(accepted))),
{
    reveal_strlit("ToolResponse");
    reveal_strlit("SpawnAck");
    reveal_strlit("success");
    reveal_strlit("result");
    reveal_strlit("accepted");
    reveal_strlit("ack");
    reveal_with_fuel(grammar::are_fields, 3);
    reveal_with_fuel(grammar::is_value, 3);
}

/// The reply to a call goes back to the one who called, on a thread whose chain is the
/// caller's own. Names are without dots, and new threads have identifiers not in use.
pub proof fn law_reply_returns_to_caller(
    before: ThreadsView,
    called: ThreadsView,
    after: ThreadsView,
    table: TableView,
    peers: Option<Map<Seq<char>, PeerView>>,
    caller: Origin,
    to: Seq<SegmentView>,
    request: PayloadView,
    sent: Seq<EnvelopeView>,
    callee: Origin,
    reply: PayloadView,
    out: Seq<EnvelopeView>,
)
    requires
        before.paired(),
        before.threads.contains_key(caller.thread),
        text::after_last(before.threads[caller.thread], '.') == caller.handler,
        before.threads[caller.thread].len() > 0,
        !listener_of(to).contains('.'),
        is_reaction(
            before,
            called,
            table,
            peers,
            caller,
            ResponseView::Send { to, payload: request },
            Ok(sent),
        ),
        before.chains.contains_key(before.extended(caller.thread, listener_of(to)))
            || !before.threads.contains_key(sent[0].meta.thread),
        callee.thread == sent[0].meta.thread,
        is_reaction(
            called,
            after,
            table,
            peers,
            callee,
            ResponseView::Reply { payload: reply },
            Ok(out),
        ),
    ensures
        out.len() == 1,
        out[0].meta.to == Some(address::flat(caller.handler)),
        out[0].payload == reply,
        after.chains.contains_key(before.threads[caller.thread]),
        after.chains[before.threads[caller.thread]] == out[0].meta.thread,
{
    thread::law_prune_undoes_extend(
        before,
        caller.thread,
        listener_of(to),
        sent[0].meta.thread,
    );
}

// ── Laws of routing ──────────────────────────────────────────────────

/// A message leaves the node exactly if its destination starts with the name of a peer,
/// whatever stands behind that name.
pub proof fn law_leaves_for_the_leading_peer(
    first: SegmentView,
    rest: Seq<SegmentView>,
    peers: Map<Seq<char>, PeerView>,
)
    ensures
        leaves_node(Some(seq![first] + rest), Some(peers)) <==> peers.contains_key(first.name),
        !leaves_node(Some(seq![first] + rest), None),
        !leaves_node(Some(seq![]), Some(peers)),
        !leaves_node(None, Some(peers)),
{
    assert((seq![first] + rest)[0] == first);
}

/// What leaves a node leaves for the peer that the sealed frame goes to.
pub proof fn law_leaving_has_a_peer(
    to: Option<Seq<SegmentView>>,
    peers: Map<Seq<char>, PeerView>,
)
    ensures
        leaves_node(to, Some(peers)) <==> federation::outbound_to(to, peers) is Ok,
{
}

/// The route stage hands a message on as it is, to a remote node or to a listener, or drops
/// it; a message that is not routed to a listener leaves the threads as they are.
pub proof fn law_routing_leaves_the_message(
    table: TableView,
    peers: Option<Map<Seq<char>, PeerView>>,
    before: ThreadsView,
    after: ThreadsView,
    env: EnvelopeView,
    payload: PayloadView,
    r: RouteOutcome,
)
    requires
        is_routing(table, peers, before, after, env, payload, r),
    ensures
        r matches RouteOutcome::Remote(out) ==> out@ == env,
        r matches RouteOutcome::Routed(out) ==> out.envelope@ == env && out.payload@ == payload,
        !(r is Routed) ==> after == before,
{
}

/// A message reaches a listener only if it does not leave the node, and only one that is
/// registered for its organism and tag, as the first of them, and that its sender may send
/// to. Where there is such a listener, it does.
pub proof fn law_routed_to_the_first_listener(
    table: TableView,
    peers: Option<Map<Seq<char>, PeerView>>,
    before: ThreadsView,
    after: ThreadsView,
    env: EnvelopeView,
    payload: PayloadView,
    r: RouteOutcome,
    to: Seq<SegmentView>,
    name: Seq<char>,
)
    requires
        is_routing(table, peers, before, after, env, payload, r),
        env.meta.to == Some(to),
        address::organism_of(to) == Some(name),
        !leaves_node(Some(to), peers),
    ensures
        ({
            let listeners = table.at(text::lowercase_of(name) + "."@ + text::lowercase_of(
                env.payload.tag,
            ));
            let allowed = listeners.len() > 0 && table.may_send(
                listener_of(env.meta.from),
                listeners[0].name,
            );
            &&& r is Routed <==> allowed
            &&& r matches RouteOutcome::Routed(out) ==> out.target_name@ == listeners[0].name
            &&& r is Dropped <==> !allowed
            &&& r matches RouteOutcome::Dropped(e) ==> if listeners.len() == 0 {
                e@ is NoRoute
            } else {
                e@ is PeerViolation
            }
        }),
{
}

/// A listener that is registered for a tag is sent the messages of that tag to its name,
/// if no other was registered for them before, and the sender may send to it.
pub proof fn law_registered_is_sent_messages(
    t: TableView,
    entry: ListenerView,
    tag: Seq<char>,
    peers: Option<Map<Seq<char>, PeerView>>,
    before: ThreadsView,
    after: ThreadsView,
    env: EnvelopeView,
    payload: PayloadView,
    r: RouteOutcome,
)
    requires
        entry.route_key == routing::route_key_of(Some(entry.name), tag),
        t.at(entry.route_key).len() == 0,
        env.meta.to == Some(address::flat(entry.name)),
        env.payload.tag == tag,
        !leaves_node(env.meta.to, peers),
        t.with(entry).may_send(listener_of(env.meta.from), entry.name),
        is_routing(t.with(entry), peers, before, after, env, payload, r),
    ensures
        r matches RouteOutcome::Routed(out) && out.target_name@ == entry.name,
{
    reveal_with_fuel(address::first_keyed, 2);
    assert(address::organism_of(address::flat(entry.name)) == Some(entry.name));
    assert(t.at(entry.route_key).push(entry)[0] == entry);
}

/// Routing a message on a new thread makes its sender the caller, with a root or without
/// one, if the names hold no dots and the chain of the two has no thread yet.
pub proof fn law_routed_sender_is_caller(
    t: ThreadsView,
    thread: Seq<char>,
    from: Seq<char>,
    target: Seq<char>,
)
    requires
        !t.threads.contains_key(thread),
        !from.contains('.'),
        !target.contains('.'),
        !t.chains.contains_key(t.outside_chain(from, target)),
    ensures
        ({
            let after = threads_routed(t, thread, from, target);
            &&& after.caller(thread) matches Some((caller, _)) && caller == from
            &&& after.threads.contains_key(thread)
            &&& text::after_last(after.threads[thread], '.') == target
            &&& t.root is Some ==> after.threads[thread].take(t.root_chain.len() as int)
                == t.root_chain
        }),
{
    reveal_strlit(".");
    assert("."@ =~= seq!['.']);
    let front = if t.root is Some {
        t.root_chain + "."@ + from
    } else {
        from
    };
    let chain = threads_routed(t, thread, from, target).threads[thread];
    assert(chain =~= front + "."@ + target);
    text::law_last_part(front, target, '.');
    if t.root is Some {
        text::law_last_part(t.root_chain, from, '.');
        assert(chain.take(t.root_chain.len() as int) =~= t.root_chain);
    } else {
        text::law_only_part(from, '.');
    }
    assert(chain[front.len() as int] == '.');
    assert(chain.contains('.'));
}

/// A thread that is known stays as it is, and so does every other: routing a message
/// changes nothing of a conversation that has begun.
pub proof fn law_routing_keeps_threads(
    t: ThreadsView,
    thread: Seq<char>,
    from: Seq<char>,
    target: Seq<char>,
    other: Seq<char>,
)
    requires
        t.threads.contains_key(other),
    ensures
        t.threads.contains_key(thread) ==> threads_routed(t, thread, from, target) == t,
        t.chains.contains_key(t.outside_chain(from, target)) ==> threads_routed(
            t,
            thread,
            from,
            target,
        ) == t,
        threads_routed(t, thread, from, target).threads.contains_key(other),
        threads_routed(t, thread, from, target).threads[other] == t.threads[other],
        t.paired() ==> threads_routed(t, thread, from, target).paired(),
{
}

/// The answer to a message that was just routed on a new thread goes to its sender: a reply
/// with what it says, and an acknowledgement where nothing is said.
pub proof fn law_answer_returns_to_sender(
    t: ThreadsView,
    after: ThreadsView,
    table: TableView,
    peers: Option<Map<Seq<char>, PeerView>>,
    origin: Origin,
    from: Seq<char>,
    response: ResponseView,
    out: Seq<EnvelopeView>,
)
    requires
        !t.threads.contains_key(origin.thread),
        !from.contains('.'),
        !origin.handler.contains('.'),
        !t.chains.contains_key(t.outside_chain(from, origin.handler)),
        response is Reply || response is Silent,
        is_reaction(
            threads_routed(t, origin.thread, from, origin.handler),
            after,
            table,
            peers,
            origin,
            response,
            Ok(out),
        ),
    ensures
        out.len() == 1,
        out[0].meta.to == Some(address::flat(from)),
        out[0].meta.from == address::flat(origin.handler),
        response matches ResponseView::Reply { payload } ==> out[0].payload == payload,
{
    law_routed_sender_is_caller(t, origin.thread, from, origin.handler);
}

// ── Laws of responses ────────────────────────────────────────────────

/// A message that a handler sends goes out as it was given: one envelope, to the whole
/// address and with the payload, so that it leaves the node exactly if that address does.
pub proof fn law_send_is_forwarded_whole(
    before: ThreadsView,
    after: ThreadsView,
    table: TableView,
    peers: Option<Map<Seq<char>, PeerView>>,
    origin: Origin,
    to: Seq<SegmentView>,
    payload: PayloadView,
    out: Seq<EnvelopeView>,
)
    requires
        is_reaction(
            before,
            after,
            table,
            peers,
            origin,
            ResponseView::Send { to, payload },
            Ok(out),
        ),
    ensures
        out.len() == 1,
        out[0].meta.to == Some(to),
        out[0].payload == payload,
        out[0].meta.from == address::flat(origin.handler),
        out[0].meta.provenance == origin.provenance,
        leaves_node(out[0].meta.to, peers) == leaves_node(Some(to), peers),
{
}

/// A message that a handler sends is on a thread of its own, whose chain is the handler's
/// with the callee behind it.
pub proof fn law_send_extends_the_chain(
    before: ThreadsView,
    after: ThreadsView,
    table: TableView,
    peers: Option<Map<Seq<char>, PeerView>>,
    origin: Origin,
    to: Seq<SegmentView>,
    payload: PayloadView,
    out: Seq<EnvelopeView>,
)
    requires
        before.paired(),
        before.threads.contains_key(origin.thread),
        before.threads[origin.thread].len() > 0,
        is_reaction(
            before,
            after,
            table,
            peers,
            origin,
            ResponseView::Send { to, payload },
            Ok(out),
        ),
        before.chains.contains_key(before.threads[origin.thread] + "."@ + listener_of(to))
            || !before.threads.contains_key(out[0].meta.thread),
    ensures
        after.threads.contains_key(out[0].meta.thread),
        after.threads[out[0].meta.thread] == before.threads[origin.thread] + "."@ + listener_of(to),
        out[0].meta.thread != origin.thread,
        after.threads[origin.thread] == before.threads[origin.thread],
{
    reveal_strlit(".");
    let chain = before.threads[origin.thread];
    assert(chain + "."@ + listener_of(to) != chain) by {
        assert((chain + "."@ + listener_of(to)).len() > chain.len());
    }
}

/// What a handler sends is refused exactly if its peers do not allow it; a refused message
/// names the two, and changes nothing.
pub proof fn law_send_is_refused_by_peers(
    before: ThreadsView,
    after: ThreadsView,
    table: TableView,
    peers: Option<Map<Seq<char>, PeerView>>,
    origin: Origin,
    to: Seq<SegmentView>,
    payload: PayloadView,
    r: Result<Seq<EnvelopeView>, ErrorView>,
)
    requires
        is_reaction(
            before,
            after,
            table,
            peers,
            origin,
            ResponseView::Send { to, payload },
            r,
        ),
    ensures
        r is Ok <==> table.may_send(origin.handler, listener_of(to)),
        r is Err ==> after == before,
        r matches Err(e) ==> (e matches ErrorView::PeerViolation { from, to: target, allowed }
            && from == origin.handler && target == listener_of(to) && !allowed.contains(target)),
{
    if let Err(ErrorView::PeerViolation { from: _, to: _, allowed }) = r {
        assert(allowed.to_set().contains(listener_of(to)) == allowed.contains(listener_of(to)));
    }
}

/// A reply is never refused: it goes to the caller on the thread's chain as it was given,
/// and nowhere where there is no caller.
pub proof fn law_reply_goes_to_the_caller(
    before: ThreadsView,
    after: ThreadsView,
    table: TableView,
    peers: Option<Map<Seq<char>, PeerView>>,
    origin: Origin,
    payload: PayloadView,
    r: Result<Seq<EnvelopeView>, ErrorView>,
)
    requires
        is_reaction(before, after, table, peers, origin, ResponseView::Reply { payload }, r),
    ensures
        r matches Ok(out) && match before.caller(origin.thread) {
            Some((caller, chain)) => {
                &&& out.len() == 1
                &&& out[0].meta.to == Some(address::flat(caller))
                &&& out[0].meta.from == address::flat(origin.handler)
                &&& out[0].payload == payload
                &&& after.chains.contains_key(chain)
                &&& after.chains[chain] == out[0].meta.thread
            },
            None => {
                &&& out.len() == 0
                &&& !after.threads.contains_key(origin.thread)
            },
        },
{
}

/// Silence is answered as a reply with the acknowledgement would be.
pub proof fn law_silence_is_a_reply(
    before: ThreadsView,
    after: ThreadsView,
    table: TableView,
    peers: Option<Map<Seq<char>, PeerView>>,
    origin: Origin,
    r: Result<Seq<EnvelopeView>, ErrorView>,
)
    ensures
        is_reaction(before, after, table, peers, origin, ResponseView::Silent, r) <==> is_reaction(
            before,
            after,
            table,
            peers,
            origin,
            ResponseView::Reply { payload: ack() },
            r,
        ),
        ack().tag == "ToolResponse"@,
        ack().value.get("success"@) == Some(ValueView::Boolean(true)),
        ack().value.get("result"@) == Some(ValueView::Text("ack"@)),
{
    reveal_strlit("success");
    reveal_strlit("result");
    reveal_with_fuel(wire::field_at, 3);
    assert("success"@.len() != "result"@.len());
}

/// A handler that delegates is always answered, on its own thread and by the system: the
/// work was accepted exactly if the handler may send it and the route stage will pass it
/// on, and then it goes out too, whole.
pub proof fn law_spawn_is_answered(
    before: ThreadsView,
    after: ThreadsView,
    table: TableView,
    peers: Option<Map<Seq<char>, PeerView>>,
    origin: Origin,
    to: Seq<SegmentView>,
    payload: PayloadView,
    r: Result<Seq<EnvelopeView>, ErrorView>,
)
    requires
        is_reaction(
            before,
            after,
            table,
            peers,
            origin,
            ResponseView::Spawn { to, payload },
            r,
        ),
    ensures
        r matches Ok(out) && out.len() > 0 && ({
            let answer = out.last();
            let accepted = table.may_send(origin.handler, listener_of(to)) && passes_routing(
                table,
                peers,
                built("system"@, to, origin.thread, origin.provenance, payload),
            );
            &&& answer.meta.to == Some(address::flat(origin.handler))
            &&& answer.meta.from == address::flat("system"@)
            &&& answer.meta.thread == origin.thread
            &&& answer.meta.provenance == origin.provenance
            &&& answer.payload.tag == "SpawnAck"@
            &&& answer.payload.value.get("accepted"@) == Some(ValueView::Boolean(accepted))
            &&& out.len() == if accepted {
                2int
            } else {
                1int
            }
            &&& accepted ==> out[0].meta.to == Some(to) && out[0].payload == payload
            &&& !accepted ==> after == before
        }),
{
    reveal_with_fuel(address::first_keyed, 2);
    reveal_with_fuel(wire::field_at, 2);
    assert(listener_of(address::flat("system"@)) == "system"@);
}

/// The reply to delegated work goes back to the one who delegated it, who is the only one
/// on its chain. Names are without dots, and new threads have identifiers not in use.
pub proof fn law_spawned_reply_returns(
    before: ThreadsView,
    spawned: ThreadsView,
    after: ThreadsView,
    table: TableView,
    peers: Option<Map<Seq<char>, PeerView>>,
    spawner: Origin,
    to: Seq<SegmentView>,
    work: PayloadView,
    sent: Seq<EnvelopeView>,
    callee: Origin,
    reply: PayloadView,
    out: Seq<EnvelopeView>,
)
    requires
        before.paired(),
        !spawner.handler.contains('.'),
        !listener_of(to).contains('.'),
        is_reaction(
            before,
            spawned,
            table,
            peers,
            spawner,
            ResponseView::Spawn { to, payload: work },
            Ok(sent),
        ),
        sent.len() == 2,
        before.chains.contains_key(spawner.handler + "."@ + listener_of(to))
            || !before.threads.contains_key(sent[0].meta.thread),
        callee.thread == sent[0].meta.thread,
        is_reaction(
            spawned,
            after,
            table,
            peers,
            callee,
            ResponseView::Reply { payload: reply },
            Ok(out),
        ),
    ensures
        out.len() == 1,
        out[0].meta.to == Some(address::flat(spawner.handler)),
        out[0].payload == reply,
        after.chains.contains_key(spawner.handler),
        after.chains[spawner.handler] == out[0].meta.thread,
{
    reveal_strlit(".");
    assert("."@ =~= seq!['.']);
    let chain = spawner.handler + "."@ + listener_of(to);
    thread::law_named_is_paired(before, chain, sent[0].meta.thread);
    text::law_last_part(spawner.handler, listener_of(to), '.');
    text::law_only_part(spawner.handler, '.');
    assert(chain[spawner.handler.len() as int] == '.');
    assert(chain.contains('.'));
}

// ── Laws of the other stages ─────────────────────────────────────────

/// A message that passes validation passes as it is, and what its handler will be given is
/// its own payload.
pub proof fn law_validation_leaves_the_message(
    schemas: Map<Seq<char>, PayloadSchema>,
    env: EnvelopeView,
    r: PipelineResult<ValidatedMsg>,
)
    requires
        is_validation(schemas, env, r),
    ensures
        r matches Ok(msg) ==> msg.envelope@ == env && msg.payload@ == env.payload,
{
}

/// A message without a schema for its tag passes. One with a schema passes exactly if it
/// has every required field and, where the schema is strict, no other than declared ones;
/// whom it is from and whom it is for do not matter.
pub proof fn law_validation_goes_by_the_payload(
    schemas: Map<Seq<char>, PayloadSchema>,
    env: EnvelopeView,
    fields: Seq<FieldView>,
    r: PipelineResult<ValidatedMsg>,
)
    requires
        is_validation(schemas, env, r),
        env.payload.value == ValueView::Rec(fields),
        schemas.contains_key(env.payload.tag) ==> validation::lists_fields(
            schemas[env.payload.tag]@,
        ),
    ensures
        !schemas.contains_key(env.payload.tag) ==> r is Ok,
        schemas.contains_key(env.payload.tag) ==> ({
            let schema = schemas[env.payload.tag]@;
            r is Ok <==> {
                &&& schema.strict ==> forall|i: int|
                    0 <= i < fields.len() ==> schema.fields.contains_key(
                        (#[trigger] fields[i]).name,
                    )
                &&& forall|name: Seq<char>| #[trigger]
                    schema.fields.contains_key(name) && schema.fields[name].required
                        ==> exists|i: int|
                        0 <= i < fields.len() && (#[trigger] fields[i]).name == name
            }
        }),
{
    if schemas.contains_key(env.payload.tag) {
        validation::law_record_accepted(fields, schemas[env.payload.tag]@);
    }
}

/// A handler is told who sent a message, on which thread and with which labels, as the
/// envelope has them, and its own name, which the pipeline routed by: nothing of this comes
/// from the payload.
pub proof fn law_context_is_the_envelopes(env: EnvelopeView, target: Seq<char>)
    ensures
        context_of(env, target).from == env.meta.from,
        context_of(env, target).thread_id == env.meta.thread,
        context_of(env, target).provenance == env.meta.provenance,
        address::organism_of(context_of(env, target).own_name) == Some(target),
        forall|other: EnvelopeView|
            other.meta == env.meta ==> #[trigger] context_of(other, target) == context_of(
                env,
                target,
            ),
{
    reveal_with_fuel(address::first_keyed, 2);
}

/// Middleware is told the same sender, thread and target as the handler, by their names.
pub proof fn law_middleware_is_told_the_same(
    env: EnvelopeView,
    payload: PayloadView,
    target: Seq<char>,
)
    ensures
        dispatch_view(env, payload, target).thread_id == context_of(env, target).thread_id,
        dispatch_view(env, payload, target).from == listener_of(context_of(env, target).from),
        dispatch_view(env, payload, target).to == listener_of(context_of(env, target).own_name),
        dispatch_view(env, payload, target).payload_tag == payload.tag,
{
    reveal_with_fuel(address::first_keyed, 2);
}

/// No response touches other conversations: every thread that was known, but for those that
/// are answered on and one that ends with its last answer, is known afterwards with the same
/// chain, and the root stays.
pub proof fn law_responses_keep_threads(
    before: ThreadsView,
    after: ThreadsView,
    table: TableView,
    peers: Option<Map<Seq<char>, PeerView>>,
    origin: Origin,
    response: ResponseView,
    r: Result<Seq<EnvelopeView>, ErrorView>,
    other: Seq<char>,
)
    requires
        is_reaction(before, after, table, peers, origin, response, r),
        before.threads.contains_key(other),
        other != origin.thread || before.caller(origin.thread) is Some || response is Send,
        r matches Ok(out) ==> forall|i: int|
            0 <= i < out.len() ==> (#[trigger] out[i]).meta.thread != other,
    ensures
        after.threads.contains_key(other),
        after.threads[other] == before.threads[other],
        after.root == before.root,
        after.root_chain == before.root_chain,
{
    if let Ok(out) = r {
        if out.len() > 0 {
            assert(out[0].meta.thread != other);
        }
    }
}

/// A message goes by the organisms of its addresses; an address without one stands for the
/// empty name.
pub proof fn law_listener_is_the_organism(a: Seq<SegmentView>)
    ensures
        a.len() > 0 ==> address::organism_of(a) == Some(listener_of(a)),
        a.len() == 0 ==> listener_of(a).len() == 0,
{
}

/// A message that is routed on a new thread makes its sender the caller there, and one on a
/// known thread leaves the threads as they are.
pub proof fn law_routing_begins_the_conversation(
    table: TableView,
    peers: Option<Map<Seq<char>, PeerView>>,
    before: ThreadsView,
    after: ThreadsView,
    env: EnvelopeView,
    payload: PayloadView,
    out: RoutedMsg,
)
    requires
        is_routing(table, peers, before, after, env, payload, RouteOutcome::Routed(out)),
        !listener_of(env.meta.from).contains('.'),
        !out.target_name@.contains('.'),
        !before.chains.contains_key(
            before.outside_chain(listener_of(env.meta.from), out.target_name@),
        ),
    ensures
        before.threads.contains_key(env.meta.thread) ==> after == before,
        !before.threads.contains_key(env.meta.thread) ==> {
            &&& after.threads.contains_key(env.meta.thread)
            &&& after.caller(env.meta.thread) matches Some((caller, _)) && caller == listener_of(
                env.meta.from,
            )
            &&& text::after_last(after.threads[env.meta.thread], '.') == out.target_name@
        },
{
    if !before.threads.contains_key(env.meta.thread) {
        law_routed_sender_is_caller(
            before,
            env.meta.thread,
            listener_of(env.meta.from),
            out.target_name@,
        );
    }
}

} // verus!
