//! The full message flow:
//! inject raw bytes → decode → validate → route → dispatch → reinject → ...

use std::cell::RefCell;
use std::collections::VecDeque;
use std::rc::Rc;

use rust_pipeline::codec::{decode_envelope, encode_envelope};
use rust_pipeline::error::PipelineError;
use rust_pipeline::federation::{Peer, PeerDirectory};
use rust_pipeline::handler::{HandlerContext, HandlerResponse, HandlerResult, ValidatedPayload};
use rust_pipeline::middleware::{
    DispatchAction, DispatchMeta, DispatchRun, PostDispatchVerdict, PreDispatchVerdict,
};
use rust_pipeline::pipeline::{
    dispatch_meta, handler_context, respond, route_message, validate_message, RouteOutcome,
};
use rust_pipeline::registry::ListenerRegistry;
use rust_pipeline::thread::ThreadRegistry;
use rust_pipeline::wire::{Address, Envelope, Meta, Payload, PayloadValue, Provenance};

type TestHandler = Box<dyn Fn(ValidatedPayload, HandlerContext) -> HandlerResult>;

trait TestMiddleware {
    fn pre_dispatch(
        &self,
        _meta: &DispatchMeta,
        _payload: &ValidatedPayload,
    ) -> Result<PreDispatchVerdict, PipelineError> {
        Ok(PreDispatchVerdict::Continue)
    }

    fn post_dispatch(
        &self,
        _meta: &DispatchMeta,
        _payload: &ValidatedPayload,
        response: HandlerResponse,
    ) -> Result<PostDispatchVerdict, PipelineError> {
        Ok(PostDispatchVerdict::PassThrough(response))
    }
}

/// Drives the stages one message at a time.
struct Pump {
    registry: ListenerRegistry<TestHandler>,
    threads: ThreadRegistry,
    middleware: Vec<Box<dyn TestMiddleware>>,
    directory: Option<PeerDirectory>,
    ingress: VecDeque<Vec<u8>>,
    remote: Vec<Envelope>,
    errors: Vec<String>,
}

impl Pump {
    fn new(registry: ListenerRegistry<TestHandler>, threads: ThreadRegistry) -> Pump {
        Pump {
            registry,
            threads,
            middleware: Vec::new(),
            directory: None,
            ingress: VecDeque::new(),
            remote: Vec::new(),
            errors: Vec::new(),
        }
    }

    fn inject(&mut self, raw: Vec<u8>) {
        self.ingress.push_back(raw);
    }

    fn run(&mut self) {
        while let Some(raw) = self.ingress.pop_front() {
            if let Err(e) = self.step(raw) {
                self.errors.push(e.to_string());
            }
        }
    }

    fn step(&mut self, raw: Vec<u8>) -> Result<(), PipelineError> {
        let envelope = decode_envelope(&raw)?;
        let msg = validate_message(&self.registry.schemas, envelope)?;
        let outcome =
            route_message(&self.registry, &mut self.threads, self.directory.as_ref(), msg);
        let msg = match outcome {
            RouteOutcome::Routed(msg) => msg,
            RouteOutcome::Remote(envelope) => {
                self.remote.push(envelope);
                return Ok(());
            }
            RouteOutcome::Dropped(e) => return Err(e),
        };
        let handler = self.registry.get_handler(&msg.target_name).expect("every listener has one");
        let meta = dispatch_meta(&msg);
        let mut run = DispatchRun::new(self.middleware.len(), msg.payload.clone());
        let result = loop {
            run = match run.action() {
                DispatchAction::Pre(i) => {
                    let verdict = self.middleware[i].pre_dispatch(&meta, run.payload());
                    run.on_pre(verdict)
                }
                DispatchAction::Handle => {
                    let result = handler(run.payload().clone(), handler_context(&msg));
                    run.on_handled(result)
                }
                DispatchAction::Post(i) => {
                    let response = run.response().expect("a response to post-process");
                    let verdict = self.middleware[i].post_dispatch(&meta, run.payload(), response);
                    run.on_post(verdict)
                }
                DispatchAction::Done => match run.finish() {
                    Ok(result) => break result,
                    Err(_) => unreachable!(),
                },
            };
        };
        let table = &self.registry.routing;
        let reaction = respond(table, self.directory.as_ref(), &mut self.threads, &msg, result);
        for env in reaction? {
            self.ingress.push_back(encode_envelope(&env)?);
        }
        Ok(())
    }
}

/// Build inbound wire bytes for a message.
fn inbound(from: &str, to: &str, thread: &str, payload: Payload) -> Vec<u8> {
    encode_envelope(&Envelope {
        meta: Meta {
            from: from.into(),
            to: Some(to.into()),
            thread: thread.into(),
            provenance: Provenance::empty(),
        },
        payload,
    })
    .unwrap()
}

/// The text of a payload's `text` field, or "" — the common assertion target.
fn text_of(p: &ValidatedPayload) -> String {
    p.value.get("text").and_then(|v| v.as_text()).unwrap_or("").to_string()
}

type Log = Rc<RefCell<Vec<String>>>;

/// Forward handler: receives a Greeting and forwards it (re-tagged) to "sink".
fn forward_handler() -> TestHandler {
    Box::new(|p, _ctx| {
        Ok(HandlerResponse::Send {
            to: "sink".into(),
            payload: Payload::new("Response", p.value.clone()),
        })
    })
}

/// Sink handler: records received messages for verification.
fn sink_handler(received: Log) -> TestHandler {
    Box::new(move |p, ctx| {
        received.borrow_mut().push(format!(
            "from={} thread={} payload={}",
            ctx.from.to_string(),
            ctx.thread_id,
            text_of(&p)
        ));
        Ok(HandlerResponse::Silent)
    })
}

fn rooted_threads() -> ThreadRegistry {
    let mut threads = ThreadRegistry::new();
    threads.initialize_root("test");
    threads
}

fn echo_pump() -> Pump {
    let mut registry: ListenerRegistry<TestHandler> = ListenerRegistry::new();
    registry.register(
        "echo",
        "Greeting",
        Box::new(|p: ValidatedPayload, _ctx| Ok(HandlerResponse::Reply { payload: p.to_payload() })),
        false,
        vec![],
        "Echo handler",
        None,
    );
    Pump::new(registry, ThreadRegistry::new())
}

#[test]
fn pipeline_creates() {
    let pump = echo_pump();
    assert!(pump.registry.has_listener("echo"));
}

/// A parent that sends to "child" first and records what comes back then, and a child
/// that has nothing to say.
fn parent_and_child(record: fn(&ValidatedPayload) -> String) -> (Pump, Log) {
    let received: Log = Rc::default();
    let log = received.clone();
    let calls = Rc::new(RefCell::new(0u32));
    let parent: TestHandler = Box::new(move |p, _ctx| {
        *calls.borrow_mut() += 1;
        if *calls.borrow() == 1 {
            // First call: forward to child
            Ok(HandlerResponse::Send {
                to: "child".into(),
                payload: Payload::single("ChildRequest", "data", "go"),
            })
        } else {
            // Subsequent call: record what we received
            log.borrow_mut().push(record(&p));
            Ok(HandlerResponse::Silent)
        }
    });
    let child: TestHandler = Box::new(|_p, _ctx| Ok(HandlerResponse::Silent));

    let mut registry: ListenerRegistry<TestHandler> = ListenerRegistry::new();
    registry.register(
        "parent", "ParentRequest", parent, false, vec!["child".into()], "Parent", None,
    );
    // Register ToolResponse route so ACK replies route back to parent
    registry.routing.register("parent", "ToolResponse", false, vec!["child".into()], "Parent");
    registry.register("child", "ChildRequest", child, false, vec![], "Child", None);
    (Pump::new(registry, ThreadRegistry::new()), received)
}

fn result_of(p: &ValidatedPayload) -> String {
    p.value.get("result").and_then(|v| v.as_text()).unwrap_or("").to_string()
}

#[test]
fn none_with_parent_synthesizes_ack() {
    // Parent handler forwards to child, child returns nothing.
    // An ACK goes back to the parent.
    let (mut pump, received) = parent_and_child(|p| format!("{}:{}", p.tag, result_of(p)));
    pump.inject(inbound(
        "test-sender",
        "parent",
        "thread-ack-1",
        Payload::single("ParentRequest", "task", "do it"),
    ));
    pump.run();

    let msgs = received.borrow();
    assert_eq!(msgs.len(), 1, "parent should receive exactly one ACK");
    assert!(msgs[0].contains("ToolResponse"), "ACK should be a ToolResponse");
    assert!(msgs[0].contains("ack"), "ACK should contain 'ack'");
}

#[test]
fn none_at_root_stays_silent() {
    // Handler returns nothing with no parent — thread ends silently
    let mut registry: ListenerRegistry<TestHandler> = ListenerRegistry::new();
    let sink: TestHandler = Box::new(|_p, _ctx| Ok(HandlerResponse::Silent));
    registry.register("sink", "SinkRequest", sink, false, vec![], "Sink", None);

    let mut pump = Pump::new(registry, ThreadRegistry::new());
    pump.inject(inbound(
        "test-sender",
        "sink",
        "thread-silent-1",
        Payload::single("SinkRequest", "data", "gone"),
    ));
    pump.run();
    // The ACK for the sender finds no listener.
    assert_eq!(pump.errors, vec!["no route for: test-sender.toolresponse".to_string()]);
}

#[test]
fn inject_and_process() {
    // Sink handler: receives messages and records them
    let received: Log = Rc::default();
    let log = received.clone();
    let sink: TestHandler = Box::new(move |p, _ctx| {
        log.borrow_mut().push(text_of(&p));
        Ok(HandlerResponse::Silent)
    });
    let mut registry: ListenerRegistry<TestHandler> = ListenerRegistry::new();
    registry.register("sink", "Greeting", sink, false, vec![], "Sink", None);

    let mut pump = Pump::new(registry, rooted_threads());
    pump.inject(inbound(
        "test-sender",
        "sink",
        "test-thread-001",
        Payload::single("Greeting", "text", "hello"),
    ));
    pump.run();

    let msgs = received.borrow();
    assert_eq!(msgs.len(), 1);
    assert!(msgs[0].contains("hello"));
}

#[test]
fn middleware_pre_dispatch_short_circuit() {
    // Middleware short-circuits: handler should NOT be called.
    let handler_called = Rc::new(RefCell::new(false));
    let called = handler_called.clone();
    let sink: TestHandler = Box::new(move |_p, _ctx| {
        *called.borrow_mut() = true;
        Ok(HandlerResponse::Silent)
    });
    let mut registry: ListenerRegistry<TestHandler> = ListenerRegistry::new();
    registry.register("sink", "Greeting", sink, false, vec![], "Sink", None);
    let mut pump = Pump::new(registry, ThreadRegistry::new());

    // Short-circuit middleware: always blocks
    struct BlockAll;
    impl TestMiddleware for BlockAll {
        fn pre_dispatch(
            &self,
            _meta: &DispatchMeta,
            _payload: &ValidatedPayload,
        ) -> Result<PreDispatchVerdict, PipelineError> {
            Ok(PreDispatchVerdict::ShortCircuit(HandlerResponse::Silent))
        }
    }
    pump.middleware.push(Box::new(BlockAll));
    pump.inject(inbound(
        "test-sender",
        "sink",
        "thread-mw-1",
        Payload::single("Greeting", "text", "hi"),
    ));
    pump.run();

    assert!(
        !*handler_called.borrow(),
        "handler should not be called when middleware short-circuits"
    );
}

#[test]
fn middleware_post_dispatch_replace() {
    // Handler returns nothing, middleware replaces with Reply.
    // We verify the replacement by having a parent receive the reply.
    let (mut pump, received) = parent_and_child(result_of);

    // Middleware that replaces silence with Reply for child handler
    struct ReplaceNone;
    impl TestMiddleware for ReplaceNone {
        fn post_dispatch(
            &self,
            meta: &DispatchMeta,
            _payload: &ValidatedPayload,
            response: HandlerResponse,
        ) -> Result<PostDispatchVerdict, PipelineError> {
            if meta.to == "child" && matches!(response, HandlerResponse::Silent) {
                return Ok(PostDispatchVerdict::Replace(HandlerResponse::Reply {
                    payload: Payload::new(
                        "ToolResponse",
                        PayloadValue::record(vec![
                            ("success", PayloadValue::Boolean(true)),
                            ("result", PayloadValue::text("replaced")),
                        ]),
                    ),
                }));
            }
            Ok(PostDispatchVerdict::PassThrough(response))
        }
    }
    pump.middleware.push(Box::new(ReplaceNone));
    pump.inject(inbound(
        "test-sender",
        "parent",
        "thread-mw-2",
        Payload::single("ParentRequest", "task", "do it"),
    ));
    pump.run();

    let msgs = received.borrow();
    assert_eq!(msgs.len(), 1, "parent should receive middleware-replaced response");
    assert!(msgs[0].contains("replaced"), "response should contain middleware replacement");
}

#[test]
fn middleware_pre_dispatch_transform() {
    // Middleware transforms the payload before the handler sees it.
    let received: Log = Rc::default();
    let log = received.clone();
    let sink: TestHandler = Box::new(move |p, _ctx| {
        log.borrow_mut().push(text_of(&p));
        Ok(HandlerResponse::Silent)
    });
    let mut registry: ListenerRegistry<TestHandler> = ListenerRegistry::new();
    registry.register("sink", "Greeting", sink, false, vec![], "Sink", None);
    let mut pump = Pump::new(registry, ThreadRegistry::new());

    // Middleware that marks the payload's text field
    struct Quarantine;
    impl TestMiddleware for Quarantine {
        fn pre_dispatch(
            &self,
            _meta: &DispatchMeta,
            payload: &ValidatedPayload,
        ) -> Result<PreDispatchVerdict, PipelineError> {
            let orig = payload.value.get("text").and_then(|v| v.as_text()).unwrap_or("");
            let marked = PayloadValue::record(vec![(
                "text",
                PayloadValue::text(&format!("[quarantined] {orig}")),
            )]);
            Ok(PreDispatchVerdict::Transform(ValidatedPayload::new(&payload.tag, marked)))
        }
    }
    pump.middleware.push(Box::new(Quarantine));
    pump.inject(inbound(
        "test-sender",
        "sink",
        "thread-mw-transform",
        Payload::single("Greeting", "text", "hello"),
    ));
    pump.run();

    let msgs = received.borrow();
    assert_eq!(msgs.len(), 1);
    assert!(
        msgs[0].contains("[quarantined] hello"),
        "handler should see transformed payload, got: {}",
        msgs[0]
    );
}

#[test]
fn empty_middleware_vec_no_effect() {
    // No middleware should work exactly as before.
    let received: Log = Rc::default();
    let log = received.clone();
    let sink: TestHandler = Box::new(move |p, _ctx| {
        log.borrow_mut().push(text_of(&p));
        Ok(HandlerResponse::Silent)
    });
    let mut registry: ListenerRegistry<TestHandler> = ListenerRegistry::new();
    registry.register("sink", "Greeting", sink, false, vec![], "Sink", None);
    let mut pump = Pump::new(registry, ThreadRegistry::new());
    pump.inject(inbound(
        "test-sender",
        "sink",
        "thread-mw-3",
        Payload::single("Greeting", "text", "works"),
    ));
    pump.run();

    let msgs = received.borrow();
    assert_eq!(msgs.len(), 1);
    assert!(msgs[0].contains("works"));
}

#[test]
fn federation_egress_routes_remote_namespace() {
    // A local listener "bob" that must NOT receive a remote-addressed message.
    let local_hits = Rc::new(RefCell::new(0u32));
    let hits = local_hits.clone();
    let bob: TestHandler = Box::new(move |_p, _ctx| {
        *hits.borrow_mut() += 1;
        Ok(HandlerResponse::Silent)
    });
    let mut registry: ListenerRegistry<TestHandler> = ListenerRegistry::new();
    registry.register("bob", "Greeting", bob, false, vec![], "local bob", None);
    let mut pump = Pump::new(registry, ThreadRegistry::new());

    // "ringhub" is a registered remote peer node.
    let mut dir = PeerDirectory::new();
    dir.register(Peer {
        namespace: "ringhub".into(),
        endpoint: "x".into(),
        key: [0u8; 32],
        inbound_provenance: Provenance::empty(),
    });
    pump.directory = Some(dir);

    // Address to ringhub.bob → leading segment "ringhub" is remote → federation egress.
    let env = Envelope {
        meta: Meta {
            from: "ext".into(),
            to: Some(Address::parse("ringhub.bob").unwrap()),
            thread: "t-fed".into(),
            provenance: Provenance::empty(),
        },
        payload: Payload::single("Greeting", "text", "hi"),
    };
    pump.inject(encode_envelope(&env).unwrap());
    pump.run();

    // It left the node; local "bob" did not get it.
    assert_eq!(pump.remote.len(), 1);
    assert_eq!(pump.remote[0].meta.to.as_ref().unwrap().to_string(), "ringhub.bob");
    assert_eq!(*local_hits.borrow(), 0);
}

#[test]
fn single_handler_receives_message() {
    let received: Log = Rc::default();
    let mut registry: ListenerRegistry<TestHandler> = ListenerRegistry::new();
    registry.register(
        "sink", "Greeting", sink_handler(received.clone()), false, vec![], "Sink handler", None,
    );
    let mut pump = Pump::new(registry, rooted_threads());
    pump.inject(inbound(
        "external",
        "sink",
        "thread-001",
        Payload::single("Greeting", "text", "hello world"),
    ));
    pump.run();

    let msgs = received.borrow();
    assert_eq!(msgs.len(), 1, "sink should receive exactly one message");
    assert!(msgs[0].contains("hello world"), "payload should contain text");
    assert!(msgs[0].contains("from=external"), "should know the sender");
}

#[test]
fn two_handler_chain() {
    // forwarder → sink chain
    let received: Log = Rc::default();
    let mut registry: ListenerRegistry<TestHandler> = ListenerRegistry::new();
    registry.register(
        "forwarder",
        "Greeting",
        forward_handler(),
        false,
        vec![],
        "Forwards greeting as response",
        None,
    );
    registry.register(
        "sink", "Response", sink_handler(received.clone()), false, vec![], "Records messages", None,
    );
    let mut pump = Pump::new(registry, rooted_threads());
    pump.inject(inbound(
        "test-sender",
        "forwarder",
        "thread-chain-001",
        Payload::single("Greeting", "text", "chain test"),
    ));
    pump.run();

    let msgs = received.borrow();
    assert_eq!(msgs.len(), 1, "sink should receive the forwarded message");
    assert!(msgs[0].contains("chain test"), "payload should survive the chain");
    assert!(
        msgs[0].contains("from=forwarder"),
        "sender should be forwarder (not original sender)"
    );
}

#[test]
fn peer_enforcement_blocks_unauthorized() {
    let received: Log = Rc::default();
    let mut registry: ListenerRegistry<TestHandler> = ListenerRegistry::new();
    // Agent with peers: can only talk to "allowed-target"
    registry.register(
        "restricted-agent",
        "Greeting",
        forward_handler(),             // tries to send to "sink"
        true,                          // is_agent = true
        vec!["allowed-target".into()], // NOT "sink"
        "Restricted agent",
        None,
    );
    registry.register(
        "sink", "Response", sink_handler(received.clone()), false, vec![], "Should NOT receive", None,
    );
    let mut pump = Pump::new(registry, rooted_threads());
    pump.inject(inbound(
        "system",
        "restricted-agent",
        "thread-peer-001",
        Payload::single("Greeting", "text", "sneaky message"),
    ));
    pump.run();

    assert_eq!(
        received.borrow().len(),
        0,
        "sink should NOT receive message (peer violation)"
    );
    assert_eq!(
        pump.errors,
        vec![
            "peer violation: restricted-agent cannot message sink (allowed: [\"allowed-target\"])"
                .to_string()
        ]
    );
}

#[test]
fn multiple_messages_processed() {
    let received: Log = Rc::default();
    let mut registry: ListenerRegistry<TestHandler> = ListenerRegistry::new();
    registry.register(
        "sink", "Greeting", sink_handler(received.clone()), false, vec![], "Collects all messages", None,
    );
    let mut pump = Pump::new(registry, rooted_threads());
    // Inject 10 messages
    for i in 0..10 {
        let thread = format!("thread-{i:03}");
        pump.inject(inbound(
            "sender",
            "sink",
            &thread,
            Payload::single("Greeting", "text", &format!("msg-{i}")),
        ));
    }
    pump.run();

    assert_eq!(received.borrow().len(), 10, "all 10 messages should be received");
}

#[test]
fn malformed_bytes_rejected() {
    let received: Log = Rc::default();
    let mut registry: ListenerRegistry<TestHandler> = ListenerRegistry::new();
    registry.register(
        "sink", "Greeting", sink_handler(received.clone()), false, vec![], "Should NOT receive", None,
    );
    let mut pump = Pump::new(registry, ThreadRegistry::new());
    // Garbage bytes — rejected at decode stage
    pump.inject(b"this is not XML at all".to_vec());
    // Truncated envelope — rejected at decode stage
    pump.inject(b"<message><meta><from>x</from>".to_vec());
    pump.run();

    assert_eq!(
        received.borrow().len(),
        0,
        "malformed messages should be rejected at decode stage"
    );
    assert_eq!(pump.errors.len(), 2);
}

#[test]
fn provenance_propagates_across_hops() {
    // Inject with a two-bit provenance set (one bit crosses the 64-bit boundary),
    // route through forwarder → sink, and assert the FULL set survives the hop.
    let seen: Rc<RefCell<Option<Provenance>>> = Rc::default();
    let slot = seen.clone();
    let prov_sink: TestHandler = Box::new(move |_p, ctx| {
        *slot.borrow_mut() = Some(ctx.provenance);
        Ok(HandlerResponse::Silent)
    });
    let mut registry: ListenerRegistry<TestHandler> = ListenerRegistry::new();
    registry.register(
        "forwarder",
        "Greeting",
        forward_handler(),
        false,
        vec![],
        "Forwards (carries provenance)",
        None,
    );
    registry.register("sink", "Response", prov_sink, false, vec![], "Observes provenance", None);
    let mut pump = Pump::new(registry, rooted_threads());

    let env = Envelope {
        meta: Meta {
            from: "ext".into(),
            to: Some("forwarder".into()),
            thread: "thread-prov".into(),
            provenance: Provenance::from_bit(3).union(Provenance::from_bit(70)),
        },
        payload: Payload::single("Greeting", "text", "x"),
    };
    pump.inject(encode_envelope(&env).unwrap());
    pump.run();

    let observed = seen.borrow().expect("sink should have observed provenance");
    assert!(observed.contains_bit(3), "bit 3 should survive the hop");
    assert!(observed.contains_bit(70), "bit 70 (high word) should survive the hop");
    assert!(!observed.contains_bit(5), "unset bit must not appear");
}

// ── Middleware hooks ──

fn test_payload() -> ValidatedPayload {
    ValidatedPayload::new("Greeting", PayloadValue::record(vec![("text", PayloadValue::text("hi"))]))
}

fn response_of(run: DispatchRun) -> HandlerResult {
    match run.finish() {
        Ok(result) => result,
        Err(_) => panic!("the dispatch has not ended"),
    }
}

#[test]
fn noop_pre_dispatch_continues() {
    let run = DispatchRun::new(1, test_payload());
    assert_eq!(run.action(), DispatchAction::Pre(0));
    let run = run.on_pre(Ok(PreDispatchVerdict::Continue));
    assert_eq!(run.action(), DispatchAction::Handle);
    assert_eq!(run.payload(), &test_payload());
}

#[test]
fn noop_post_dispatch_passes_through() {
    let run = DispatchRun::new(1, test_payload())
        .on_pre(Ok(PreDispatchVerdict::Continue))
        .on_handled(Ok(HandlerResponse::Silent));
    assert_eq!(run.action(), DispatchAction::Post(0));
    assert_eq!(run.response(), Some(HandlerResponse::Silent));
    let run = run.on_post(Ok(PostDispatchVerdict::PassThrough(HandlerResponse::Silent)));
    assert_eq!(run.action(), DispatchAction::Done);
    assert_eq!(response_of(run).unwrap(), HandlerResponse::Silent);
}

#[test]
fn always_block_short_circuits() {
    let blocked = HandlerResponse::reply(Payload::new("Blocked", PayloadValue::Nil));
    let run = DispatchRun::new(3, test_payload())
        .on_pre(Ok(PreDispatchVerdict::Continue))
        .on_pre(Ok(PreDispatchVerdict::ShortCircuit(blocked.clone())));
    // the handler and the hooks before it are skipped; every hook behind it is not
    assert_eq!(run.action(), DispatchAction::Post(2));
    assert_eq!(run.response(), Some(blocked));
}

#[test]
fn post_dispatch_can_replace() {
    let replaced = HandlerResponse::reply(Payload::new("Replaced", PayloadValue::Nil));
    let run = DispatchRun::new(1, test_payload())
        .on_pre(Ok(PreDispatchVerdict::Continue))
        .on_handled(Ok(HandlerResponse::Silent))
        .on_post(Ok(PostDispatchVerdict::Replace(replaced.clone())));
    assert_eq!(response_of(run).unwrap(), replaced);
}

#[test]
fn hooks_wrap_the_handler() {
    let mut run = DispatchRun::new(2, test_payload());
    let mut calls = Vec::new();
    while run.action() != DispatchAction::Done {
        calls.push(run.action());
        run = match run.action() {
            DispatchAction::Pre(_) => run.on_pre(Ok(PreDispatchVerdict::Continue)),
            DispatchAction::Handle => run.on_handled(Ok(HandlerResponse::Silent)),
            _ => run.on_post(Ok(PostDispatchVerdict::PassThrough(HandlerResponse::Silent))),
        };
    }
    assert_eq!(
        calls,
        vec![
            DispatchAction::Pre(0),
            DispatchAction::Pre(1),
            DispatchAction::Handle,
            DispatchAction::Post(1),
            DispatchAction::Post(0),
        ]
    );
}

#[test]
fn failing_hooks_fail_the_dispatch() {
    let boom = || PipelineError::Handler("boom".into());
    let run = DispatchRun::new(2, test_payload()).on_pre(Err(boom()));
    assert_eq!(response_of(run).unwrap_err().to_string(), "handler error: boom");
    let run = DispatchRun::new(0, test_payload()).on_handled(Err(boom()));
    assert_eq!(response_of(run).unwrap_err().to_string(), "handler error: boom");
    let run = DispatchRun::new(1, test_payload())
        .on_pre(Ok(PreDispatchVerdict::Continue))
        .on_handled(Ok(HandlerResponse::Silent))
        .on_post(Err(boom()));
    assert_eq!(
        response_of(run).unwrap_err().to_string(),
        "handler error: middleware post-dispatch error"
    );
    // a run that has not ended is handed back
    let run = DispatchRun::new(1, test_payload()).finish().unwrap_err();
    assert_eq!(run.action(), DispatchAction::Pre(0));
}

// ── Delegation and replies ──

#[test]
fn spawn_hands_work_over_and_acknowledges() {
    let received: Log = Rc::default();
    let log = received.clone();
    let boss: TestHandler = Box::new(move |p, ctx| {
        log.borrow_mut().push(format!(
            "{} from {}",
            p.tag,
            ctx.from.to_string()
        ));
        match p.tag.as_str() {
            "Job" => Ok(HandlerResponse::spawn(
                "worker".into(),
                Payload::single("Work", "text", "dig"),
            )),
            "SpawnAck" => {
                assert_eq!(ctx.thread_id, "thread-spawn");
                assert_eq!(p.value.get("accepted"), Some(&PayloadValue::Boolean(true)));
                Ok(HandlerResponse::reply(Payload::single("Note", "text", "working on it")))
            }
            _ => Ok(HandlerResponse::Silent),
        }
    });
    let worker: TestHandler = Box::new(|p, ctx| {
        // the worker learns neither who delegates nor on which thread
        assert_eq!(ctx.from, Address::flat("system"));
        assert_ne!(ctx.thread_id, "thread-spawn");
        Ok(HandlerResponse::reply(Payload::single("Done", "text", &text_of(&p))))
    });
    let mut registry: ListenerRegistry<TestHandler> = ListenerRegistry::new();
    registry.register("boss", "Job", boss, true, vec!["worker".into()], "Boss", None);
    registry.routing.register("boss", "SpawnAck", true, vec!["worker".into()], "Boss");
    registry.routing.register("boss", "Done", true, vec!["worker".into()], "Boss");
    registry.register("worker", "Work", worker, false, vec![], "Worker", None);
    let mut pump = Pump::new(registry, ThreadRegistry::new());
    pump.inject(inbound("client", "boss", "thread-spawn", Payload::single("Job", "text", "x")));
    pump.run();

    assert_eq!(
        *received.borrow(),
        vec![
            "Job from client".to_string(),
            "SpawnAck from system".to_string(),
            "Done from worker".to_string(),
        ]
    );
    // the note goes to the client, who does not listen here
    assert_eq!(pump.errors, vec!["no route for: client.note".to_string()]);
}

#[test]
fn spawn_that_cannot_be_delivered_says_so() {
    for (peers, target) in [(vec!["other"], "worker"), (vec!["nobody"], "nobody")] {
        let acks: Log = Rc::default();
        let log = acks.clone();
        let boss: TestHandler = Box::new(move |p, _ctx| {
            if p.tag == "SpawnAck" {
                log.borrow_mut().push(format!("{:?}", p.value.get("accepted")));
                return Ok(HandlerResponse::Silent);
            }
            Ok(HandlerResponse::spawn(target.into(), Payload::single("Work", "text", "dig")))
        });
        let worker: TestHandler = Box::new(|_p, _ctx| panic!("must not be called"));
        let peers: Vec<String> = peers.iter().map(|p| p.to_string()).collect();
        let mut registry: ListenerRegistry<TestHandler> = ListenerRegistry::new();
        registry.register("boss", "Job", boss, true, peers.clone(), "Boss", None);
        registry.routing.register("boss", "SpawnAck", true, peers, "Boss");
        registry.register("worker", "Work", worker, false, vec![], "Worker", None);
        let mut pump = Pump::new(registry, ThreadRegistry::new());
        pump.inject(inbound("client", "boss", "t", Payload::single("Job", "text", "x")));
        pump.run();
        assert_eq!(*acks.borrow(), vec!["Some(Boolean(false))".to_string()]);
    }
}

#[test]
fn replies_return_to_the_caller() {
    let mut pump = echo_pump();
    let raw = inbound("client", "echo", "t-1", Payload::single("Greeting", "text", "hi"));
    pump.step(raw).unwrap();
    let env = decode_envelope(&pump.ingress[0]).unwrap();
    assert_eq!(env.meta.from, Address::flat("echo"));
    assert_eq!(env.meta.to, Some(Address::flat("client")));
    assert_eq!(env.payload, Payload::single("Greeting", "text", "hi"));
    assert_eq!(pump.threads.lookup(&env.meta.thread), Some("client"));
    // a handler that fails has nothing reinjected
    let msg = validate_message(&pump.registry.schemas, env).unwrap();
    let routed = route_message(&pump.registry, &mut pump.threads, None, msg);
    assert!(matches!(routed, RouteOutcome::Dropped(PipelineError::NoRoute(_))));
}

#[test]
fn spawn_reaches_remote_nodes() {
    let acks: Log = Rc::default();
    let log = acks.clone();
    let boss: TestHandler = Box::new(move |p, _ctx| {
        if p.tag == "SpawnAck" {
            log.borrow_mut().push(format!("{:?}", p.value.get("accepted")));
            return Ok(HandlerResponse::Silent);
        }
        Ok(HandlerResponse::spawn(
            Address::parse("ringhub.bob").unwrap(),
            Payload::single("Work", "text", "dig"),
        ))
    });
    let mut registry: ListenerRegistry<TestHandler> = ListenerRegistry::new();
    registry.register("boss", "Job", boss, false, vec![], "Boss", None);
    registry.routing.register("boss", "SpawnAck", false, vec![], "Boss");
    let mut pump = Pump::new(registry, ThreadRegistry::new());
    let mut dir = PeerDirectory::new();
    dir.register(Peer {
        namespace: "ringhub".into(),
        endpoint: "x".into(),
        key: [0u8; 32],
        inbound_provenance: Provenance::empty(),
    });
    pump.directory = Some(dir);
    pump.inject(inbound("client", "boss", "thread-far", Payload::single("Job", "text", "x")));
    pump.run();

    assert_eq!(pump.remote.len(), 1);
    assert_eq!(pump.remote[0].payload.tag, "Work");
    assert_eq!(*acks.borrow(), vec![format!("{:?}", Some(&PayloadValue::Boolean(true)))]);
}
