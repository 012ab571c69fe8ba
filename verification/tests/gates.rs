//! Validation, routing, threads and the registry.

use rust_pipeline::error::PipelineError;
use rust_pipeline::handler::{HandlerResponse, HandlerResult, ValidatedPayload};
use rust_pipeline::markup::{Markup, Tag, Words};
use rust_pipeline::registry::ListenerRegistry;
use rust_pipeline::routing::RoutingTable;
use rust_pipeline::strmap::{StrMap, StrSet};
use rust_pipeline::thread::ThreadRegistry;
use rust_pipeline::validation::{
    permissive_schema, validate_markup, validate_payload, validate_payload_value, FieldSchema,
    FieldType, PayloadSchema, SchemaRegistry,
};
use rust_pipeline::wire::PayloadValue;

// ── Errors ──

#[test]
fn error_display() {
    let e = PipelineError::PeerViolation {
        from: "greeter".into(),
        to: "secret-agent".into(),
        allowed: vec!["shouter".into()],
    };
    assert!(e.to_string().contains("greeter"));
    assert!(e.to_string().contains("secret-agent"));
}

#[test]
fn error_from_quick_xml() {
    let xml_err = quick_xml::Error::Syntax(quick_xml::errors::SyntaxError::InvalidBangMarkup);
    let pipeline_err: PipelineError = xml_err.into();
    assert!(matches!(pipeline_err, PipelineError::Xml(_)));
}

#[test]
fn error_messages() {
    let violation = PipelineError::PeerViolation {
        from: "a".into(),
        to: "b".into(),
        allowed: vec!["c".into(), "d\"e".into()],
    };
    assert_eq!(
        violation.to_string(),
        "peer violation: a cannot message b (allowed: [\"c\", \"d\\\"e\"])"
    );
    let none = PipelineError::PeerViolation { from: "a".into(), to: "b".into(), allowed: vec![] };
    assert_eq!(none.to_string(), "peer violation: a cannot message b (allowed: [])");
    let m = || "x".to_string();
    for (e, want) in [
        (PipelineError::Repair(m()), "repair failed: x"),
        (PipelineError::EnvelopeParse(m()), "envelope parse error: x"),
        (PipelineError::MissingMeta("x"), "missing meta field: x"),
        (PipelineError::Validation(m()), "validation failed: x"),
        (PipelineError::NoRoute(m()), "no route for: x"),
        (PipelineError::UnknownThread(m()), "unknown thread: x"),
        (PipelineError::ChainExhausted(m()), "thread chain exhausted: x"),
        (PipelineError::Handler(m()), "handler error: x"),
        (PipelineError::HandlerPanic(m()), "handler panicked: x"),
        (PipelineError::Config(m()), "config error: x"),
        (PipelineError::Serialization(m()), "serialization error: x"),
    ] {
        assert_eq!(e.to_string(), want);
    }
    let inner = quick_xml::Error::Syntax(quick_xml::errors::SyntaxError::InvalidBangMarkup);
    let shown = format!("xml error: {inner}");
    assert_eq!(PipelineError::from(inner).to_string(), shown);
}

// ── Validation ──

fn greeting_schema() -> PayloadSchema {
    let mut fields = StrMap::new();
    fields.insert("text", FieldSchema { required: true, field_type: FieldType::String });
    fields.insert("name", FieldSchema { required: false, field_type: FieldType::String });
    PayloadSchema { root_tag: "Greeting".into(), fields, strict: true }
}

#[test]
fn valid_payload() {
    let xml = b"<Greeting><text>Hello!</text></Greeting>";
    validate_payload(xml, &greeting_schema()).unwrap();
}

#[test]
fn valid_with_optional() {
    let xml = b"<Greeting><text>Hello!</text><name>Alice</name></Greeting>";
    validate_payload(xml, &greeting_schema()).unwrap();
}

#[test]
fn missing_required_field() {
    let xml = b"<Greeting><name>Alice</name></Greeting>";
    let err = validate_payload(xml, &greeting_schema()).unwrap_err();
    assert!(err.to_string().contains("missing required"));
    assert!(err.to_string().contains("text"));
}

#[test]
fn wrong_root_tag() {
    let xml = b"<WrongTag><text>hi</text></WrongTag>";
    let err = validate_payload(xml, &greeting_schema()).unwrap_err();
    assert!(err.to_string().contains("expected root"));
}

#[test]
fn unexpected_element_strict() {
    let xml = b"<Greeting><text>hi</text><secret>data</secret></Greeting>";
    let err = validate_payload(xml, &greeting_schema()).unwrap_err();
    assert!(err.to_string().contains("unexpected element"));
}

#[test]
fn unexpected_element_lax() {
    let mut schema = greeting_schema();
    schema.strict = false;
    let xml = b"<Greeting><text>hi</text><extra>ok</extra></Greeting>";
    validate_payload(xml, &schema).unwrap(); // lax mode allows extras
}

#[test]
fn permissive_schema_accepts_anything() {
    let schema = permissive_schema("Payload");
    let xml = b"<Payload><anything>goes</anything><here>too</here></Payload>";
    validate_payload(xml, &schema).unwrap();
}

#[test]
fn schema_registry_lookup() {
    let mut reg = SchemaRegistry::new();
    reg.register(greeting_schema());

    // Known schema — validated
    let xml = b"<Greeting><text>hi</text></Greeting>";
    reg.validate("Greeting", xml).unwrap();

    // Unknown schema — permissive
    let xml2 = b"<Unknown><anything>ok</anything></Unknown>";
    reg.validate("Unknown", xml2).unwrap();
}

#[test]
fn validation_messages() {
    let schema = greeting_schema();
    let err = |xml: &[u8]| validate_payload(xml, &schema).unwrap_err().to_string();
    assert_eq!(
        err(b"<Other/>"),
        "validation failed: expected root <Greeting>, found <Other/>"
    );
    assert_eq!(
        err(b"<Other></Other>"),
        "validation failed: expected root <Greeting>, found <Other>"
    );
    assert_eq!(
        err(b"<Greeting><text/><x/></Greeting>"),
        "validation failed: unexpected element <x/> in <Greeting>"
    );
    assert_eq!(
        err(b"<Greeting/>"),
        "validation failed: missing required element <text> in <Greeting>"
    );
    assert_eq!(err(b"just text"), "validation failed: no root element found in payload");
    assert!(err(b"<Greeting></Wrong>")
        .starts_with("validation failed: XML parse error during validation: "));
    assert!(err(b"</Greeting>")
        .starts_with("validation failed: XML parse error during validation: "));
}

#[test]
fn validation_looks_at_local_names_and_direct_children() {
    let schema = greeting_schema();
    // prefixes are dropped, deeper structure is not looked at
    validate_payload(b"<n:Greeting><m:text><deep><er/></deep></m:text></n:Greeting>", &schema)
        .unwrap();
    // a required element further down does not count
    assert!(validate_payload(b"<Greeting><name><text/></name></Greeting>", &schema).is_err());
    // a name that is no UTF-8 has no local part
    let err = validate_payload(b"<\xff></\xff>", &schema).unwrap_err().to_string();
    assert_eq!(err, "validation failed: expected root <Greeting>, found <>");
}

#[test]
fn schemas_are_copied_and_compared() {
    let mut inner = greeting_schema();
    inner.strict = true;
    let mut schema = greeting_schema();
    schema.fields.insert(
        "nested",
        FieldSchema { required: false, field_type: FieldType::Complex(Box::new(inner)) },
    );
    assert!(schema.clone() == schema);
    assert_eq!(schema.clone().fields.keys(), schema.fields.keys());
    assert!(schema != greeting_schema());
    let field = schema.fields.get("nested").unwrap();
    assert!(field.clone() == *field);
    assert!(FieldType::Integer.clone() == FieldType::Integer);
    assert!(FieldType::Integer != FieldType::Any);
}

#[test]
fn items_are_validated() {
    let schema = greeting_schema();
    let tag = |name: &str| Tag {
        name: name.as_bytes().to_vec(),
        attrs: vec![],
        shown: String::new(),
    };
    let fault = |items: &[Markup]| validate_markup(items, &schema).unwrap_err().to_string();
    let greeting = vec![
        Markup::Start(tag("Greeting")),
        Markup::Start(tag("text")),
        Markup::Text(Ok(Words { whole: "hi".into(), core: "hi".into() })),
        Markup::End(b"text".to_vec(), String::new()),
        Markup::End(b"Greeting".to_vec(), String::new()),
    ];
    assert!(validate_markup(&greeting, &schema).is_ok());
    assert_eq!(fault(&[]), "validation failed: no root element found in payload");
    assert_eq!(
        fault(&[Markup::Malformed("oops".into())]),
        "validation failed: XML parse error during validation: oops"
    );
    assert_eq!(
        fault(&[Markup::Empty(tag("Greeting"))]),
        validate_payload(b"<Greeting/>", &schema).unwrap_err().to_string()
    );
}

#[test]
fn values_are_validated_by_their_fields() {
    let schema = greeting_schema();
    let text = || ("text", PayloadValue::text("hi"));
    validate_payload_value(&PayloadValue::record(vec![text()]), &schema).unwrap();
    let err = |v: PayloadValue| validate_payload_value(&v, &schema).unwrap_err().to_string();
    assert_eq!(
        err(PayloadValue::record(vec![text(), ("secret", PayloadValue::Nil)])),
        "validation failed: unexpected element <secret> in <Greeting>"
    );
    assert_eq!(
        err(PayloadValue::Nil),
        "validation failed: missing required element <text> in <Greeting>"
    );
    let mut reg = SchemaRegistry::default();
    reg.register(greeting_schema());
    assert!(reg.validate_value("Greeting", &PayloadValue::Nil).is_err());
    reg.validate_value("Other", &PayloadValue::Nil).unwrap();
    assert_eq!(reg.get("Greeting").unwrap().root_tag, "Greeting");
    assert!(reg.get("Other").is_none());
}

// ── Routing ──

fn sample_table() -> RoutingTable {
    let mut table = RoutingTable::new();
    table.register("greeter", "Greeting", true, vec!["shouter".into()], "Greeting agent");
    table.register("shouter", "GreetingResponse", false, vec![], "Shouts in caps");
    table
}

#[test]
fn resolve_by_name_and_tag() {
    let table = sample_table();
    let entries = table.resolve(Some("greeter"), "Greeting").unwrap();
    assert_eq!(entries.len(), 1);
    assert_eq!(entries[0].name, "greeter");
}

#[test]
fn resolve_missing_route() {
    let table = sample_table();
    let err = table.resolve(Some("nobody"), "Ping").unwrap_err();
    assert!(matches!(err, PipelineError::NoRoute(_)));
}

#[test]
fn peer_enforcement_allowed() {
    let table = sample_table();
    // greeter → shouter: allowed (declared peer)
    table.enforce_peers("greeter", "shouter").unwrap();
}

#[test]
fn peer_enforcement_blocked() {
    let table = sample_table();
    // greeter → secret: NOT allowed
    let err = table.enforce_peers("greeter", "secret").unwrap_err();
    match err {
        PipelineError::PeerViolation { from, to, allowed } => {
            assert_eq!(from, "greeter");
            assert_eq!(to, "secret");
            assert!(allowed.contains(&"shouter".to_string()));
        }
        _ => panic!("expected PeerViolation"),
    }
}

#[test]
fn agents_without_peers_may_message_no_one() {
    let mut table = RoutingTable::new();
    table.register("lone", "Task", true, vec![], "agent with no declared peers");
    match table.enforce_peers("lone", "other") {
        Err(PipelineError::PeerViolation { from, to, allowed }) => {
            assert_eq!((from.as_str(), to.as_str()), ("lone", "other"));
            assert!(allowed.is_empty());
        }
        _ => panic!("expected a violation"),
    }
}

#[test]
fn non_agent_no_restrictions() {
    let table = sample_table();
    // shouter is not an agent → can message anyone
    table.enforce_peers("shouter", "greeter").unwrap();
}

#[test]
fn unknown_sender_allowed() {
    let table = sample_table();
    // "system" is not registered → always allowed
    table.enforce_peers("system", "greeter").unwrap();
}

#[test]
fn get_by_name() {
    let table = sample_table();
    let entry = table.get_by_name("greeter").unwrap();
    assert!(entry.is_agent);
    assert!(entry.peers.contains("shouter"));
}

#[test]
fn route_keys_ignore_case() {
    let table = sample_table();
    assert_eq!(table.resolve(Some("GREETER"), "greeting").unwrap()[0].name, "greeter");
    assert_eq!(table.resolve(Some("greeter"), "Greeting").unwrap()[0].route_key, "greeter.greeting");
    match table.resolve(None, "PING") {
        Err(PipelineError::NoRoute(key)) => assert_eq!(key, "ping"),
        _ => panic!("expected NoRoute"),
    }
    match table.resolve(Some("No\u{c9}"), "X") {
        Err(PipelineError::NoRoute(key)) => assert_eq!(key, "no\u{e9}.x"),
        _ => panic!("expected NoRoute"),
    }
    assert_eq!(table.listener_names(), vec!["greeter", "shouter"]);
    assert_eq!(table.route_keys(), vec!["greeter.greeting", "shouter.greetingresponse"]);
}

#[test]
fn listeners_of_one_key_keep_their_order() {
    let mut table = sample_table();
    table.register("Greeter", "GREETING", false, vec![], "second");
    let entries = table.resolve(Some("greeter"), "Greeting").unwrap();
    assert_eq!(entries.len(), 2);
    assert_eq!(entries[0].name, "greeter");
    assert_eq!(entries[1].name, "Greeter");
    // registering a name again replaces what the name leads to, and leaves the rest
    table.register("greeter", "Other", false, vec![], "again");
    assert_eq!(table.get_by_name("greeter").unwrap().description, "again");
    assert_eq!(table.resolve(Some("greeter"), "Greeting").unwrap().len(), 2);
    assert_eq!(table.get_by_name("shouter").unwrap().description, "Shouts in caps");
}

// ── Threads ──

#[test]
fn initialize_root() {
    let mut reg = ThreadRegistry::new();
    let uuid = reg.initialize_root("hello-world");
    assert!(!uuid.is_empty());
    assert_eq!(reg.lookup(&uuid), Some("system.hello-world"));
}

#[test]
fn start_and_extend_chain() {
    let mut reg = ThreadRegistry::new();
    let t1 = reg.start_chain("console", "router");
    assert_eq!(reg.lookup(&t1), Some("console.router"));

    let t2 = reg.extend_chain(&t1, "greeter");
    assert_eq!(reg.lookup(&t2), Some("console.router.greeter"));
    assert_ne!(t1, t2);
}

#[test]
fn prune_chain() {
    let mut reg = ThreadRegistry::new();
    let t1 = reg.start_chain("console", "router");
    let t2 = reg.extend_chain(&t1, "greeter");

    // greeter responds → prune to "console.router", target = "router"
    let result = reg.prune_for_response(&t2).unwrap();
    assert_eq!(result.target, "router");
    assert_eq!(reg.lookup(&result.thread_id), Some("console.router"));
    // the very thread that was extended
    assert_eq!(result.thread_id, t1);
}

#[test]
fn prune_exhausted() {
    let mut reg = ThreadRegistry::new();
    let uuid = reg.get_or_create("console");

    // Single-segment chain — nowhere to prune to
    assert!(reg.prune_for_response(&uuid).is_none());
    assert!(reg.lookup(&uuid).is_none());
    assert!(reg.prune_for_response("never-seen").is_none());
}

#[test]
fn register_external_thread() {
    let mut reg = ThreadRegistry::new();
    reg.initialize_root("org");

    let external_uuid = "ext-uuid-123";
    let registered = reg.register_thread(external_uuid, "console", "router");
    assert_eq!(registered, external_uuid);
    assert_eq!(reg.lookup(external_uuid), Some("system.org.console.router"));
}

#[test]
fn idempotent_get_or_create() {
    let mut reg = ThreadRegistry::new();
    let u1 = reg.get_or_create("a.b.c");
    let u2 = reg.get_or_create("a.b.c");
    assert_eq!(u1, u2);
}

#[test]
fn cleanup_removes_both_directions() {
    let mut reg = ThreadRegistry::new();
    let uuid = reg.get_or_create("test.chain");
    assert!(reg.lookup(&uuid).is_some());

    reg.cleanup(&uuid);
    assert!(reg.lookup(&uuid).is_none());
    assert_ne!(reg.get_or_create("test.chain"), uuid);
}

#[test]
fn thread_chain_lifecycle() {
    let mut threads = ThreadRegistry::new();
    threads.initialize_root("test-org");

    // Simulate: console → router → greeter → shouter
    let t1 = threads.start_chain("console", "router");
    let t2 = threads.extend_chain(&t1, "greeter");
    let t3 = threads.extend_chain(&t2, "shouter");

    assert_eq!(threads.lookup(&t3), Some("console.router.greeter.shouter"));

    // Shouter responds → prune to greeter
    let prune1 = threads.prune_for_response(&t3).unwrap();
    assert_eq!(prune1.target, "greeter");

    // Greeter responds → prune to router
    let prune2 = threads.prune_for_response(&prune1.thread_id).unwrap();
    assert_eq!(prune2.target, "router");

    // Router responds → prune to console
    let prune3 = threads.prune_for_response(&prune2.thread_id).unwrap();
    assert_eq!(prune3.target, "console");

    // Console responds → chain exhausted
    assert!(threads.prune_for_response(&prune3.thread_id).is_none());
}

#[test]
fn thread_ids_are_random_uuids() {
    let mut reg = ThreadRegistry::new();
    let a = reg.get_or_create("a");
    let b = reg.get_or_create("b");
    assert_ne!(a, b);
    for id in [&a, &b] {
        assert_eq!(id.len(), 36);
        let parts: Vec<usize> = id.split('-').map(|p| p.len()).collect();
        assert_eq!(parts, vec![8, 4, 4, 4, 12]);
        assert_eq!(id.as_bytes()[14], b'4');
        assert!(matches!(id.as_bytes()[19], b'8' | b'9' | b'a' | b'b'));
        assert!(id.chars().all(|c| c == '-' || (c.is_ascii_hexdigit() && !c.is_ascii_uppercase())));
    }
}

#[test]
fn threads_with_given_ids() {
    let mut reg = ThreadRegistry::new();
    assert_eq!(reg.root_uuid(), None);
    assert_eq!(reg.initialize_root_with("org", "root-id"), "root-id");
    assert_eq!(reg.initialize_root_with("other", "other-id"), "root-id");
    assert_eq!(reg.initialize_root("third"), "root-id");
    assert_eq!(reg.root_uuid(), Some("root-id"));
    assert_eq!(reg.get_or_create_with("a.b", "one"), "one");
    assert_eq!(reg.get_or_create_with("a.b", "two"), "one");
    assert_eq!(reg.extended_chain("one", "c"), "a.b.c");
    assert_eq!(reg.extended_chain("unknown", "c"), "c");
    assert_eq!(reg.caller_of("one"), Some(("a".to_string(), "a".to_string())));
    // a chain that has a thread keeps it
    assert_eq!(reg.register_thread("x", "c", "d"), "x");
    assert_eq!(reg.register_thread("y", "c", "d"), "x");
    assert_eq!(reg.register_thread("x", "e", "f"), "x");
    assert_eq!(reg.debug_dump().keys(), vec!["root-id", "one", "x"]);
    reg.clear();
    assert_eq!(reg.root_uuid(), None);
    assert_eq!(reg.register_thread("z", "c", "d"), "z");
    assert_eq!(reg.lookup("z"), Some("c.d"));
}

// ── Registry ──

type EchoFn = fn(ValidatedPayload) -> HandlerResult;

fn echo(payload: ValidatedPayload) -> HandlerResult {
    Ok(HandlerResponse::Reply { payload: payload.to_payload() })
}

#[test]
fn register_and_retrieve() {
    let mut reg: ListenerRegistry<EchoFn> = ListenerRegistry::new();
    reg.register("echo", "Greeting", echo, false, vec![], "Echo handler", None);

    assert!(reg.has_listener("echo"));
    assert!(reg.get_handler("echo").is_some());
    assert!(reg.get_handler("nobody").is_none());
    let handler = reg.get_handler("echo").unwrap();
    let back = handler(ValidatedPayload::new("Greeting", PayloadValue::text("hi"))).unwrap();
    assert_eq!(
        back,
        HandlerResponse::reply(ValidatedPayload::new("Greeting", PayloadValue::text("hi")).to_payload())
    );
}

#[test]
fn routing_works_through_registry() {
    let mut reg: ListenerRegistry<EchoFn> = ListenerRegistry::default();
    reg.register("greeter", "Greeting", echo, true, vec!["shouter".into()], "Greets", None);

    let entries = reg.routing.resolve(Some("greeter"), "Greeting").unwrap();
    assert_eq!(entries[0].name, "greeter");
    let (tag, is_agent, peers) = reg.listener_info("greeter").unwrap();
    assert_eq!((tag, is_agent), ("Greeting", true));
    assert_eq!(peers, ["shouter".to_string()]);
    assert!(reg.listener_info("nobody").is_none());
    assert_eq!(reg.listener_names(), vec!["greeter"]);
    reg.register("greeter", "Other", echo, false, vec![], "Again", Some(greeting_schema()));
    assert_eq!(reg.listener_names(), vec!["greeter"]);
    assert!(reg.schemas.get("Greeting").is_some());
}

// ── Maps and sets ──

#[test]
fn maps_and_sets_keep_the_order_of_insertion() {
    let mut m: StrMap<u32> = StrMap::new();
    m.insert("b", 1);
    m.insert("a", 2);
    m.insert("b", 3);
    assert_eq!(m.keys(), vec!["b", "a"]);
    assert_eq!(m.get("b"), Some(&3));
    assert_eq!(m.entry(1), ("a", &2));
    assert_eq!(m.remove("b"), Some(3));
    assert_eq!(m.remove("b"), None);
    assert_eq!(m.len(), 1);
    m.clear();
    assert!(!m.contains_key("a"));

    let s = StrSet::collect(&vec!["x".into(), "y".into(), "x".into()]);
    assert_eq!(s.members(), vec!["x".to_string(), "y".to_string()]);
    assert!(s.duplicate().contains("y"));
    assert!(StrSet::new().members().is_empty());

    let (mut a, mut b): (StrMap<u32>, StrMap<u32>) = (StrMap::new(), StrMap::new());
    a.insert("x", 1);
    a.insert("y", 2);
    b.insert("y", 2);
    assert!(a != b);
    b.insert("x", 1);
    assert!(a == b);
    b.insert("x", 3);
    assert!(a != b);
}
