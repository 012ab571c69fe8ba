//! Configuration files.

use rust_pipeline::config::{
    resolve_config, unparsable, unreadable, ConfigFile, ListenerConfig, ListenerSection,
    OrganismConfig, OrganismSection, PipelineConfig,
};
use rust_pipeline::error::{PipelineError, PipelineResult};
use serde_yaml::Value;

fn text(v: &Value, key: &str) -> Option<String> {
    v.get(key).and_then(|t| t.as_str()).map(|t| t.to_string())
}

fn number(v: &Value, key: &str) -> Option<usize> {
    v.get(key).and_then(|n| n.as_u64()).map(|n| n as usize)
}

fn list<'a>(v: &'a Value, key: &str) -> Vec<&'a Value> {
    v.get(key).and_then(|l| l.as_sequence()).map(|l| l.iter().collect()).unwrap_or_default()
}

fn parse_config(yaml: &str) -> PipelineResult<PipelineConfig> {
    let v: Value = serde_yaml::from_str(yaml).map_err(|e| unparsable(&e.to_string()))?;
    let listeners = list(&v, "listeners")
        .into_iter()
        .map(|l| ListenerSection {
            name: text(l, "name").unwrap(),
            payload_class: text(l, "payload_class").unwrap(),
            handler: text(l, "handler").unwrap(),
            description: text(l, "description").unwrap(),
            agent: l.get("agent").and_then(|b| b.as_bool()),
            peers: list(l, "peers").iter().map(|p| p.as_str().unwrap().to_string()).collect(),
            broadcast: l.get("broadcast").and_then(|b| b.as_bool()),
            prompt: text(l, "prompt"),
        })
        .collect();
    Ok(resolve_config(ConfigFile {
        organism: v.get("organism").map(|o| OrganismSection {
            name: text(o, "name"),
            port: number(o, "port").map(|p| p as u16),
        }),
        max_concurrent_pipelines: number(&v, "max_concurrent_pipelines"),
        max_concurrent_handlers: number(&v, "max_concurrent_handlers"),
        max_concurrent_per_agent: number(&v, "max_concurrent_per_agent"),
        thread_scheduling: text(&v, "thread_scheduling"),
        listeners,
    }))
}

#[test]
fn parse_minimal_config() {
    let yaml = r#"
organism:
  name: test-org
listeners: []
"#;
    let config = parse_config(yaml).unwrap();
    assert_eq!(config.organism.name, "test-org");
    assert!(config.listeners.is_empty());
}

#[test]
fn parse_full_config() {
    let yaml = r#"
organism:
  name: hello-world
  port: 8765

max_concurrent_pipelines: 50
max_concurrent_handlers: 20

listeners:
  - name: greeter
    payload_class: handlers.hello.Greeting
    handler: handlers.hello.handle_greeting
    description: Greeting agent
    agent: true
    peers: [shouter]
    prompt: |
      You are a friendly greeter.

  - name: shouter
    payload_class: handlers.hello.GreetingResponse
    handler: handlers.hello.handle_shout
    description: Shouts in caps
"#;
    let config = parse_config(yaml).unwrap();
    assert_eq!(config.organism.name, "hello-world");
    assert_eq!(config.listeners.len(), 2);

    let greeter = &config.listeners[0];
    assert_eq!(greeter.name, "greeter");
    assert!(greeter.agent);
    assert_eq!(greeter.peers, vec!["shouter"]);
    assert_eq!(greeter.payload_tag(), "Greeting");

    let shouter = &config.listeners[1];
    assert!(!shouter.agent);
    assert!(shouter.peers.is_empty());
    assert!(!shouter.broadcast);
    assert_eq!(shouter.prompt, "");
}

#[test]
fn defaults_applied() {
    let yaml = "organism: { name: test }";
    let config = parse_config(yaml).unwrap();
    assert_eq!(config.max_concurrent_pipelines, 50);
    assert_eq!(config.max_concurrent_handlers, 20);
    assert_eq!(config.organism.port, 8765);
    assert_eq!(config.max_concurrent_per_agent, 5);
    assert_eq!(config.thread_scheduling, "breadth-first");
}

#[test]
fn organism_section_may_be_absent() {
    // without the section there is no name and no port, with an empty one the defaults
    let config = parse_config("listeners: []").unwrap();
    assert_eq!((config.organism.name.as_str(), config.organism.port), ("", 0));
    let config = parse_config("organism: {}").unwrap();
    assert_eq!((config.organism.name.as_str(), config.organism.port), ("unnamed", 8765));
    let organism = OrganismConfig::default();
    assert_eq!((organism.name.as_str(), organism.port), ("", 0));
}

#[test]
fn payload_tag_extraction() {
    let lc = ListenerConfig {
        name: "test".into(),
        payload_class: "handlers.hello.Greeting".into(),
        handler: "handlers.hello.handle_greeting".into(),
        description: "test".into(),
        agent: false,
        peers: vec![],
        broadcast: false,
        prompt: String::new(),
    };
    assert_eq!(lc.payload_tag(), "Greeting");
    assert_eq!(lc.handler_name(), "handle_greeting");
}

#[test]
fn invalid_yaml_error() {
    let err = parse_config("{{{{invalid").unwrap_err();
    assert!(matches!(err, PipelineError::Config(_)));
    assert!(err.to_string().starts_with("config error: YAML parse error: "));
    assert_eq!(
        unreadable("a.yaml", "gone").to_string(),
        "config error: failed to read a.yaml: gone"
    );
}

#[test]
fn config_roundtrip() {
    let yaml = r#"
organism:
  name: integration-test
  port: 9999

max_concurrent_handlers: 10

listeners:
  - name: greeter
    payload_class: handlers.Greeting
    handler: handlers.handle_greeting
    description: Test greeter
    agent: true
    peers: [responder]

  - name: responder
    payload_class: handlers.Response
    handler: handlers.handle_response
    description: Test responder
"#;

    let config = parse_config(yaml).unwrap();
    assert_eq!(config.organism.name, "integration-test");
    assert_eq!(config.organism.port, 9999);
    assert_eq!(config.max_concurrent_handlers, 10);
    assert_eq!(config.listeners.len(), 2);
    assert_eq!(config.listeners[0].payload_tag(), "Greeting");
    assert!(config.listeners[0].agent);
    assert_eq!(config.listeners[0].peers, vec!["responder"]);
}

#[test]
fn configurations_are_copied() {
    let config = parse_config(
        "organism: {name: o, port: 1}\nlisteners:\n- {name: l, payload_class: a.B, handler: a.h, \
         description: d, agent: true, peers: [p, q]}\n",
    )
    .unwrap();
    let copy = config.clone();
    assert_eq!(format!("{copy:?}"), format!("{config:?}"));
    assert_eq!(copy.listeners[0].clone().peers, vec!["p".to_string(), "q".to_string()]);
}
