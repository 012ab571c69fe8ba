//! Organism configuration.
//!
//! What a configuration file leaves out is filled in here; reading the file is up to
//! whoever loads it.

use vstd::prelude::*;

use crate::error;
use crate::error::{ErrorView, PipelineError};
use crate::text;

verus! {

/// Top-level organism configuration.
#[derive(Debug)]
pub struct PipelineConfig {
    /// Organism identity.
    pub organism: OrganismConfig,
    /// Maximum concurrent messages in the pipeline.
    pub max_concurrent_pipelines: usize,
    /// Maximum concurrent handler invocations.
    pub max_concurrent_handlers: usize,
    /// Per-agent concurrency limit.
    pub max_concurrent_per_agent: usize,
    /// Thread scheduling strategy.
    pub thread_scheduling: String,
    /// Listener definitions.
    pub listeners: Vec<ListenerConfig>,
}

/// Organism identity section.
#[derive(Debug)]
pub struct OrganismConfig {
    /// Organism name.
    pub name: String,
    /// WebSocket port.
    pub port: u16,
}

impl Clone for OrganismConfig {
    fn clone(&self) -> (r: Self)
        ensures
            r.name@ == self.name@,
            r.port == self.port,
    {
        OrganismConfig { name: self.name.clone(), port: self.port }
    }
}

/// The identity of an organism whose configuration has no such section.
impl Default for OrganismConfig {
    fn default() -> (r: Self)
        ensures
            r.name@ == Seq::<char>::empty(),
            r.port == 0,
    {
        OrganismConfig { name: String::new(), port: 0 }
    }
}

/// Listener configuration.
#[derive(Debug)]
pub struct ListenerConfig {
    /// Unique listener name.
    pub name: String,
    /// Path to the payload class (e.g., "handlers.hello.Greeting").
    /// Maps to a payload tag name for routing.
    pub payload_class: String,
    /// Path to the handler (e.g., "handlers.hello.handle_greeting").
    /// Handlers are registered programmatically; this is metadata.
    pub handler: String,
    /// Human-readable description.
    pub description: String,
    /// Whether this listener is an LLM agent.
    pub agent: bool,
    /// Declared peers (agents this listener can message).
    pub peers: Vec<String>,
    /// Whether to broadcast to all matching listeners.
    pub broadcast: bool,
    /// System prompt for LLM agents.
    pub prompt: String,
}

/// Whether two listeners are configured alike.
pub open spec fn same_listener(a: ListenerConfig, b: ListenerConfig) -> bool {
    &&& a.name@ == b.name@
    &&& a.payload_class@ == b.payload_class@
    &&& a.handler@ == b.handler@
    &&& a.description@ == b.description@
    &&& a.agent == b.agent
    &&& error::texts(a.peers@) == error::texts(b.peers@)
    &&& a.broadcast == b.broadcast
    &&& a.prompt@ == b.prompt@
}

impl Clone for ListenerConfig {
    fn clone(&self) -> (r: Self)
        ensures
            same_listener(r, *self),
    {
        let mut peers: Vec<String> = Vec::new();
        let mut i: usize = 0;
        while i < self.peers.len()
            invariant
                i <= self.peers@.len(),
                peers@.len() == i,
                forall|j: int| 0 <= j < i ==> #[trigger] peers@[j]@ == self.peers@[j]@,
            decreases self.peers@.len() - i,
        {
            peers.push(self.peers[i].clone());
            i += 1;
        }
        assert(error::texts(peers@) =~= error::texts(self.peers@));
        ListenerConfig {
            name: self.name.clone(),
            payload_class: self.payload_class.clone(),
            handler: self.handler.clone(),
            description: self.description.clone(),
            agent: self.agent,
            peers,
            broadcast: self.broadcast,
            prompt: self.prompt.clone(),
        }
    }
}

impl Clone for PipelineConfig {
    fn clone(&self) -> (r: Self)
        ensures
            r.organism.name@ == self.organism.name@,
            r.organism.port == self.organism.port,
            r.max_concurrent_pipelines == self.max_concurrent_pipelines,
            r.max_concurrent_handlers == self.max_concurrent_handlers,
            r.max_concurrent_per_agent == self.max_concurrent_per_agent,
            r.thread_scheduling@ == self.thread_scheduling@,
            r.listeners@.len() == self.listeners@.len(),
            forall|i: int|
                0 <= i < r.listeners@.len() ==> same_listener(
                    #[trigger] r.listeners@[i],
                    self.listeners@[i],
                ),
    {
        let mut listeners: Vec<ListenerConfig> = Vec::new();
        let mut i: usize = 0;
        while i < self.listeners.len()
            invariant
                i <= self.listeners@.len(),
                listeners@.len() == i,
                forall|j: int|
                    0 <= j < i ==> same_listener(
                        #[trigger] listeners@[j],
                        self.listeners@[j],
                    ),
            decreases self.listeners@.len() - i,
        {
            listeners.push(self.listeners[i].clone());
            i += 1;
        }
        PipelineConfig {
            organism: self.organism.clone(),
            max_concurrent_pipelines: self.max_concurrent_pipelines,
            max_concurrent_handlers: self.max_concurrent_handlers,
            max_concurrent_per_agent: self.max_concurrent_per_agent,
            thread_scheduling: self.thread_scheduling.clone(),
            listeners,
        }
    }
}

impl ListenerConfig {
    /// Extract the payload tag from the payload_class path.
    ///
    /// e.g., "handlers.hello.Greeting" → "Greeting"
    pub fn payload_tag(&self) -> (r: &str)
        ensures
            r@ == text::after_last(self.payload_class@, '.'),
    {
        text::tail_after(self.payload_class.as_str(), '.')
    }

    /// Extract the handler function name from the handler path.
    ///
    /// e.g., "handlers.hello.handle_greeting" → "handle_greeting"
    pub fn handler_name(&self) -> (r: &str)
        ensures
            r@ == text::after_last(self.handler@, '.'),
    {
        text::tail_after(self.handler.as_str(), '.')
    }
}

// ── What a file may leave out ────────────────────────────────────────

/// A configuration as it stands in a file.
#[derive(Debug)]
pub struct ConfigFile {
    pub organism: Option<OrganismSection>,
    pub max_concurrent_pipelines: Option<usize>,
    pub max_concurrent_handlers: Option<usize>,
    pub max_concurrent_per_agent: Option<usize>,
    pub thread_scheduling: Option<String>,
    pub listeners: Vec<ListenerSection>,
}

/// The identity section as it stands in a file.
#[derive(Debug)]
pub struct OrganismSection {
    pub name: Option<String>,
    pub port: Option<u16>,
}

/// A listener as it stands in a file.
#[derive(Debug)]
pub struct ListenerSection {
    pub name: String,
    pub payload_class: String,
    pub handler: String,
    pub description: String,
    pub agent: Option<bool>,
    pub peers: Vec<String>,
    pub broadcast: Option<bool>,
    pub prompt: Option<String>,
}

/// The text that is there, or the default.
pub open spec fn text_or(s: Option<String>, default: Seq<char>) -> Seq<char> {
    match s {
        Some(s) => s@,
        None => default,
    }
}

/// The value that is there, or the default.
pub open spec fn value_or<T>(v: Option<T>, default: T) -> T {
    match v {
        Some(v) => v,
        None => default,
    }
}

/// A text that may be left out.
fn text_default(s: Option<String>, default: &str) -> (r: String)
    ensures
        r@ == text_or(s, default@),
{
    match s {
        Some(s) => s,
        None => default.to_owned(),
    }
}

/// A number that may be left out.
fn number_default(v: Option<usize>, default: usize) -> (r: usize)
    ensures
        r == value_or(v, default),
{
    match v {
        Some(v) => v,
        None => default,
    }
}

/// A flag that may be left out.
fn flag_default(v: Option<bool>) -> (r: bool)
    ensures
        r == value_or(v, false),
{
    match v {
        Some(v) => v,
        None => false,
    }
}

/// Whether `c` is the identity that a file's section, or its absence, amounts to.
pub open spec fn is_organism(c: OrganismConfig, section: Option<OrganismSection>) -> bool {
    match section {
        Some(s) => c.name@ == text_or(s.name, "unnamed"@) && c.port == value_or(s.port, 8765),
        None => c.name@ == Seq::<char>::empty() && c.port == 0,
    }
}

/// Whether `c` is the listener that a file's section amounts to.
pub open spec fn is_listener(c: ListenerConfig, section: ListenerSection) -> bool {
    &&& c.name@ == section.name@
    &&& c.payload_class@ == section.payload_class@
    &&& c.handler@ == section.handler@
    &&& c.description@ == section.description@
    &&& c.agent == value_or(section.agent, false)
    &&& error::texts(c.peers@) == error::texts(section.peers@)
    &&& c.broadcast == value_or(section.broadcast, false)
    &&& c.prompt@ == text_or(section.prompt, Seq::empty())
}

/// Whether `c` is the configuration that a file amounts to.
pub open spec fn is_config(c: PipelineConfig, file: ConfigFile) -> bool {
    &&& is_organism(c.organism, file.organism)
    &&& c.max_concurrent_pipelines == value_or(file.max_concurrent_pipelines, 50)
    &&& c.max_concurrent_handlers == value_or(file.max_concurrent_handlers, 20)
    &&& c.max_concurrent_per_agent == value_or(file.max_concurrent_per_agent, 5)
    &&& c.thread_scheduling@ == text_or(file.thread_scheduling, "breadth-first"@)
    &&& c.listeners@.len() == file.listeners@.len()
    &&& forall|i: int|
        0 <= i < c.listeners@.len() ==> is_listener(#[trigger] c.listeners@[i], file.listeners@[i])
}

/// Fills in what the identity section leaves out.
fn resolve_organism(section: Option<OrganismSection>) -> (r: OrganismConfig)
    ensures
        is_organism(r, section),
{
    match section {
        Some(s) => OrganismConfig {
            name: text_default(s.name, "unnamed"),
            port: match s.port {
                Some(port) => port,
                None => 8765,
            },
        },
        None => OrganismConfig::default(),
    }
}

/// Fills in what a listener's section leaves out.
fn resolve_listener(section: ListenerSection) -> (r: ListenerConfig)
    ensures
        is_listener(r, section),
{
    let r = ListenerConfig {
        name: section.name,
        payload_class: section.payload_class,
        handler: section.handler,
        description: section.description,
        agent: flag_default(section.agent),
        peers: section.peers,
        broadcast: flag_default(section.broadcast),
        prompt: text_default(section.prompt, ""),
    };
    proof {
        reveal_strlit("");
        assert(""@ =~= Seq::<char>::empty());
    }
    r
}

/// Fills in what a configuration file leaves out.
pub fn resolve_config(file: ConfigFile) -> (r: PipelineConfig)
    ensures
        is_config(r, file),
{
    let mut listeners: Vec<ListenerConfig> = Vec::new();
    let ghost sections = file.listeners@;
    for section in it: file.listeners
        invariant
            it.seq() == sections,
            listeners@.len() == it.index(),
            forall|j: int|
                0 <= j < listeners@.len() ==> is_listener(
                    #[trigger] listeners@[j],
                    sections[j],
                ),
    {
        listeners.push(resolve_listener(section));
    }
    PipelineConfig {
        organism: resolve_organism(file.organism),
        max_concurrent_pipelines: number_default(file.max_concurrent_pipelines, 50),
        max_concurrent_handlers: number_default(file.max_concurrent_handlers, 20),
        max_concurrent_per_agent: number_default(file.max_concurrent_per_agent, 5),
        thread_scheduling: text_default(file.thread_scheduling, "breadth-first"),
        listeners,
    }
}

/// The error for a file that could not be read.
pub fn unreadable(path: &str, why: &str) -> (r: PipelineError)
    ensures
        r@ == ErrorView::Config("failed to read "@ + path@ + ": "@ + why@),
{
    PipelineError::Config(text::cat4("failed to read ", path, ": ", why))
}

/// The error for a text that is no configuration.
pub fn unparsable(why: &str) -> (r: PipelineError)
    ensures
        r@ == ErrorView::Config("YAML parse error: "@ + why@),
{
    PipelineError::Config(text::cat("YAML parse error: ", why))
}

// ── Laws ─────────────────────────────────────────────────────────────

/// What a file gives is what is configured, whatever else it leaves out.
pub proof fn law_given_values_are_kept(c: PipelineConfig, file: ConfigFile)
    requires
        is_config(c, file),
    ensures
        file.organism matches Some(o) ==> {
            &&& o.name matches Some(name) ==> c.organism.name@ == name@
            &&& o.port matches Some(port) ==> c.organism.port == port
        },
        file.max_concurrent_pipelines matches Some(n) ==> c.max_concurrent_pipelines == n,
        file.max_concurrent_handlers matches Some(n) ==> c.max_concurrent_handlers == n,
        file.max_concurrent_per_agent matches Some(n) ==> c.max_concurrent_per_agent == n,
        file.thread_scheduling matches Some(s) ==> c.thread_scheduling@ == s@,
        c.listeners@.len() == file.listeners@.len(),
        forall|i: int|
            0 <= i < c.listeners@.len() ==> {
                let l = #[trigger] c.listeners@[i];
                let given = file.listeners@[i];
                &&& l.name@ == given.name@
                &&& l.payload_class@ == given.payload_class@
                &&& l.handler@ == given.handler@
                &&& l.description@ == given.description@
                &&& error::texts(l.peers@) == error::texts(given.peers@)
                &&& given.agent matches Some(b) ==> l.agent == b
                &&& given.broadcast matches Some(b) ==> l.broadcast == b
                &&& given.prompt matches Some(s) ==> l.prompt@ == s@
            },
{
}

/// What a file leaves out has its default, whatever else it gives.
pub proof fn law_defaults_fill_in(c: PipelineConfig, file: ConfigFile)
    requires
        is_config(c, file),
    ensures
        file.organism is None ==> c.organism.name@.len() == 0 && c.organism.port == 0,
        file.organism matches Some(o) ==> {
            &&& o.name is None ==> c.organism.name@ == "unnamed"@
            &&& o.port is None ==> c.organism.port == 8765
        },
        file.max_concurrent_pipelines is None ==> c.max_concurrent_pipelines == 50,
        file.max_concurrent_handlers is None ==> c.max_concurrent_handlers == 20,
        file.max_concurrent_per_agent is None ==> c.max_concurrent_per_agent == 5,
        file.thread_scheduling is None ==> c.thread_scheduling@ == "breadth-first"@,
        forall|i: int|
            0 <= i < c.listeners@.len() ==> {
                let l = #[trigger] c.listeners@[i];
                let given = file.listeners@[i];
                &&& given.agent is None ==> !l.agent
                &&& given.broadcast is None ==> !l.broadcast
                &&& given.prompt is None ==> l.prompt@.len() == 0
            },
{
}

/// The tag and the handler's name are the last parts of their paths.
pub proof fn law_last_part_of_a_path(path: Seq<char>, name: Seq<char>)
    requires
        !name.contains('.'),
    ensures
        text::after_last(path + seq!['.'] + name, '.') == name,
        text::after_last(name, '.') == name,
{
    text::law_last_part(path, name, '.');
    text::law_only_part(name, '.');
}

} // verus!
