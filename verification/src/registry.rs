//! Listener registry — maps payload types to handler instances.
//!
//! The registry is the bridge between routing (which finds the target
//! listener) and dispatch (which calls the handler). It holds the
//! handlers alongside their metadata.

use vstd::prelude::*;

use crate::envelope::AgentId;
use crate::error;
use crate::routing;
use crate::routing::{ListenerView, RoutingTable, TableView};
use crate::strmap::StrMap;
use crate::validation;
use crate::validation::{PayloadSchema, SchemaRegistry};

verus! {

/// A fully registered listener with its handler and schema.
pub struct RegisteredListener<H> {
    /// Listener name.
    pub name: AgentId,
    /// The handler implementation.
    pub handler: H,
    /// Payload tag this listener handles (e.g., "Greeting").
    pub payload_tag: String,
    /// Whether this is an LLM agent.
    pub is_agent: bool,
    /// Declared peers.
    pub peers: Vec<String>,
    /// Description.
    pub description: String,
}

/// Metadata stored alongside each listener.
#[derive(Debug)]
struct ListenerMeta {
    payload_tag: String,
    is_agent: bool,
    peers: Vec<String>,
}

/// What is known of a listener: its payload tag, whether it is an agent, and its peers.
pub struct ListenerInfo {
    pub payload_tag: Seq<char>,
    pub is_agent: bool,
    pub peers: Seq<Seq<char>>,
}

impl View for ListenerMeta {
    type V = ListenerInfo;

    closed spec fn view(&self) -> ListenerInfo {
        ListenerInfo {
            payload_tag: self.payload_tag@,
            is_agent: self.is_agent,
            peers: error::texts(self.peers@),
        }
    }
}

/// Central registry for all listeners, handlers, and schemas.
///
/// Owns the routing table and schema registry. The pipeline uses
/// this to look up handlers during the dispatch stage.
pub struct ListenerRegistry<H> {
    /// Handler instances by listener name.
    handlers: StrMap<H>,
    /// The routing table (for route resolution and peer enforcement).
    pub routing: RoutingTable,
    /// Schema registry (for payload validation).
    pub schemas: SchemaRegistry,
    /// Listener metadata by name.
    listeners: StrMap<ListenerMeta>,
}

/// The model of a [`ListenerRegistry`].
pub struct RegistryView<H> {
    pub handlers: Map<Seq<char>, H>,
    pub routing: TableView,
    pub schemas: Map<Seq<char>, PayloadSchema>,
    pub listeners: Map<Seq<char>, ListenerInfo>,
}

impl<H> RegistryView<H> {
    /// Whether every listener that routing knows has a handler.
    pub open spec fn all_handled(self) -> bool {
        forall|name: Seq<char>| #[trigger]
            self.routing.by_name.contains_key(name) ==> self.handlers.contains_key(name)
    }

    /// The registry with one more listener.
    pub open spec fn with(
        self,
        entry: ListenerView,
        handler: H,
        info: ListenerInfo,
        schema: Option<PayloadSchema>,
    ) -> RegistryView<H> {
        RegistryView {
            handlers: self.handlers.insert(entry.name, handler),
            routing: self.routing.with(entry),
            schemas: match schema {
                Some(s) => self.schemas.insert(s.root_tag@, s),
                None => self.schemas,
            },
            listeners: self.listeners.insert(entry.name, info),
        }
    }
}

/// The model of the metadata.
spec fn infos(m: Map<Seq<char>, ListenerMeta>) -> Map<Seq<char>, ListenerInfo> {
    m.map_values(|i: ListenerMeta| i@)
}

impl<H> View for ListenerRegistry<H> {
    type V = RegistryView<H>;

    closed spec fn view(&self) -> RegistryView<H> {
        RegistryView {
            handlers: self.handlers@,
            routing: self.routing@,
            schemas: self.schemas@,
            listeners: infos(self.listeners@),
        }
    }
}

/// A copy of a list of strings.
fn copy_texts(list: &Vec<String>) -> (r: Vec<String>)
    ensures
        error::texts(r@) == error::texts(list@),
{
    let mut out: Vec<String> = Vec::new();
    let mut i: usize = 0;
    while i < list.len()
        invariant
            i <= list@.len(),
            out@.len() == i,
            forall|j: int| 0 <= j < i ==> #[trigger] out@[j]@ == list@[j]@,
        decreases list@.len() - i,
    {
        out.push(list[i].clone());
        i += 1;
    }
    assert(error::texts(out@) =~= error::texts(list@));
    out
}

impl<H> ListenerRegistry<H> {
    /// A registry without listeners.
    pub fn new() -> (r: Self)
        ensures
            r@ == (RegistryView {
                handlers: Map::<Seq<char>, H>::empty(),
                routing: TableView { routes: Map::empty(), by_name: Map::empty() },
                schemas: Map::empty(),
                listeners: Map::empty(),
            }),
    {
        let r = ListenerRegistry {
            handlers: StrMap::new(),
            routing: RoutingTable::new(),
            schemas: SchemaRegistry::new(),
            listeners: StrMap::new(),
        };
        assert(infos(r.listeners@) =~= Map::empty());
        r
    }

    /// Register a listener with its handler and optional schema.
    ///
    /// This is the main registration API. It:
    /// 1. Stores the handler instance
    /// 2. Registers the route in the routing table
    /// 3. Optionally registers a payload schema
    pub fn register(
        &mut self,
        name: &str,
        payload_tag: &str,
        handler: H,
        is_agent: bool,
        peers: Vec<String>,
        description: &str,
        schema: Option<PayloadSchema>,
    )
        ensures
            final(self)@ == old(self)@.with(
                ListenerView {
                    name: name@,
                    is_agent,
                    peers: error::texts(peers@).to_set(),
                    route_key: routing::route_key_of(Some(name@), payload_tag@),
                    description: description@,
                },
                handler,
                ListenerInfo { payload_tag: payload_tag@, is_agent, peers: error::texts(peers@) },
                schema,
            ),
    {
        self.handlers.insert(name, handler);
        let declared = copy_texts(&peers);
        self.routing.register(name, payload_tag, is_agent, declared, description);
        if let Some(s) = schema {
            self.schemas.register(s);
        }
        let meta = ListenerMeta { payload_tag: payload_tag.to_owned(), is_agent, peers };
        self.listeners.insert(name, meta);
        assert(infos(self.listeners@) =~= old(self)@.listeners.insert(name@, meta@));
    }

    /// Get a handler by listener name.
    pub fn get_handler(&self, name: &str) -> (r: Option<&H>)
        ensures
            match r {
                Some(h) => self@.handlers.contains_key(name@) && *h == self@.handlers[name@],
                None => !self@.handlers.contains_key(name@),
            },
    {
        self.handlers.get(name)
    }

    /// The routing table, as the model of the registry has it.
    pub fn routing_table(&self) -> (r: &RoutingTable)
        ensures
            r@ == self@.routing,
    {
        &self.routing
    }

    /// The schemas, as the model of the registry has them.
    pub fn schema_registry(&self) -> (r: &SchemaRegistry)
        ensures
            r@ == self@.schemas,
    {
        &self.schemas
    }

    /// Get all registered listener names, each once.
    pub fn listener_names(&self) -> (r: Vec<&str>)
        ensures
            r@.map_values(|k: &str| k@).no_duplicates(),
            r@.map_values(|k: &str| k@).to_set() == self@.listeners.dom(),
    {
        let r = self.listeners.keys();
        assert(self@.listeners.dom() =~= self.listeners@.dom());
        r
    }

    /// Check if a listener is registered.
    pub fn has_listener(&self, name: &str) -> (r: bool)
        ensures
            r == self@.listeners.contains_key(name@),
    {
        self.listeners.contains_key(name)
    }

    /// Get listener metadata.
    pub fn listener_info(&self, name: &str) -> (r: Option<(&str, bool, &[String])>)
        ensures
            match r {
                Some((tag, is_agent, peers)) => self@.listeners.contains_key(name@)
                    && self@.listeners[name@] == (ListenerInfo {
                    payload_tag: tag@,
                    is_agent,
                    peers: error::texts(peers@),
                }),
                None => !self@.listeners.contains_key(name@),
            },
    {
        match self.listeners.get(name) {
            Some(m) => Some((m.payload_tag.as_str(), m.is_agent, m.peers.as_slice())),
            None => None,
        }
    }
}

impl<H> Default for ListenerRegistry<H> {
    fn default() -> (r: Self)
        ensures
            r@ == (RegistryView {
                handlers: Map::<Seq<char>, H>::empty(),
                routing: TableView { routes: Map::empty(), by_name: Map::empty() },
                schemas: Map::empty(),
                listeners: Map::empty(),
            }),
    {
        ListenerRegistry::new()
    }
}

// ── Laws ─────────────────────────────────────────────────────────────

/// Registration keeps a handler behind every listener that routing knows.
pub proof fn law_registered_is_handled<H>(
    r: RegistryView<H>,
    entry: ListenerView,
    handler: H,
    info: ListenerInfo,
    schema: Option<PayloadSchema>,
)
    requires
        r.all_handled(),
    ensures
        r.with(entry, handler, info, schema).all_handled(),
        r.with(entry, handler, info, schema).handlers[entry.name] == handler,
{
}

/// Whatever routing resolves to has a handler.
pub proof fn law_routed_is_handled<H>(r: RegistryView<H>, key: Seq<char>, i: int)
    requires
        r.all_handled(),
        r.routing.coherent(),
        0 <= i < r.routing.at(key).len(),
    ensures
        r.handlers.contains_key(r.routing.at(key)[i].name),
{
    assert(r.routing.routes.contains_key(key));
    assert(r.routing.by_name.contains_key(r.routing.routes[key][i].name));
}

/// Registering a listener leaves the handlers and the descriptions of others as they are,
/// and every schema but its own.
pub proof fn law_registering_leaves_others<H>(
    r: RegistryView<H>,
    entry: ListenerView,
    handler: H,
    info: ListenerInfo,
    schema: Option<PayloadSchema>,
    other: Seq<char>,
)
    ensures
        ({
            let after = r.with(entry, handler, info, schema);
            &&& other != entry.name ==> after.handlers.contains_key(other)
                == r.handlers.contains_key(other)
            &&& other != entry.name && r.handlers.contains_key(other) ==> after.handlers[other]
                == r.handlers[other]
            &&& other != entry.name ==> after.listeners.contains_key(other)
                == r.listeners.contains_key(other)
            &&& other != entry.name && r.listeners.contains_key(other) ==> after.listeners[other]
                == r.listeners[other]
            &&& schema is None ==> after.schemas == r.schemas
            &&& schema matches Some(s) ==> s.root_tag@ != other ==> after.schemas.contains_key(
                other,
            ) == r.schemas.contains_key(other)
            &&& schema matches Some(s) ==> s.root_tag@ != other && r.schemas.contains_key(other)
                ==> after.schemas[other] == r.schemas[other]
            &&& after.routing == r.routing.with(entry)
        }),
{
}

/// A listener that is registered is the one that is found: its handler and its description,
/// and payloads of its tag are held to the schema that it came with.
pub proof fn law_registered_is_found<H>(
    r: RegistryView<H>,
    entry: ListenerView,
    handler: H,
    info: ListenerInfo,
    schema: Option<PayloadSchema>,
)
    ensures
        ({
            let after = r.with(entry, handler, info, schema);
            &&& after.handlers.contains_key(entry.name) && after.handlers[entry.name] == handler
            &&& after.listeners.contains_key(entry.name) && after.listeners[entry.name] == info
            &&& after.routing.by_name[entry.name] == entry
            &&& schema matches Some(s) ==> validation::schema_for(after.schemas, s.root_tag@) == s@
        }),
{
}

} // verus!
