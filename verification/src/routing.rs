//! Routing table and peer enforcement.
//!
//! The routing table maps `to_id.payload_tag` keys to registered listeners.
//! Peer enforcement ensures agents can only message declared peers —
//! even if a handler tries to forge a target, the pipeline catches it.

use vstd::prelude::*;

use crate::envelope::AgentId;
use crate::error;
use crate::error::{ErrorView, PipelineError, PipelineResult};
use crate::strmap::{StrMap, StrSet};
use crate::text;

verus! {

/// A registered listener entry in the routing table.
#[derive(Debug)]
pub struct ListenerEntry {
    /// Listener name (unique identifier).
    pub name: AgentId,
    /// Whether this listener is an LLM agent (subject to peer constraints).
    pub is_agent: bool,
    /// Declared peers — agents this listener is allowed to message.
    /// Empty means no peer restriction (for non-agent listeners).
    pub peers: StrSet,
    /// The routing key for this listener: `name.payload_tag`.
    pub route_key: String,
    /// Human-readable description.
    pub description: String,
}

/// The model of a [`ListenerEntry`].
pub struct ListenerView {
    pub name: Seq<char>,
    pub is_agent: bool,
    pub peers: Set<Seq<char>>,
    pub route_key: Seq<char>,
    pub description: Seq<char>,
}

impl View for ListenerEntry {
    type V = ListenerView;

    open spec fn view(&self) -> ListenerView {
        ListenerView {
            name: self.name@,
            is_agent: self.is_agent,
            peers: self.peers@,
            route_key: self.route_key@,
            description: self.description@,
        }
    }
}

impl Clone for ListenerEntry {
    fn clone(&self) -> (r: Self)
        ensures
            r@ == self@,
    {
        ListenerEntry {
            name: self.name.clone(),
            is_agent: self.is_agent,
            peers: self.peers.duplicate(),
            route_key: self.route_key.clone(),
            description: self.description.clone(),
        }
    }
}

// ── Model ────────────────────────────────────────────────────────────

/// The key of a listener, or of a message addressed to one: both parts in lower case
/// with a dot between them; a message without a destination has the tag alone.
pub open spec fn route_key_of(to: Option<Seq<char>>, tag: Seq<char>) -> Seq<char> {
    match to {
        Some(to) => text::lowercase_of(to) + "."@ + text::lowercase_of(tag),
        None => text::lowercase_of(tag),
    }
}

/// The models of a list of entries.
pub open spec fn listener_views(entries: Seq<ListenerEntry>) -> Seq<ListenerView> {
    entries.map_values(|e: ListenerEntry| e@)
}

/// The model of a [`RoutingTable`].
pub struct TableView {
    /// The listeners under each route key, in the order of registration.
    pub routes: Map<Seq<char>, Seq<ListenerView>>,
    /// The listener registered last under each name.
    pub by_name: Map<Seq<char>, ListenerView>,
}

impl TableView {
    /// The listeners under a route key.
    pub open spec fn at(self, key: Seq<char>) -> Seq<ListenerView> {
        if self.routes.contains_key(key) {
            self.routes[key]
        } else {
            seq![]
        }
    }

    /// The table with one more listener.
    pub open spec fn with(self, entry: ListenerView) -> TableView {
        TableView {
            routes: self.routes.insert(entry.route_key, self.at(entry.route_key).push(entry)),
            by_name: self.by_name.insert(entry.name, entry),
        }
    }

    /// Whether the two ways into the table agree: a route key leads to listeners of that
    /// key, whose names are known, and a name leads to a listener of that name, which
    /// its route key leads to.
    pub open spec fn coherent(self) -> bool {
        &&& forall|key: Seq<char>| #[trigger]
            self.routes.contains_key(key) ==> self.routes[key].len() > 0
        &&& forall|key: Seq<char>, i: int|
            self.routes.contains_key(key) && 0 <= i < self.routes[key].len() ==> (
            #[trigger] self.routes[key][i]).route_key == key && self.by_name.contains_key(
                self.routes[key][i].name,
            )
        &&& forall|name: Seq<char>| #[trigger]
            self.by_name.contains_key(name) ==> self.by_name[name].name == name && self.at(
                self.by_name[name].route_key,
            ).contains(self.by_name[name])
    }

    /// Whether `from` may send to `to`. Senders that are not registered or are no agents may
    /// send to anyone, agents to their declared peers only.
    pub open spec fn may_send(self, from: Seq<char>, to: Seq<char>) -> bool {
        self.by_name.contains_key(from) ==> {
            let sender = self.by_name[from];
            !sender.is_agent || sender.peers.contains(to)
        }
    }
}

impl TableView {
    /// Whether `e` says that `from` must not send to `to`; it names the sender's peers,
    /// each once.
    pub open spec fn is_violation(self, e: ErrorView, from: Seq<char>, to: Seq<char>) -> bool {
        &&& e matches ErrorView::PeerViolation { from: f, to: t, allowed }
        &&& f == from
        &&& t == to
        &&& allowed.no_duplicates()
        &&& allowed.to_set() == self.by_name[from].peers
        &&& allowed.len() == self.by_name[from].peers.len()
    }
}

/// Routes messages to handlers and enforces peer constraints.
///
/// The routing table is built at config time and is immutable during
/// pipeline operation. Adding/removing listeners requires a config reload.
#[derive(Debug)]
pub struct RoutingTable {
    /// route_key → listener entries (can have multiple for broadcast)
    routes: StrMap<Vec<ListenerEntry>>,
    /// listener name → listener entry (for quick lookup by name)
    by_name: StrMap<ListenerEntry>,
}

/// The model of the routes.
spec fn routes_view(routes: Map<Seq<char>, Vec<ListenerEntry>>) -> Map<
    Seq<char>,
    Seq<ListenerView>,
> {
    routes.map_values(|v: Vec<ListenerEntry>| listener_views(v@))
}

/// The model of the listeners by name.
spec fn names_view(by_name: Map<Seq<char>, ListenerEntry>) -> Map<Seq<char>, ListenerView> {
    by_name.map_values(|e: ListenerEntry| e@)
}

impl View for RoutingTable {
    type V = TableView;

    closed spec fn view(&self) -> TableView {
        TableView { routes: routes_view(self.routes@), by_name: names_view(self.by_name@) }
    }
}

impl Default for RoutingTable {
    fn default() -> (r: Self)
        ensures
            r@ == (TableView { routes: Map::empty(), by_name: Map::empty() }),
    {
        RoutingTable::new()
    }
}

/// One more listener keeps the table coherent.
proof fn lemma_with_coherent(t: TableView, entry: ListenerView)
    requires
        t.coherent(),
    ensures
        t.with(entry).coherent(),
{
    let u = t.with(entry);
    let key = entry.route_key;
    let old_list = t.at(key);
    let list = old_list.push(entry);
    assert(u.routes[key] == list);
    assert forall|k: Seq<char>, i: int|
        u.routes.contains_key(k) && 0 <= i < u.routes[k].len() implies (
    #[trigger] u.routes[k][i]).route_key == k && u.by_name.contains_key(u.routes[k][i].name) by {
        if k == key {
            if i < old_list.len() {
                assert(t.routes.contains_key(k));
                assert(t.routes[k][i] == list[i]);
            }
        } else {
            assert(t.routes.contains_key(k));
            assert(t.routes[k][i] == u.routes[k][i]);
        }
    }
    assert forall|name: Seq<char>| #[trigger] u.by_name.contains_key(name) implies u.by_name[name].name
        == name && u.at(u.by_name[name].route_key).contains(u.by_name[name]) by {
        if name == entry.name {
            assert(list[old_list.len() as int] == entry);
        } else {
            let e = t.by_name[name];
            assert(t.by_name.contains_key(name));
            let k = e.route_key;
            let i = t.at(k).index_of(e);
            assert(t.at(k)[i] == e);
            assert(u.at(k)[i] == e);
        }
    }
}

impl RoutingTable {
    /// The two ways into the table agree.
    #[verifier::type_invariant]
    spec fn is_coherent(self) -> bool {
        self@.coherent()
    }

    /// A table without listeners.
    pub fn new() -> (r: Self)
        ensures
            r@ == (TableView { routes: Map::empty(), by_name: Map::empty() }),
    {
        let routes: StrMap<Vec<ListenerEntry>> = StrMap::new();
        let by_name: StrMap<ListenerEntry> = StrMap::new();
        proof {
            assert(routes_view(routes@) =~= Map::empty());
            assert(names_view(by_name@) =~= Map::empty());
        }
        RoutingTable { routes, by_name }
    }

    /// Register a listener in the routing table.
    pub fn register(
        &mut self,
        name: &str,
        payload_tag: &str,
        is_agent: bool,
        peers: Vec<String>,
        description: &str,
    )
        ensures
            final(self)@ == old(self)@.with(
                ListenerView {
                    name: name@,
                    is_agent,
                    peers: error::texts(peers@).to_set(),
                    route_key: route_key_of(Some(name@), payload_tag@),
                    description: description@,
                },
            ),
            final(self)@.coherent(),
    {
        let route_key = make_route_key(Some(name), payload_tag);
        let entry = ListenerEntry {
            name: name.to_owned(),
            is_agent,
            peers: StrSet::collect(&peers),
            route_key,
            description: description.to_owned(),
        };
        self.register_entry(entry);
    }

    /// Puts an entry into the table, under its route key and its name.
    pub fn register_entry(&mut self, entry: ListenerEntry)
        ensures
            final(self)@ == old(self)@.with(entry@),
            final(self)@.coherent(),
    {
        proof {
            use_type_invariant(&*self);
            lemma_with_coherent(self@, entry@);
        }
        let ghost before = self@;
        let ghost routes_before = self.routes@;
        let ghost names_before = self.by_name@;
        let mut table = RoutingTable::new();
        std::mem::swap(&mut table, self);
        let RoutingTable { mut routes, mut by_name } = table;
        let copy = entry.clone();
        let mut list = match routes.remove(entry.route_key.as_str()) {
            Some(list) => list,
            None => Vec::new(),
        };
        let ghost list_before = list@;
        list.push(copy);
        proof {
            assert(listener_views(list@) =~= listener_views(list_before).push(entry@));
            assert(listener_views(list_before) =~= before.at(entry.route_key@));
        }
        routes.insert(entry.route_key.as_str(), list);
        let name = entry.name.clone();
        by_name.insert(name.as_str(), entry);
        proof {
            assert(routes_view(routes@) =~= before.with(entry@).routes);
            assert(names_view(by_name@) =~= before.with(entry@).by_name);
        }
        *self = RoutingTable { routes, by_name };
    }

    /// Look up a listener by name.
    pub fn get_by_name(&self, name: &str) -> (r: Option<&ListenerEntry>)
        ensures
            match r {
                Some(e) => self@.by_name.contains_key(name@) && e@ == self@.by_name[name@],
                None => !self@.by_name.contains_key(name@),
            },
            self@.coherent(),
    {
        proof {
            use_type_invariant(self);
        }
        self.by_name.get(name)
    }

    /// Resolve routing for a message.
    ///
    /// Builds the route key from `to_id` and `payload_tag`, then
    /// looks up registered listeners.
    pub fn resolve(&self, to_id: Option<&str>, payload_tag: &str) -> (r: PipelineResult<
        &[ListenerEntry],
    >)
        ensures
            ({
                let key = route_key_of(text::opt_text(to_id), payload_tag@);
                match r {
                    Ok(entries) => listener_views(entries@) == self@.at(key) && entries@.len() > 0,
                    Err(e) => self@.at(key).len() == 0 && e@ == ErrorView::NoRoute(key),
                }
            }),
            self@.coherent(),
    {
        let key = make_route_key(to_id, payload_tag);
        self.listeners_at(key.as_str())
    }

    /// The listeners under a route key.
    pub fn listeners_at(&self, route_key: &str) -> (r: PipelineResult<&[ListenerEntry]>)
        ensures
            match r {
                Ok(entries) => listener_views(entries@) == self@.at(route_key@) && entries@.len()
                    > 0,
                Err(e) => self@.at(route_key@).len() == 0 && e@ == ErrorView::NoRoute(route_key@),
            },
            self@.coherent(),
    {
        proof {
            use_type_invariant(self);
        }
        match self.routes.get(route_key) {
            Some(entries) => {
                proof {
                    assert(self@.routes.contains_key(route_key@));
                }
                Ok(entries.as_slice())
            },
            None => Err(PipelineError::NoRoute(route_key.to_owned())),
        }
    }

    /// Enforce peer constraints.
    ///
    /// Checks that `from_agent` is allowed to send to `to_agent`.
    /// Non-agent senders are always allowed (system messages, etc.). The peers that a
    /// violation names are the sender's, each once.
    pub fn enforce_peers(&self, from_agent: &str, to_agent: &str) -> (r: PipelineResult<()>)
        ensures
            match r {
                Ok(_) => self@.may_send(from_agent@, to_agent@),
                Err(e) => !self@.may_send(from_agent@, to_agent@) && self@.is_violation(
                    e@,
                    from_agent@,
                    to_agent@,
                ),
            },
    {
        let sender = match self.by_name.get(from_agent) {
            Some(entry) => entry,
            None => {
                // unknown sender (e.g., "system") → always allowed
                return Ok(());
            },
        };
        if !sender.is_agent || sender.peers.contains(to_agent) {
            return Ok(());
        }
        let allowed = sender.peers.members();
        proof {
            error::texts(allowed@).unique_seq_to_set();
        }
        Err(
            PipelineError::PeerViolation {
                from: from_agent.to_owned(),
                to: to_agent.to_owned(),
                allowed,
            },
        )
    }

    /// Get all registered listener names, each once.
    pub fn listener_names(&self) -> (r: Vec<&str>)
        ensures
            r@.map_values(|k: &str| k@).no_duplicates(),
            r@.map_values(|k: &str| k@).to_set() == self@.by_name.dom(),
    {
        let r = self.by_name.keys();
        assert(self@.by_name.dom() =~= self.by_name@.dom());
        r
    }

    /// Get all route keys, each once.
    pub fn route_keys(&self) -> (r: Vec<&str>)
        ensures
            r@.map_values(|k: &str| k@).no_duplicates(),
            r@.map_values(|k: &str| k@).to_set() == self@.routes.dom(),
    {
        let r = self.routes.keys();
        assert(self@.routes.dom() =~= self.routes@.dom());
        r
    }
}

/// The route key of a message.
pub fn make_route_key(to: Option<&str>, payload_tag: &str) -> (r: String)
    ensures
        r@ == route_key_of(text::opt_text(to), payload_tag@),
{
    let tag = text::lowercase(payload_tag);
    match to {
        Some(to) => {
            let name = text::lowercase(to);
            text::cat3(name.as_str(), ".", tag.as_str())
        },
        None => tag,
    }
}

// ── Laws ─────────────────────────────────────────────────────────────

/// Whether two ASCII texts differ in the case of their letters at most.
pub open spec fn same_but_for_case(a: Seq<char>, b: Seq<char>) -> bool {
    &&& text::is_ascii_text(a)
    &&& text::is_ascii_text(b)
    &&& a.len() == b.len()
    &&& forall|i: int|
        0 <= i < a.len() ==> text::ascii_lowercase(#[trigger] a[i]) == text::ascii_lowercase(b[i])
}

/// Route keys ignore the case of ASCII letters.
pub proof fn law_keys_ignore_case(
    to: Seq<char>,
    other_to: Seq<char>,
    tag: Seq<char>,
    other_tag: Seq<char>,
)
    requires
        same_but_for_case(to, other_to),
        same_but_for_case(tag, other_tag),
    ensures
        route_key_of(Some(to), tag) == route_key_of(Some(other_to), other_tag),
        route_key_of(None, tag) == route_key_of(None, other_tag),
{
    assert(text::lowercase_of(to) =~= text::lowercase_of(other_to));
    assert(text::lowercase_of(tag) =~= text::lowercase_of(other_tag));
}

/// A message to a registered listener, tagged as it was registered, finds it.
pub proof fn law_registered_resolves(t: TableView, entry: ListenerView)
    ensures
        t.with(entry).at(entry.route_key).len() > 0,
        t.with(entry).at(entry.route_key).last() == entry,
        t.with(entry).by_name[entry.name] == entry,
{
}

/// Registering one listener leaves what other route keys and names lead to unchanged.
pub proof fn law_register_leaves_others(t: TableView, entry: ListenerView, other: Seq<char>)
    ensures
        other != entry.route_key ==> t.with(entry).at(other) == t.at(other),
        other != entry.name ==> t.with(entry).by_name.contains_key(other)
            == t.by_name.contains_key(other),
        other != entry.name && t.by_name.contains_key(other) ==> t.with(entry).by_name[other]
            == t.by_name[other],
{
}

/// An agent may send to its declared peers and to no one else.
pub proof fn law_agents_keep_to_peers(t: TableView, from: Seq<char>, to: Seq<char>)
    requires
        t.by_name.contains_key(from),
        t.by_name[from].is_agent,
    ensures
        t.may_send(from, to) <==> t.by_name[from].peers.contains(to),
{
}

/// An agent that declares no peers may send to no one, and a violation says so.
pub proof fn law_lone_agents_are_silent(
    t: TableView,
    from: Seq<char>,
    to: Seq<char>,
    e: ErrorView,
)
    requires
        t.by_name.contains_key(from),
        t.by_name[from].is_agent,
        t.by_name[from].peers == Set::<Seq<char>>::empty(),
    ensures
        !t.may_send(from, to),
        t.is_violation(e, from, to) ==> e == (ErrorView::PeerViolation {
            from,
            to,
            allowed: seq![],
        }),
{
    if let ErrorView::PeerViolation { from: _, to: _, allowed } = e {
        if t.is_violation(e, from, to) {
            assert(allowed =~= seq![]);
        }
    }
}

/// Listeners of one route key stand in the order of their registration.
pub proof fn law_registration_keeps_order(t: TableView, entry: ListenerView)
    ensures
        t.with(entry).at(entry.route_key) == t.at(entry.route_key).push(entry),
{
}

/// Senders that are no agents, and senders that are not registered, may send to anyone.
pub proof fn law_others_are_free(t: TableView, from: Seq<char>, to: Seq<char>)
    requires
        !t.by_name.contains_key(from) || !t.by_name[from].is_agent,
    ensures
        t.may_send(from, to),
{
}

/// Whom a sender may send to is decided by its own entry alone: registering another
/// listener changes nothing of it.
pub proof fn law_peers_are_the_senders_own(
    t: TableView,
    entry: ListenerView,
    from: Seq<char>,
    to: Seq<char>,
)
    requires
        entry.name != from,
    ensures
        t.with(entry).may_send(from, to) == t.may_send(from, to),
{
}

/// The key of a listener holds its name and its tag in lower case; a message to no one in
/// particular has the tag alone.
pub proof fn law_route_key_parts(to: Seq<char>, tag: Seq<char>)
    ensures
        route_key_of(Some(to), tag) == text::lowercase_of(to) + seq!['.'] + text::lowercase_of(tag),
        route_key_of(None, tag) == text::lowercase_of(tag),
{
    reveal_strlit(".");
    assert("."@ =~= seq!['.']);
}

/// Different listeners have different keys: where the tags hold no dots, one key stands
/// for one name and one tag, in lower case.
pub proof fn law_route_keys_differ(
    a: Seq<char>,
    tag: Seq<char>,
    b: Seq<char>,
    other: Seq<char>,
)
    requires
        !text::lowercase_of(tag).contains('.'),
        !text::lowercase_of(other).contains('.'),
        route_key_of(Some(a), tag) == route_key_of(Some(b), other),
    ensures
        text::lowercase_of(a) == text::lowercase_of(b),
        text::lowercase_of(tag) == text::lowercase_of(other),
{
    law_route_key_parts(a, tag);
    law_route_key_parts(b, other);
    text::law_last_part(text::lowercase_of(a), text::lowercase_of(tag), '.');
    text::law_last_part(text::lowercase_of(b), text::lowercase_of(other), '.');
}

} // verus!
