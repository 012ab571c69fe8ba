//! Thread registry — maps opaque UUIDs to call chains.
//!
//! Call chains track the path a message has taken through the system:
//!   A calls B → chain: "a.b"
//!   B calls C → chain: "a.b.c"
//!
//! UUIDs obscure the topology from agents. They only see an opaque
//! `thread_id`, not the actual call chain.
//!
//! Response routing: when an agent returns a reply, the registry looks up the chain,
//! prunes the last segment (the responder), routes to the new last segment (the caller)
//! and returns the UUID for the pruned chain.

use uuid::Uuid;
use vstd::prelude::*;

use crate::envelope::ThreadId;
use crate::numbers;
use crate::strmap::StrMap;
use crate::text;

verus! {

// ── Fresh identifiers ────────────────────────────────────────────────

/// The hyphenated form of a random UUID: hexadecimal digits in groups of 8, 4, 4, 4 and
/// 12, the version digit 4, and the variant in the digit behind the third hyphen.
pub open spec fn is_uuid_text(s: Seq<char>) -> bool {
    &&& s.len() == 36
    &&& forall|i: int|
        0 <= i < 36 ==> if i == 8 || i == 13 || i == 18 || i == 23 {
            #[trigger] s[i] == '-'
        } else {
            numbers::is_lower_hex(s[i])
        }
    &&& s[14] == '4'
    &&& s[19] == '8' || s[19] == '9' || s[19] == 'a' || s[19] == 'b'
}

/// `Uuid::new_v4`, hyphenated. Which UUID comes is left to chance; that it has not come
/// before is likely and not stated.
#[verifier::external_body]
fn new_uuid() -> (r: String)
    ensures
        is_uuid_text(r@),
{
    Uuid::new_v4().to_string()
}

// ── Model ────────────────────────────────────────────────────────────

/// The model of a [`ThreadRegistry`].
pub struct ThreadsView {
    /// chain → UUID
    pub chains: Map<Seq<char>, Seq<char>>,
    /// UUID → chain
    pub threads: Map<Seq<char>, Seq<char>>,
    /// Root thread UUID.
    pub root: Option<Seq<char>>,
    /// Root chain.
    pub root_chain: Seq<char>,
}

impl ThreadsView {
    /// No threads.
    pub open spec fn empty() -> ThreadsView {
        ThreadsView {
            chains: Map::empty(),
            threads: Map::empty(),
            root: None,
            root_chain: "system"@,
        }
    }

    /// The registry with `uuid` standing for `chain`.
    pub open spec fn assigned(self, chain: Seq<char>, uuid: Seq<char>) -> ThreadsView {
        ThreadsView {
            chains: self.chains.insert(chain, uuid),
            threads: self.threads.insert(uuid, chain),
            ..self
        }
    }

    /// The registry with a UUID for `chain`: the one it has, else `uuid`.
    pub open spec fn named(self, chain: Seq<char>, uuid: Seq<char>) -> ThreadsView {
        if self.chains.contains_key(chain) {
            self
        } else {
            self.assigned(chain, uuid)
        }
    }

    /// The UUID for `chain` in [`ThreadsView::named`].
    pub open spec fn id_for(self, chain: Seq<char>, uuid: Seq<char>) -> Seq<char> {
        if self.chains.contains_key(chain) {
            self.chains[chain]
        } else {
            uuid
        }
    }

    /// The registry without a thread.
    pub open spec fn cleaned(self, uuid: Seq<char>) -> ThreadsView {
        if self.threads.contains_key(uuid) {
            ThreadsView {
                chains: self.chains.remove(self.threads[uuid]),
                threads: self.threads.remove(uuid),
                ..self
            }
        } else {
            self
        }
    }

    /// The registry with a root thread: the one it has, else `uuid`.
    pub open spec fn rooted(self, organism: Seq<char>, uuid: Seq<char>) -> ThreadsView {
        if self.root is Some {
            self
        } else {
            let chain = "system."@ + organism;
            ThreadsView { root: Some(uuid), root_chain: chain, ..self.assigned(chain, uuid) }
        }
    }

    /// The chain of a thread that comes from outside.
    pub open spec fn outside_chain(self, initiator: Seq<char>, target: Seq<char>) -> Seq<char> {
        if self.root is Some {
            self.root_chain + "."@ + initiator + "."@ + target
        } else {
            initiator + "."@ + target
        }
    }

    /// The chain of `uuid` with one more hop; the hop alone where there is none.
    pub open spec fn extended(self, uuid: Seq<char>, hop: Seq<char>) -> Seq<char> {
        if self.threads.contains_key(uuid) && self.threads[uuid].len() > 0 {
            self.threads[uuid] + "."@ + hop
        } else {
            hop
        }
    }

    /// The caller on the chain of `uuid`, and the chain up to it: the chain without its
    /// last segment. `None` where there is no such chain or nothing is left of it.
    pub open spec fn caller(self, uuid: Seq<char>) -> Option<(Seq<char>, Seq<char>)> {
        if self.threads.contains_key(uuid) && self.threads[uuid].contains('.') {
            let pruned = text::before_last(self.threads[uuid], '.');
            Some((text::after_last(pruned, '.'), pruned))
        } else {
            None
        }
    }

    /// Whether the UUID of every chain leads back to that chain.
    pub open spec fn paired(self) -> bool {
        forall|chain: Seq<char>| #[trigger]
            self.chains.contains_key(chain) ==> self.threads.contains_key(self.chains[chain])
                && self.threads[self.chains[chain]] == chain
    }
}

/// The model of a map from text to text.
spec fn text_map(m: Map<Seq<char>, String>) -> Map<Seq<char>, Seq<char>> {
    m.map_values(|s: String| s@)
}

/// Bidirectional mapping between UUIDs and dot-separated call chains.
#[derive(Debug)]
pub struct ThreadRegistry {
    /// chain string → UUID
    chain_to_uuid: StrMap<String>,
    /// UUID → chain string
    uuid_to_chain: StrMap<String>,
    /// Root thread UUID (set at boot)
    root_uuid: Option<String>,
    /// Root chain string
    root_chain: String,
}

impl View for ThreadRegistry {
    type V = ThreadsView;

    closed spec fn view(&self) -> ThreadsView {
        ThreadsView {
            chains: text_map(self.chain_to_uuid@),
            threads: text_map(self.uuid_to_chain@),
            root: match self.root_uuid {
                Some(u) => Some(u@),
                None => None,
            },
            root_chain: self.root_chain@,
        }
    }
}

/// Result of pruning a thread chain for a response.
#[derive(Debug, PartialEq)]
pub struct PruneResult {
    /// The target agent (new last segment after pruning).
    pub target: String,
    /// The UUID for the pruned chain.
    pub thread_id: ThreadId,
}

impl Default for ThreadRegistry {
    /// A registry without threads. Its root chain is empty until a root is set.
    fn default() -> (r: Self)
        ensures
            r@ == (ThreadsView { root_chain: seq![], ..ThreadsView::empty() }),
    {
        let r = ThreadRegistry {
            chain_to_uuid: StrMap::new(),
            uuid_to_chain: StrMap::new(),
            root_uuid: None,
            root_chain: String::new(),
        };
        proof {
            assert(text_map(r.chain_to_uuid@) =~= Map::empty());
            assert(text_map(r.uuid_to_chain@) =~= Map::empty());
            assert(r.root_chain@ =~= seq![]);
        }
        r
    }
}

impl ThreadRegistry {
    /// A registry without threads.
    pub fn new() -> (r: Self)
        ensures
            r@ == ThreadsView::empty(),
    {
        let r = ThreadRegistry {
            chain_to_uuid: StrMap::new(),
            uuid_to_chain: StrMap::new(),
            root_uuid: None,
            root_chain: "system".to_owned(),
        };
        proof {
            assert(text_map(r.chain_to_uuid@) =~= Map::empty());
            assert(text_map(r.uuid_to_chain@) =~= Map::empty());
        }
        r
    }

    /// Lets `uuid` stand for `chain`.
    fn assign(&mut self, chain: &str, uuid: &str)
        ensures
            final(self)@ == old(self)@.assigned(chain@, uuid@),
    {
        self.chain_to_uuid.insert(chain, uuid.to_owned());
        self.uuid_to_chain.insert(uuid, chain.to_owned());
        proof {
            assert(text_map(self.chain_to_uuid@) =~= old(self)@.chains.insert(chain@, uuid@));
            assert(text_map(self.uuid_to_chain@) =~= old(self)@.threads.insert(uuid@, chain@));
        }
    }

    /// Initialize the root thread at boot time.
    ///
    /// Must be called once at startup. The root thread is the
    /// ancestor of all other threads.
    pub fn initialize_root(&mut self, organism_name: &str) -> (r: String)
        ensures
            final(self)@ == old(self)@.rooted(organism_name@, r@),
            final(self)@.root == Some(r@),
            old(self)@.root is None ==> is_uuid_text(r@),
    {
        match &self.root_uuid {
            Some(uuid) => uuid.clone(),
            None => {
                let uuid = new_uuid();
                self.initialize_root_with(organism_name, uuid.as_str())
            },
        }
    }

    /// Initialize the root thread with the given UUID, unless there is one.
    pub fn initialize_root_with(&mut self, organism_name: &str, uuid: &str) -> (r: String)
        ensures
            final(self)@ == old(self)@.rooted(organism_name@, uuid@),
            final(self)@.root == Some(r@),
    {
        if let Some(root) = &self.root_uuid {
            return root.clone();
        }
        let chain = text::cat("system.", organism_name);
        self.assign(chain.as_str(), uuid);
        self.root_chain = chain;
        self.root_uuid = Some(uuid.to_owned());
        uuid.to_owned()
    }

    /// Get the root thread UUID.
    pub fn root_uuid(&self) -> (r: Option<&str>)
        ensures
            text::opt_text(r) == self@.root,
    {
        match &self.root_uuid {
            Some(u) => Some(u.as_str()),
            None => None,
        }
    }

    /// Look up chain for a UUID.
    pub fn lookup(&self, thread_id: &str) -> (r: Option<&str>)
        ensures
            match r {
                Some(chain) => self@.threads.contains_key(thread_id@) && chain@
                    == self@.threads[thread_id@],
                None => !self@.threads.contains_key(thread_id@),
            },
    {
        match self.uuid_to_chain.get(thread_id) {
            Some(chain) => Some(chain.as_str()),
            None => None,
        }
    }

    /// Get existing UUID for chain, or create new one.
    pub fn get_or_create(&mut self, chain: &str) -> (r: String)
        ensures
            final(self)@ == old(self)@.named(chain@, r@),
            r@ == old(self)@.id_for(chain@, r@),
            !old(self)@.chains.contains_key(chain@) ==> is_uuid_text(r@),
    {
        match self.chain_to_uuid.get(chain) {
            Some(uuid) => uuid.clone(),
            None => {
                let uuid = new_uuid();
                self.get_or_create_with(chain, uuid.as_str())
            },
        }
    }

    /// Get existing UUID for chain, or let the given one stand for it.
    pub fn get_or_create_with(&mut self, chain: &str, uuid: &str) -> (r: String)
        ensures
            final(self)@ == old(self)@.named(chain@, uuid@),
            r@ == old(self)@.id_for(chain@, uuid@),
    {
        if let Some(existing) = self.chain_to_uuid.get(chain) {
            return existing.clone();
        }
        self.assign(chain, uuid);
        uuid.to_owned()
    }

    /// Start a new call chain between initiator and target.
    pub fn start_chain(&mut self, initiator: &str, target: &str) -> (r: String)
        ensures
            ({
                let chain = initiator@ + "."@ + target@;
                &&& final(self)@ == old(self)@.named(chain, r@)
                &&& r@ == old(self)@.id_for(chain, r@)
                &&& !old(self)@.chains.contains_key(chain) ==> is_uuid_text(r@)
            }),
    {
        let chain = text::cat3(initiator, ".", target);
        self.get_or_create(chain.as_str())
    }

    /// Register an existing UUID to a call chain.
    ///
    /// Used when external messages arrive with a pre-assigned UUID
    /// that isn't in the registry yet.
    pub fn register_thread(&mut self, thread_id: &str, initiator: &str, target: &str) -> (r: String)
        ensures
            ({
                let t = old(self)@;
                let chain = t.outside_chain(initiator@, target@);
                if t.threads.contains_key(thread_id@) {
                    final(self)@ == t && r@ == thread_id@
                } else {
                    final(self)@ == t.named(chain, thread_id@) && r@ == t.id_for(
                        chain,
                        thread_id@,
                    )
                }
            }),
    {
        if self.uuid_to_chain.contains_key(thread_id) {
            return thread_id.to_owned();
        }
        let chain = if self.root_uuid.is_some() {
            text::cat5(self.root_chain.as_str(), ".", initiator, ".", target)
        } else {
            text::cat3(initiator, ".", target)
        };
        self.get_or_create_with(chain.as_str(), thread_id)
    }

    /// The chain of a thread with one more hop.
    pub fn extended_chain(&self, current_uuid: &str, next_hop: &str) -> (r: String)
        ensures
            r@ == self@.extended(current_uuid@, next_hop@),
    {
        match self.uuid_to_chain.get(current_uuid) {
            Some(chain) => {
                if text::is_empty_text(chain.as_str()) {
                    next_hop.to_owned()
                } else {
                    text::cat3(chain.as_str(), ".", next_hop)
                }
            },
            None => next_hop.to_owned(),
        }
    }

    /// Extend a chain with a new hop and get UUID for the extended chain.
    ///
    /// e.g., chain "a.b" + hop "c" → "a.b.c" with a new UUID.
    pub fn extend_chain(&mut self, current_uuid: &str, next_hop: &str) -> (r: String)
        ensures
            ({
                let chain = old(self)@.extended(current_uuid@, next_hop@);
                &&& final(self)@ == old(self)@.named(chain, r@)
                &&& r@ == old(self)@.id_for(chain, r@)
                &&& !old(self)@.chains.contains_key(chain) ==> is_uuid_text(r@)
            }),
    {
        let chain = self.extended_chain(current_uuid, next_hop);
        self.get_or_create(chain.as_str())
    }

    /// The caller on a thread's chain, and the chain up to it.
    pub fn caller_of(&self, thread_id: &str) -> (r: Option<(String, String)>)
        ensures
            match r {
                Some((target, chain)) => self@.caller(thread_id@) == Some((target@, chain@)),
                None => self@.caller(thread_id@) is None,
            },
    {
        let chain = match self.uuid_to_chain.get(thread_id) {
            Some(chain) => chain,
            None => {
                return None;
            },
        };
        let chars = text::chars_of(chain.as_str());
        let behind: usize = text::behind_last(chars.as_slice(), '.');
        proof {
            text::lemma_last_at(chain@, '.');
        }
        if behind == 0 {
            return None;
        }
        let pruned = text::text_of(chars.as_slice(), 0, behind - 1);
        proof {
            assert(pruned@ =~= text::before_last(chain@, '.'));
        }
        let target = text::tail_after(pruned.as_str(), '.').to_owned();
        Some((target, pruned))
    }

    /// Prune chain for a response and get the target.
    ///
    /// When an agent responds:
    /// 1. Look up the chain
    /// 2. Remove the last segment (the responder)
    /// 3. Return the new target (new last segment) and new UUID
    ///
    /// Returns `None` if the chain is exhausted (no one to respond to), and forgets it.
    pub fn prune_for_response(&mut self, thread_id: &str) -> (r: Option<PruneResult>)
        ensures
            match (r, old(self)@.caller(thread_id@)) {
                (Some(p), Some((target, chain))) => {
                    &&& p.target@ == target
                    &&& final(self)@ == old(self)@.named(chain, p.thread_id@)
                    &&& p.thread_id@ == old(self)@.id_for(chain, p.thread_id@)
                    &&& !old(self)@.chains.contains_key(chain) ==> is_uuid_text(p.thread_id@)
                },
                (None, None) => final(self)@ == old(self)@.cleaned(thread_id@),
                _ => false,
            },
    {
        match self.caller_of(thread_id) {
            Some((target, chain)) => {
                let new_uuid = self.get_or_create(chain.as_str());
                Some(PruneResult { target, thread_id: new_uuid })
            },
            None => {
                self.cleanup(thread_id);
                None
            },
        }
    }

    /// Explicitly clean up a thread UUID.
    pub fn cleanup(&mut self, thread_id: &str)
        ensures
            final(self)@ == old(self)@.cleaned(thread_id@),
    {
        match self.uuid_to_chain.remove(thread_id) {
            Some(chain) => {
                self.chain_to_uuid.remove(chain.as_str());
                proof {
                    assert(text_map(self.chain_to_uuid@) =~= old(self)@.chains.remove(chain@));
                    assert(text_map(self.uuid_to_chain@) =~= old(self)@.threads.remove(thread_id@));
                }
            },
            None => {
                assert(text_map(self.uuid_to_chain@) =~= old(self)@.threads);
            },
        }
    }

    /// Return current mappings for debugging.
    pub fn debug_dump(&self) -> (r: &StrMap<String>)
        ensures
            r@.map_values(|s: String| s@) == self@.threads,
    {
        &self.uuid_to_chain
    }

    /// Clear all thread mappings.
    pub fn clear(&mut self)
        ensures
            final(self)@ == ThreadsView::empty(),
    {
        self.chain_to_uuid.clear();
        self.uuid_to_chain.clear();
        self.root_uuid = None;
        self.root_chain = "system".to_owned();
        proof {
            assert(text_map(self.chain_to_uuid@) =~= Map::empty());
            assert(text_map(self.uuid_to_chain@) =~= Map::empty());
        }
    }
}

// ── Laws ─────────────────────────────────────────────────────────────

/// A registry without threads pairs them.
pub proof fn law_empty_is_paired()
    ensures
        ThreadsView::empty().paired(),
{
}

/// Naming a chain keeps chains and threads paired, if a new UUID is not in use, and the
/// chain's UUID leads to the chain.
pub proof fn law_named_is_paired(t: ThreadsView, chain: Seq<char>, uuid: Seq<char>)
    requires
        t.paired(),
        t.chains.contains_key(chain) || !t.threads.contains_key(uuid),
    ensures
        t.named(chain, uuid).paired(),
        t.named(chain, uuid).threads.contains_key(t.id_for(chain, uuid)),
        t.named(chain, uuid).threads[t.id_for(chain, uuid)] == chain,
{
}

/// Setting the root keeps chains and threads paired, if a new UUID is not in use.
pub proof fn law_rooted_is_paired(t: ThreadsView, organism: Seq<char>, uuid: Seq<char>)
    requires
        t.paired(),
        t.root is Some || !t.threads.contains_key(uuid),
    ensures
        t.rooted(organism, uuid).paired(),
{
}

/// Forgetting a thread keeps chains and threads paired, and it is gone in both directions.
pub proof fn law_cleaned_is_paired(t: ThreadsView, uuid: Seq<char>)
    requires
        t.paired(),
    ensures
        t.cleaned(uuid).paired(),
        !t.cleaned(uuid).threads.contains_key(uuid),
        forall|chain: Seq<char>| #[trigger]
            t.cleaned(uuid).chains.contains_key(chain) ==> t.cleaned(uuid).chains[chain] != uuid,
{
}

/// Naming a chain twice gives the same UUID, and the second time changes nothing.
pub proof fn law_naming_is_idempotent(
    t: ThreadsView,
    chain: Seq<char>,
    first: Seq<char>,
    second: Seq<char>,
)
    ensures
        t.named(chain, first).named(chain, second) == t.named(chain, first),
        t.named(chain, first).id_for(chain, second) == t.id_for(chain, first),
{
}

/// A response undoes a call: behind one more hop, the caller is the last segment of the
/// chain that was extended, on that very chain. A hop is a name without dots.
pub proof fn law_prune_undoes_extend(
    t: ThreadsView,
    current: Seq<char>,
    hop: Seq<char>,
    fresh: Seq<char>,
)
    requires
        t.paired(),
        t.threads.contains_key(current),
        t.threads[current].len() > 0,
        !hop.contains('.'),
        t.chains.contains_key(t.extended(current, hop)) || !t.threads.contains_key(fresh),
    ensures
        ({
            let chain = t.extended(current, hop);
            let after = t.named(chain, fresh);
            after.caller(t.id_for(chain, fresh)) == Some(
                (text::after_last(t.threads[current], '.'), t.threads[current]),
            )
        }),
{
    let before = t.threads[current];
    let chain = t.extended(current, hop);
    let k = before.len() as int;
    reveal_strlit(".");
    assert(chain[k] == '.');
    assert(chain.contains('.'));
    assert forall|i: int| k < i < chain.len() implies chain[i] != '.' by {
        assert(chain[i] == hop[i - k - 1]);
        assert(hop.contains(hop[i - k - 1]));
    }
    text::lemma_last_at_unique(chain, '.', k);
    assert(text::before_last(chain, '.') =~= before);
    law_named_is_paired(t, chain, fresh);
}

/// The thread of a response is the thread that the call was made on, where that one was
/// the registered thread of its chain.
pub proof fn law_response_returns_to_thread(
    t: ThreadsView,
    current: Seq<char>,
    hop: Seq<char>,
    fresh: Seq<char>,
    other: Seq<char>,
)
    requires
        t.paired(),
        t.threads.contains_key(current),
        t.threads[current].len() > 0,
        t.chains.contains_key(t.threads[current]),
        t.chains[t.threads[current]] == current,
        !hop.contains('.'),
        t.chains.contains_key(t.extended(current, hop)) || !t.threads.contains_key(fresh),
    ensures
        ({
            let chain = t.extended(current, hop);
            let after = t.named(chain, fresh);
            let (_, back) = after.caller(t.id_for(chain, fresh))->0;
            &&& after.id_for(back, other) == current
            &&& after.named(back, other) == after
        }),
{
    law_prune_undoes_extend(t, current, hop, fresh);
    let chain = t.extended(current, hop);
    reveal_strlit(".");
    assert(chain.len() > t.threads[current].len());
}

/// A chain gets shorter with every response, so that it is exhausted in the end.
pub proof fn law_pruned_is_shorter(t: ThreadsView, uuid: Seq<char>)
    requires
        t.caller(uuid) is Some,
    ensures
        t.caller(uuid) matches Some((_, chain)) && chain.len() < t.threads[uuid].len(),
{
    text::lemma_last_at(t.threads[uuid], '.');
}

/// The caller on a chain is the last name but one, on the chain up to it; a chain of one
/// name has none.
pub proof fn law_caller_is_last_but_one(
    t: ThreadsView,
    uuid: Seq<char>,
    front: Seq<char>,
    caller: Seq<char>,
    callee: Seq<char>,
)
    requires
        t.threads.contains_key(uuid),
        !caller.contains('.'),
        !callee.contains('.'),
    ensures
        t.threads[uuid] == front + seq!['.'] + caller + seq!['.'] + callee ==> t.caller(uuid)
            == Some((caller, front + seq!['.'] + caller)),
        t.threads[uuid] == caller + seq!['.'] + callee ==> t.caller(uuid) == Some(
            (caller, caller),
        ),
        t.threads[uuid] == callee ==> t.caller(uuid) is None,
{
    let long = front + seq!['.'] + caller;
    text::law_last_part(long, callee, '.');
    text::law_last_part(front, caller, '.');
    text::law_last_part(caller, callee, '.');
    text::law_only_part(caller, '.');
    assert((long + seq!['.'] + callee)[long.len() as int] == '.');
    assert((caller + seq!['.'] + callee)[caller.len() as int] == '.');
}

/// A thread that is not known has no caller.
pub proof fn law_unknown_has_no_caller(t: ThreadsView, uuid: Seq<char>)
    requires
        !t.threads.contains_key(uuid),
    ensures
        t.caller(uuid) is None,
        t.cleaned(uuid) == t,
{
}

/// A chain that has a thread keeps it, and nothing changes; one that has none gets the one
/// it is given. Other chains, and threads, are left as they are, and so is the root.
pub proof fn law_naming_leaves_others(
    t: ThreadsView,
    chain: Seq<char>,
    uuid: Seq<char>,
    other: Seq<char>,
)
    ensures
        t.chains.contains_key(chain) ==> t.named(chain, uuid) == t && t.id_for(chain, uuid)
            == t.chains[chain],
        !t.chains.contains_key(chain) ==> t.named(chain, uuid).chains[chain] == uuid && t.named(
            chain,
            uuid,
        ).threads[uuid] == chain && t.id_for(chain, uuid) == uuid,
        other != chain ==> t.named(chain, uuid).chains.contains_key(other)
            == t.chains.contains_key(other),
        other != chain && t.chains.contains_key(other) ==> t.named(chain, uuid).chains[other]
            == t.chains[other],
        other != uuid ==> t.named(chain, uuid).threads.contains_key(other)
            == t.threads.contains_key(other),
        other != uuid && t.threads.contains_key(other) ==> t.named(chain, uuid).threads[other]
            == t.threads[other],
        t.named(chain, uuid).root == t.root,
        t.named(chain, uuid).root_chain == t.root_chain,
{
}

/// Forgetting a thread leaves the others, and the root, as they are.
pub proof fn law_cleaning_leaves_others(t: ThreadsView, uuid: Seq<char>, other: Seq<char>)
    requires
        t.paired(),
    ensures
        other != uuid ==> t.cleaned(uuid).threads.contains_key(other) == t.threads.contains_key(
            other,
        ),
        other != uuid && t.threads.contains_key(other) ==> t.cleaned(uuid).threads[other]
            == t.threads[other],
        t.chains.contains_key(other) && t.threads.contains_key(uuid) && t.threads[uuid] != other
            ==> t.cleaned(uuid).chains.contains_key(other) && t.cleaned(uuid).chains[other]
            == t.chains[other],
        t.cleaned(uuid).root == t.root,
        t.cleaned(uuid).root_chain == t.root_chain,
{
}

/// The first root stays: it stands for the organism's chain under the system, in both
/// directions, and setting a root again changes nothing.
pub proof fn law_root_is_set_once(
    t: ThreadsView,
    organism: Seq<char>,
    uuid: Seq<char>,
    other: Seq<char>,
    again: Seq<char>,
)
    requires
        t.root is None,
    ensures
        t.rooted(organism, uuid).root == Some(uuid),
        t.rooted(organism, uuid).root_chain == "system."@ + organism,
        t.rooted(organism, uuid).threads[uuid] == "system."@ + organism,
        t.rooted(organism, uuid).chains["system."@ + organism] == uuid,
        t.rooted(organism, uuid).rooted(other, again) == t.rooted(organism, uuid),
{
}

/// A thread from outside is a call from its initiator to its target, below the root if
/// there is one.
pub proof fn law_outside_chain_is_a_call(
    t: ThreadsView,
    initiator: Seq<char>,
    target: Seq<char>,
)
    requires
        !initiator.contains('.'),
        !target.contains('.'),
    ensures
        ({
            let chain = t.outside_chain(initiator, target);
            &&& text::after_last(chain, '.') == target
            &&& text::after_last(text::before_last(chain, '.'), '.') == initiator
            &&& t.root is Some ==> text::before_last(text::before_last(chain, '.'), '.')
                == t.root_chain
        }),
{
    reveal_strlit(".");
    assert("."@ =~= seq!['.']);
    text::law_last_part(t.root_chain + seq!['.'] + initiator, target, '.');
    text::law_last_part(t.root_chain, initiator, '.');
    text::law_last_part(initiator, target, '.');
    text::law_only_part(initiator, '.');
}

/// Calls one behind the other are returned from one by one, the last first.
pub proof fn law_nested_calls_unwind(
    t: ThreadsView,
    current: Seq<char>,
    first: Seq<char>,
    one: Seq<char>,
    second: Seq<char>,
    two: Seq<char>,
)
    requires
        t.paired(),
        t.threads.contains_key(current),
        t.threads[current].len() > 0,
        !first.contains('.'),
        !second.contains('.'),
        t.chains.contains_key(t.extended(current, first)) || !t.threads.contains_key(one),
        ({
            let called = t.named(t.extended(current, first), one);
            let id = t.id_for(t.extended(current, first), one);
            called.chains.contains_key(called.extended(id, second))
                || !called.threads.contains_key(two)
        }),
    ensures
        ({
            let called = t.named(t.extended(current, first), one);
            let id = t.id_for(t.extended(current, first), one);
            let nested = called.named(called.extended(id, second), two);
            let inner = called.id_for(called.extended(id, second), two);
            &&& nested.caller(inner) matches Some((caller, _)) && caller == first
            &&& called.caller(id) matches Some((caller, chain)) && caller == text::after_last(
                t.threads[current],
                '.',
            ) && chain == t.threads[current]
        }),
{
    reveal_strlit(".");
    assert("."@ =~= seq!['.']);
    let chain = t.extended(current, first);
    let called = t.named(chain, one);
    let id = t.id_for(chain, one);
    law_named_is_paired(t, chain, one);
    law_prune_undoes_extend(t, current, first, one);
    law_prune_undoes_extend(called, id, second, two);
    text::law_last_part(t.threads[current], first, '.');
}

/// A call from a thread that is not known starts a chain with the callee; one from a known
/// thread puts the callee behind its chain.
pub proof fn law_extended_chain(t: ThreadsView, uuid: Seq<char>, hop: Seq<char>)
    requires
        !hop.contains('.'),
    ensures
        !t.threads.contains_key(uuid) ==> t.extended(uuid, hop) == hop,
        t.threads.contains_key(uuid) && t.threads[uuid].len() > 0 ==> text::after_last(
            t.extended(uuid, hop),
            '.',
        ) == hop && text::before_last(t.extended(uuid, hop), '.') == t.threads[uuid],
{
    reveal_strlit(".");
    assert("."@ =~= seq!['.']);
    if t.threads.contains_key(uuid) {
        text::law_last_part(t.threads[uuid], hop, '.');
    }
}

} // verus!
