//! The relay's authoritative state and its aggregation rules.
//!
//! A single task owns two structures: the map of peers that currently report
//! themselves as hosting (`ServerState`, keyed by connection id) and the
//! registry of connected peers (`ClientRegistry`, which also assigns the
//! ids). Every peer message is folded into the state by `update_state`,
//! which returns the one visible effect: stay silent, answer the sender, or
//! broadcast a fresh aggregate to everyone. The surrounding process performs
//! the sends it is told to.

use crate::address::{HostAddress, Ip};
use crate::assoc::AssocMap;
use crate::messages::{ClientMessage, ServerMessage};
use vstd::prelude::*;

verus! {

broadcast use vstd::set::group_set_axioms;

/// Which peers host, and on what address: connection id to address.
pub type HostMap = AssocMap<HostAddress>;

/// Internal server state: the hosting peers.
pub struct ServerState {
    lan_games: HostMap,
}

/// What the relay does in reaction to one peer message.
#[derive(Clone, Copy, PartialEq, Eq, Structural, Debug)]
pub enum ServerResponse {
    /// Nothing worth telling anyone.
    Silent,
    /// Send the message to the one named connection.
    Unicast(u64, ServerMessage),
    /// Send the message to every connected peer.
    Broadcast(ServerMessage),
}

/// A host count collapsed to the three states the protocol distinguishes:
/// none, one, many.
pub open spec fn clamp2(n: int) -> int {
    if n >= 2 {
        2
    } else {
        n
    }
}

/// The aggregate derived from the host map: nobody hosts, exactly one peer
/// hosts at its address, or several do.
pub open spec fn aggregate_of(m: Map<u64, HostAddress>) -> ServerMessage {
    if m.dom().len() == 0 {
        ServerMessage::NoHost
    } else if m.dom().len() == 1 {
        ServerMessage::OneHost(m[m.dom().choose()])
    } else {
        ServerMessage::ManyHosts
    }
}

/// The reaction to a peer starting to host at `addr`: broadcast the new
/// aggregate exactly when the clamped host count changes, or when the count
/// stays at one but the single address changes; otherwise stay silent.
pub open spec fn spec_started_response(
    pre: Map<u64, HostAddress>,
    id: u64,
    addr: HostAddress,
) -> ServerResponse {
    let post = pre.insert(id, addr);
    if clamp2(pre.dom().len() as int) != clamp2(post.dom().len() as int) || (pre.dom().len() == 1
        && pre.dom().contains(id) && pre[id] != addr) {
        ServerResponse::Broadcast(aggregate_of(post))
    } else {
        ServerResponse::Silent
    }
}

/// The reaction to a peer stopping (or disconnecting): broadcast the new
/// aggregate exactly when the clamped host count changes.
pub open spec fn spec_stopped_response(pre: Map<u64, HostAddress>, id: u64) -> ServerResponse {
    let post = pre.remove(id);
    if clamp2(pre.dom().len() as int) != clamp2(post.dom().len() as int) {
        ServerResponse::Broadcast(aggregate_of(post))
    } else {
        ServerResponse::Silent
    }
}

/// How the host map changes under one peer message.
pub open spec fn spec_update_map(
    pre: Map<u64, HostAddress>,
    clients: Map<u64, Ip>,
    id: u64,
    message: ClientMessage,
) -> Map<u64, HostAddress> {
    match message {
        ClientMessage::Joined => pre,
        ClientMessage::StoppedHosting => pre.remove(id),
        ClientMessage::StartedHosting(port) => pre.insert(
            id,
            HostAddress { ip: clients[id], port },
        ),
    }
}

/// The relay's reaction to one peer message.
pub open spec fn spec_update_response(
    pre: Map<u64, HostAddress>,
    clients: Map<u64, Ip>,
    id: u64,
    message: ClientMessage,
) -> ServerResponse {
    match message {
        ClientMessage::Joined => ServerResponse::Unicast(id, aggregate_of(pre)),
        ClientMessage::StoppedHosting => spec_stopped_response(pre, id),
        ClientMessage::StartedHosting(port) => spec_started_response(
            pre,
            id,
            HostAddress { ip: clients[id], port },
        ),
    }
}

impl View for ServerState {
    type V = Map<u64, HostAddress>;

    closed spec fn view(&self) -> Map<u64, HostAddress> {
        self.lan_games@
    }
}

impl ServerState {
    pub closed spec fn inv(&self) -> bool {
        self.lan_games.inv()
    }

    pub proof fn lemma_finite(&self)
        requires
            self.inv(),
        ensures
            self@.dom().finite(),
    {
        self.lan_games.lemma_entry_seq();
    }

    /// A fresh state: nobody hosts.
    pub fn new() -> (r: ServerState)
        ensures
            r.inv(),
            r@ == Map::<u64, HostAddress>::empty(),
    {
        ServerState { lan_games: AssocMap::new() }
    }

    /// How many peers currently report themselves as hosting.
    pub fn host_count(&self) -> (n: usize)
        requires
            self.inv(),
        ensures
            n == self@.dom().len(),
    {
        self.lan_games.len()
    }
}

fn clamp_len(n: usize) -> (r: usize)
    ensures
        r as int == clamp2(n as int),
{
    if n >= 2 {
        2
    } else {
        n
    }
}

/// The aggregate as a wire message, recomputed from the current host map.
pub fn state_into_message(state: &ServerState) -> (r: ServerMessage)
    requires
        state.inv(),
    ensures
        r == aggregate_of(state@),
{
    let n = state.host_count();
    if n == 0 {
        ServerMessage::NoHost
    } else if n == 1 {
        let e = state.lan_games.first();
        proof {
            state.lemma_finite();
            Set::<u64>::lemma_is_singleton(state@.dom());
            assert(state@.dom().contains(state@.dom().choose()));
            assert(state@.dom().choose() == e.0);
        }
        ServerMessage::OneHost(e.1)
    } else {
        ServerMessage::ManyHosts
    }
}

/// A peer joined: answer it, and it alone, with the current aggregate. The
/// host map is not touched and nothing is broadcast.
pub fn joined(state: &ServerState, id: u64) -> (r: ServerResponse)
    requires
        state.inv(),
    ensures
        r == ServerResponse::Unicast(id, aggregate_of(state@)),
{
    ServerResponse::Unicast(id, state_into_message(state))
}

/// A peer stopped hosting (or was disconnected): drop its entry and
/// broadcast exactly when the clamped host count changed.
pub fn stopped_hosting(state: &mut ServerState, id: u64) -> (r: ServerResponse)
    requires
        old(state).inv(),
    ensures
        final(state).inv(),
        final(state)@ == old(state)@.remove(id),
        r == spec_stopped_response(old(state)@, id),
{
    let prev_len = state.host_count();
    let _ = state.lan_games.remove(id);
    let post_len = state.host_count();
    if clamp_len(prev_len) != clamp_len(post_len) {
        ServerResponse::Broadcast(state_into_message(state))
    } else {
        ServerResponse::Silent
    }
}

/// A peer started hosting at `addr`: record it and broadcast exactly when
/// the clamped host count changed, or when it stayed at one but the single
/// address changed.
pub fn started_hosting(state: &mut ServerState, id: u64, addr: HostAddress) -> (r: ServerResponse)
    requires
        old(state).inv(),
    ensures
        final(state).inv(),
        final(state)@ == old(state)@.insert(id, addr),
        r == spec_started_response(old(state)@, id, addr),
{
    let prev_len = state.host_count();
    let prev = state.lan_games.insert(id, addr);
    let post_len = state.host_count();
    let replaced_changed = match prev {
        Some(p) => p != addr,
        None => false,
    };
    if clamp_len(prev_len) != clamp_len(post_len) || (prev_len == 1 && replaced_changed) {
        ServerResponse::Broadcast(state_into_message(state))
    } else {
        ServerResponse::Silent
    }
}

/// Folds one peer message into the state and says what to send, to whom.
pub fn update_state(
    state: &mut ServerState,
    clients: &ClientRegistry,
    id: u64,
    message: ClientMessage,
) -> (r: ServerResponse)
    requires
        old(state).inv(),
        clients.inv(),
        message matches ClientMessage::StartedHosting(_) ==> clients@.dom().contains(id),
    ensures
        final(state).inv(),
        final(state)@ == spec_update_map(old(state)@, clients@, id, message),
        r == spec_update_response(old(state)@, clients@, id, message),
{
    match message {
        ClientMessage::Joined => joined(state, id),
        ClientMessage::StoppedHosting => stopped_hosting(state, id),
        ClientMessage::StartedHosting(port) => {
            let ip = clients.ip_of(id);
            started_hosting(state, id, HostAddress { ip, port })
        },
    }
}

/// A peer's connection went away: forget the peer, treat it as an implicit
/// stop notice, and broadcast exactly when the clamped host count changed.
pub fn disconnect(
    state: &mut ServerState,
    clients: &mut ClientRegistry,
    id: u64,
) -> (r: ServerResponse)
    requires
        old(state).inv(),
        old(clients).inv(),
    ensures
        final(state).inv(),
        final(clients).inv(),
        final(clients)@ == old(clients)@.remove(id),
        final(state)@ == old(state)@.remove(id),
        r == spec_stopped_response(old(state)@, id),
{
    clients.deregister(id);
    stopped_hosting(state, id)
}

/// The connected peers: connection id to IP, with ids handed out once and
/// never reused.
pub struct ClientRegistry {
    clients: AssocMap<Ip>,
    next_id: u64,
}

impl View for ClientRegistry {
    type V = Map<u64, Ip>;

    closed spec fn view(&self) -> Map<u64, Ip> {
        self.clients@
    }
}

impl ClientRegistry {
    pub closed spec fn inv(&self) -> bool {
        &&& self.clients.inv()
        &&& forall|k: u64| self.clients@.dom().contains(k) ==> k <= self.next_id
    }

    /// The last id handed out; ids count up from one.
    pub closed spec fn spec_next_id(&self) -> u64 {
        self.next_id
    }

    pub fn new() -> (r: ClientRegistry)
        ensures
            r.inv(),
            r@ == Map::<u64, Ip>::empty(),
            r.spec_next_id() == 0,
    {
        ClientRegistry { clients: AssocMap::new(), next_id: 0 }
    }

    /// Whether another id can still be assigned.
    pub fn can_assign_id(&self) -> (r: bool)
        ensures
            r == (self.spec_next_id() < u64::MAX),
    {
        self.next_id < u64::MAX
    }

    /// A new connection was accepted: record its IP under a fresh id. Ids
    /// only count up, so an id is never reused within a relay's lifetime,
    /// not even after its peer deregisters.
    pub fn register(&mut self, ip: Ip) -> (id: u64)
        requires
            old(self).inv(),
            old(self).spec_next_id() < u64::MAX,
        ensures
            final(self).inv(),
            !old(self)@.dom().contains(id),
            forall|k: u64| old(self)@.dom().contains(k) ==> k < id,
            final(self)@ == old(self)@.insert(id, ip),
            id == old(self).spec_next_id() + 1,
            final(self).spec_next_id() == id,
    {
        let id = self.next_id + 1;
        self.next_id = id;
        let _ = self.clients.insert(id, ip);
        id
    }

    /// Forget a connection.
    pub fn deregister(&mut self, id: u64)
        requires
            old(self).inv(),
        ensures
            final(self).inv(),
            final(self)@ == old(self)@.remove(id),
            final(self).spec_next_id() == old(self).spec_next_id(),
    {
        let _ = self.clients.remove(id);
    }

    /// The IP recorded for a connection.
    pub fn ip_of(&self, id: u64) -> (r: Ip)
        requires
            self.inv(),
            self@.dom().contains(id),
        ensures
            r == self@[id],
    {
        match self.clients.get(id) {
            Some(ip) => ip,
            None => {
                proof {
                    assert(false);
                }
                Ip::V4(0)
            },
        }
    }

    pub fn contains(&self, id: u64) -> (r: bool)
        ensures
            r == self@.dom().contains(id),
    {
        self.clients.contains(id)
    }

    /// How many peers are connected.
    pub fn client_count(&self) -> (n: usize)
        requires
            self.inv(),
        ensures
            n == self@.dom().len(),
    {
        self.clients.len()
    }

    /// The connected ids, each exactly once: the targets of a broadcast.
    pub fn client_ids(&self) -> (r: Vec<u64>)
        requires
            self.inv(),
        ensures
            r@.len() == self@.dom().len(),
            forall|i: int| 0 <= i < r@.len() ==> self@.dom().contains(#[trigger] r@[i]),
            forall|k: u64|
                self@.dom().contains(k) ==> exists|i: int| 0 <= i < r@.len() && r@[i] == k,
            forall|i: int, j: int| 0 <= i < j < r@.len() ==> r@[i] != r@[j],
    {
        self.clients.keys()
    }
}

/// Law: applied to any reachable host map, the aggregate is `NoHost` exactly
/// on the empty map, `OneHost(a)` exactly when one single peer hosts at `a`,
/// and `ManyHosts` exactly when two or more peers host.
pub proof fn lemma_aggregate_characterization(m: Map<u64, HostAddress>, a: HostAddress)
    requires
        m.dom().finite(),
    ensures
        aggregate_of(m) == ServerMessage::NoHost <==> m == Map::<u64, HostAddress>::empty(),
        aggregate_of(m) == ServerMessage::OneHost(a) <==> exists|k: u64|
            m.dom() == Set::<u64>::empty().insert(k) && m[k] == a,
        aggregate_of(m) == ServerMessage::ManyHosts <==> m.dom().len() >= 2,
{
    if m.dom().len() == 0 {
        m.dom().lemma_len0_is_empty();
        assert(m =~= Map::<u64, HostAddress>::empty());
    }
    if m == Map::<u64, HostAddress>::empty() {
        assert(m.dom() =~= Set::<u64>::empty());
    }
    if m.dom().len() == 1 {
        let c = m.dom().choose();
        assert(m.dom().contains(c));
        Set::<u64>::lemma_is_singleton(m.dom());
        assert(m.dom() =~= Set::<u64>::empty().insert(c));
        assert(aggregate_of(m) == ServerMessage::OneHost(m[c]));
    }
    if exists|k: u64| m.dom() == Set::<u64>::empty().insert(k) && m[k] == a {
        let k = choose|k: u64| m.dom() == Set::<u64>::empty().insert(k) && m[k] == a;
        assert(m.dom().contains(k));
        assert(m.dom().len() == 1);
        Set::<u64>::lemma_is_singleton(m.dom());
        assert(m.dom().choose() == k);
    }
}

/// Law: a repeated hosting report that changes nothing (same peer, same
/// address already recorded) never triggers a broadcast.
pub proof fn lemma_repeated_start_silent(pre: Map<u64, HostAddress>, id: u64, addr: HostAddress)
    requires
        pre.dom().contains(id),
        pre[id] == addr,
    ensures
        spec_started_response(pre, id, addr) == ServerResponse::Silent,
{
    assert(pre.insert(id, addr) =~= pre);
}

} // verus!
