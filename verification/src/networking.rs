//! The server's side of the connection: which peer address stands for which
//! client entity, what each socket event does to that table, and when
//! keep-alive packets are due.
use vstd::prelude::*;
use std::time::Instant;
use crate::save::{instant_now, nanos_since};

verus! {

/// A peer's socket address as plain values: whether it is an IPv6 address,
/// the address bits (an IPv4 address in the low 32 bits), the port, and the
/// IPv6 flow information and scope id (both zero for IPv4).
pub type PeerAddr = (bool, u128, u16, u32, u32);

/// The connected clients: peer address and entity id, one to one, held in a
/// `bimap::BiHashMap`.
#[verifier::external_body]
pub struct ClientTable {
    inner: bimap::BiHashMap<PeerAddr, u64>,
}

/// The address-to-entity pairs that a client table holds.
pub uninterp spec fn client_table_contents(t: ClientTable) -> Map<PeerAddr, u64>;

pub open spec fn no_clients() -> Map<PeerAddr, u64> {
    Map::empty()
}

/// Whether some address is paired with `entity`.
pub open spec fn holds_entity(m: Map<PeerAddr, u64>, entity: u64) -> bool {
    exists|a: PeerAddr| m.dom().contains(a) && m[a] == entity
}

impl ClientTable {
    /// `BiHashMap::new`: an empty bimap.
    #[verifier::external_body]
    fn new() -> (t: ClientTable)
        ensures
            client_table_contents(t) == no_clients(),
    {
        ClientTable { inner: bimap::BiHashMap::new() }
    }

    /// `BiHashMap::get_by_left`, copied out: the entity paired with `addr`.
    #[verifier::external_body]
    fn get_by_left(&self, addr: &PeerAddr) -> (r: Option<u64>)
        ensures
            r is Some <==> client_table_contents(*self).dom().contains(*addr),
            r matches Some(e) ==> e == client_table_contents(*self)[*addr],
    {
        self.inner.get_by_left(addr).copied()
    }

    /// `BiHashMap::get_by_right`, copied out: the address paired with `entity`.
    #[verifier::external_body]
    fn get_by_right(&self, entity: &u64) -> (r: Option<PeerAddr>)
        ensures
            r is None <==> !holds_entity(client_table_contents(*self), *entity),
            r matches Some(a) ==> client_table_contents(*self).dom().contains(a)
                && client_table_contents(*self)[a] == *entity,
    {
        self.inner.get_by_right(entity).copied()
    }

    /// `BiHashMap::insert_no_overwrite`: pairs `addr` with `entity` when
    /// neither is paired yet; otherwise hands both back and changes nothing.
    #[verifier::external_body]
    fn insert_no_overwrite(&mut self, addr: PeerAddr, entity: u64) -> (r: Result<(), (PeerAddr, u64)>)
        ensures
            r is Ok <==> (!client_table_contents(*old(self)).dom().contains(addr)
                && !holds_entity(client_table_contents(*old(self)), entity)),
            r is Ok ==> client_table_contents(*final(self)) == client_table_contents(*old(self)).insert(addr, entity),
            r matches Err(p) ==> p == (addr, entity)
                && client_table_contents(*final(self)) == client_table_contents(*old(self)),
    {
        self.inner.insert_no_overwrite(addr, entity)
    }

    /// `BiHashMap::remove_by_left`: takes out the pair of `addr`.
    #[verifier::external_body]
    fn remove_by_left(&mut self, addr: &PeerAddr) -> (r: Option<(PeerAddr, u64)>)
        ensures
            client_table_contents(*final(self)) == client_table_contents(*old(self)).remove(*addr),
            r is Some <==> client_table_contents(*old(self)).dom().contains(*addr),
            r matches Some(p) ==> p == (*addr, client_table_contents(*old(self))[*addr]),
    {
        self.inner.remove_by_left(addr)
    }

    /// `BiHashMap::iter`, copied out: every pair once, in the bimap's
    /// iteration order, which depends on the hasher's seed.
    #[verifier::external_body]
    fn pairs(&self) -> (r: Vec<(PeerAddr, u64)>)
        ensures
            r@.no_duplicates(),
            forall|a: PeerAddr, e: u64| r@.contains((a, e)) <==>
                (client_table_contents(*self).dom().contains(a) && client_table_contents(*self)[a] == e),
    {
        self.inner.iter().map(|(a, e)| (*a, *e)).collect()
    }
}

/// No two addresses are paired with the same entity.
pub open spec fn one_to_one(m: Map<PeerAddr, u64>) -> bool {
    forall|a: PeerAddr, b: PeerAddr|
        #![trigger m[a], m[b]]
        m.dom().contains(a) && m.dom().contains(b) && m[a] == m[b] ==> a == b
}

/// Whether `addr` and `entity` may be paired: neither is paired yet.
pub open spec fn admissible(m: Map<PeerAddr, u64>, addr: PeerAddr, entity: u64) -> bool {
    !m.dom().contains(addr) && !holds_entity(m, entity)
}

/// Where an incoming packet goes.
#[derive(Clone, Copy, Debug, PartialEq, Eq, Structural)]
pub enum PacketRoute {
    /// The sender is a connected client: the packet is handed to its entity.
    Deliver(u64),
    /// The sender is new and asks to connect: a client entity is to be made.
    Connect,
    /// The sender is new and did not ask to connect: the packet is dropped.
    Drop,
}

/// Packets of connected clients are delivered to their entity; a new address
/// must open with a connection request.
pub open spec fn spec_route(m: Map<PeerAddr, u64>, from: PeerAddr, connection_request: bool) -> PacketRoute {
    if m.dom().contains(from) {
        PacketRoute::Deliver(m[from])
    } else if connection_request {
        PacketRoute::Connect
    } else {
        PacketRoute::Drop
    }
}

/// A socket event, with what the server reads of it.
#[derive(Clone, Copy, Debug, PartialEq, Eq)]
pub enum NetEvent {
    /// A packet arrived; `connection_request` tells whether it is one.
    Packet { from: PeerAddr, connection_request: bool },
    /// The socket saw a new connection.
    Connected(PeerAddr),
    /// The socket saw a connection time out.
    TimedOut(PeerAddr),
    /// The socket dropped a connection.
    Disconnected(PeerAddr),
}

/// What the server does about a socket event.
#[derive(Clone, Copy, Debug, PartialEq, Eq)]
pub enum NetStep {
    /// Hand the packet to this client entity.
    Deliver(u64),
    /// Make a client entity for this address, then register it.
    NewClient(PeerAddr),
    /// Nothing to do.
    Ignore,
    /// This client entity left: delete it.
    Remove(u64),
    /// An address that never connected was dropped.
    UnknownDisconnect(PeerAddr),
}

/// The table after an event, and what the server does about it.
pub open spec fn spec_step(m: Map<PeerAddr, u64>, evt: NetEvent) -> (Map<PeerAddr, u64>, NetStep) {
    match evt {
        NetEvent::Packet { from, connection_request } => {
            let step = match spec_route(m, from, connection_request) {
                PacketRoute::Deliver(e) => NetStep::Deliver(e),
                PacketRoute::Connect => NetStep::NewClient(from),
                PacketRoute::Drop => NetStep::Ignore,
            };
            (m, step)
        },
        NetEvent::Connected(_) => (m, NetStep::Ignore),
        NetEvent::TimedOut(_) => (m, NetStep::Ignore),
        NetEvent::Disconnected(a) => {
            if m.dom().contains(a) {
                (m.remove(a), NetStep::Remove(m[a]))
            } else {
                (m, NetStep::UnknownDisconnect(a))
            }
        },
    }
}

/// The server's table of connected clients.
pub struct ClientRegistry {
    table: ClientTable,
}

impl View for ClientRegistry {
    type V = Map<PeerAddr, u64>;

    closed spec fn view(&self) -> Map<PeerAddr, u64> {
        client_table_contents(self.table)
    }
}

impl ClientRegistry {
    /// Each entity stands for one address at most.
    pub open spec fn wf(&self) -> bool {
        one_to_one(self@)
    }

    /// No clients.
    pub fn new() -> (r: ClientRegistry)
        ensures
            r@ == no_clients(),
            r.wf(),
    {
        ClientRegistry { table: ClientTable::new() }
    }

    /// The entity of the client at `addr`, if it is connected.
    pub fn entity_of(&self, addr: &PeerAddr) -> (r: Option<u64>)
        ensures
            r == (if self@.dom().contains(*addr) { Some(self@[*addr]) } else { None::<u64> }),
    {
        self.table.get_by_left(addr)
    }

    /// The address of the client that `entity` stands for, if any.
    pub fn address_of(&self, entity: u64) -> (r: Option<PeerAddr>)
        requires
            self.wf(),
        ensures
            r is None <==> !holds_entity(self@, entity),
            r matches Some(a) ==> self@.dom().contains(a) && self@[a] == entity,
            forall|a: PeerAddr| self@.dom().contains(a) && self@[a] == entity ==> r == Some(a),
    {
        let r = self.table.get_by_right(&entity);
        proof {
            if let Some(b) = r {
                assert forall|a: PeerAddr| self@.dom().contains(a) && self@[a] == entity implies r == Some(a) by {
                    assert(self@[a] == self@[b]);
                }
            }
        }
        r
    }

    /// Where a packet from `from` goes.
    pub fn route_packet(&self, from: &PeerAddr, connection_request: bool) -> (r: PacketRoute)
        ensures
            r == spec_route(self@, *from, connection_request),
    {
        match self.table.get_by_left(from) {
            Some(e) => PacketRoute::Deliver(e),
            None => {
                if connection_request {
                    PacketRoute::Connect
                } else {
                    PacketRoute::Drop
                }
            },
        }
    }

    /// Pairs a newly made client entity with its address; refused, with the
    /// table unchanged, when either is paired already.
    pub fn register(&mut self, addr: PeerAddr, entity: u64) -> (ok: bool)
        requires
            old(self).wf(),
        ensures
            final(self).wf(),
            ok == admissible(old(self)@, addr, entity),
            final(self)@ == (if ok { old(self)@.insert(addr, entity) } else { old(self)@ }),
    {
        let r = self.table.insert_no_overwrite(addr, entity);
        proof {
            if r is Ok {
                lemma_register_keeps_one_to_one(old(self)@, addr, entity);
            }
        }
        match r {
            Ok(()) => true,
            Err(_) => false,
        }
    }

    /// Removes the client at `addr`; the entity it stood for, if any.
    pub fn disconnect(&mut self, addr: &PeerAddr) -> (r: Option<u64>)
        requires
            old(self).wf(),
        ensures
            final(self).wf(),
            final(self)@ == old(self)@.remove(*addr),
            r == (if old(self)@.dom().contains(*addr) { Some(old(self)@[*addr]) } else { None::<u64> }),
    {
        let r = self.table.remove_by_left(addr);
        proof {
            lemma_remove_keeps_one_to_one(old(self)@, *addr);
        }
        match r {
            Some((_, e)) => Some(e),
            None => None,
        }
    }

    /// Applies one socket event to the table and says what the server is to
    /// do about it.
    pub fn handle_event(&mut self, evt: NetEvent) -> (step: NetStep)
        requires
            old(self).wf(),
        ensures
            final(self).wf(),
            (final(self)@, step) == spec_step(old(self)@, evt),
    {
        match evt {
            NetEvent::Packet { from, connection_request } => {
                match self.route_packet(&from, connection_request) {
                    PacketRoute::Deliver(e) => NetStep::Deliver(e),
                    PacketRoute::Connect => NetStep::NewClient(from),
                    PacketRoute::Drop => NetStep::Ignore,
                }
            },
            NetEvent::Connected(_) => NetStep::Ignore,
            NetEvent::TimedOut(_) => NetStep::Ignore,
            NetEvent::Disconnected(a) => {
                match self.disconnect(&a) {
                    Some(e) => NetStep::Remove(e),
                    None => NetStep::UnknownDisconnect(a),
                }
            },
        }
    }

    /// Every connected client, address and entity, each once.
    pub fn clients(&self) -> (r: Vec<(PeerAddr, u64)>)
        ensures
            r@.no_duplicates(),
            forall|a: PeerAddr, e: u64| r@.contains((a, e)) <==> (self@.dom().contains(a) && self@[a] == e),
    {
        self.table.pairs()
    }

    /// The address of every connected client, each once.
    pub fn addresses(&self) -> (r: Vec<PeerAddr>)
        ensures
            r@.no_duplicates(),
            forall|a: PeerAddr| r@.contains(a) <==> self@.dom().contains(a),
    {
        let pairs = self.table.pairs();
        let mut out: Vec<PeerAddr> = Vec::new();
        let mut i: usize = 0;
        while i < pairs.len()
            invariant
                i <= pairs.len(),
                pairs@.no_duplicates(),
                forall|a: PeerAddr, e: u64| pairs@.contains((a, e)) <==> (self@.dom().contains(a) && self@[a] == e),
                out@.len() == i,
                forall|j: int| 0 <= j < i ==> out@[j] == (#[trigger] pairs@[j]).0,
            decreases pairs.len() - i,
        {
            out.push(pairs[i].0);
            i = i + 1;
        }
        proof {
            assert forall|a: PeerAddr| out@.contains(a) <==> self@.dom().contains(a) by {
                if out@.contains(a) {
                    let j = choose|j: int| 0 <= j < out@.len() && out@[j] == a;
                    let p = pairs@[j];
                    assert(pairs@.contains(p));
                    assert(pairs@.contains((p.0, p.1)));
                }
                if self@.dom().contains(a) {
                    assert(pairs@.contains((a, self@[a])));
                    let j = choose|j: int| 0 <= j < pairs@.len() && pairs@[j] == (a, self@[a]);
                    assert(out@[j] == a);
                }
            }
            assert forall|j: int, k: int| 0 <= j < k < out@.len() implies out@[j] != out@[k] by {
                let pj = pairs@[j];
                let pk = pairs@[k];
                assert(pairs@.contains(pj));
                assert(pairs@.contains(pk));
                assert(pairs@.contains((pj.0, pj.1)));
                assert(pairs@.contains((pk.0, pk.1)));
                if pj.0 == pk.0 {
                    assert(pj == pk);
                }
            }
        }
        out
    }
}

/// Pairing an admissible address and entity keeps the table one to one.
pub proof fn lemma_register_keeps_one_to_one(m: Map<PeerAddr, u64>, addr: PeerAddr, entity: u64)
    requires
        one_to_one(m),
        admissible(m, addr, entity),
    ensures
        one_to_one(m.insert(addr, entity)),
{
    let n = m.insert(addr, entity);
    assert forall|a: PeerAddr, b: PeerAddr|
        n.dom().contains(a) && n.dom().contains(b) && n[a] == n[b] implies a == b by {
        if a != addr && b != addr {
            assert(m[a] == m[b]);
        } else if a == addr && b != addr {
            assert(m.dom().contains(b) && m[b] == entity);
        } else if a != addr && b == addr {
            assert(m.dom().contains(a) && m[a] == entity);
        }
    }
}

/// Removing a client keeps the table one to one.
pub proof fn lemma_remove_keeps_one_to_one(m: Map<PeerAddr, u64>, addr: PeerAddr)
    requires
        one_to_one(m),
    ensures
        one_to_one(m.remove(addr)),
{
    let n = m.remove(addr);
    assert forall|a: PeerAddr, b: PeerAddr|
        n.dom().contains(a) && n.dom().contains(b) && n[a] == n[b] implies a == b by {
        assert(m[a] == m[b]);
    }
}

/// A client that was registered has its packets delivered to its entity, and
/// its entity leads back to its address and to no other.
pub proof fn lemma_registered_client_is_delivered(
    m: Map<PeerAddr, u64>,
    addr: PeerAddr,
    entity: u64,
    connection_request: bool,
)
    requires
        one_to_one(m),
        admissible(m, addr, entity),
    ensures
        spec_route(m.insert(addr, entity), addr, connection_request) == PacketRoute::Deliver(entity),
        holds_entity(m.insert(addr, entity), entity),
        forall|a: PeerAddr|
            #![trigger m.insert(addr, entity)[a]]
            m.insert(addr, entity).dom().contains(a) && m.insert(addr, entity)[a] == entity ==> a == addr,
{
    let n = m.insert(addr, entity);
    assert(n.dom().contains(addr));
    assert forall|a: PeerAddr| n.dom().contains(a) && n[a] == entity implies a == addr by {
        if a != addr {
            assert(m.dom().contains(a) && m[a] == entity);
        }
    }
}

/// Once a client disconnected, its address must connect anew: a connection
/// request is answered by a new client entity, any other packet is dropped.
pub proof fn lemma_disconnected_client_must_reconnect(
    m: Map<PeerAddr, u64>,
    addr: PeerAddr,
    connection_request: bool,
)
    ensures
        spec_step(m, NetEvent::Disconnected(addr)).0 == m.remove(addr),
        spec_route(m.remove(addr), addr, connection_request) == (if connection_request {
            PacketRoute::Connect
        } else {
            PacketRoute::Drop
        }),
{
}

/// A client's pending request (connection success, settings request) is kept
/// for the next frame only when the client is still connected and sending it
/// failed.
pub fn keep_unsent(client_connected: bool, send_failed: bool) -> (keep: bool)
    ensures
        keep == (client_connected && send_failed),
{
    client_connected && send_failed
}

/// The block-update buses whose updates go to `client`: every bus but the
/// client's own, by position.
pub fn buses_to_forward(client: u64, bus_owners: &Vec<u64>) -> (r: Vec<usize>)
    ensures
        forall|j: int| 0 <= j < r@.len() ==> (r@[j] as int) < bus_owners@.len() && bus_owners@[r@[j] as int] != client,
        forall|j: int, k: int| 0 <= j < k < r@.len() ==> r@[j] < r@[k],
        forall|i: int| 0 <= i < bus_owners@.len() && bus_owners@[i] != client ==> r@.contains(i as usize),
{
    let mut out: Vec<usize> = Vec::new();
    let mut i: usize = 0;
    while i < bus_owners.len()
        invariant
            i <= bus_owners.len(),
            forall|j: int| 0 <= j < out@.len() ==> (out@[j] as int) < i && bus_owners@[out@[j] as int] != client,
            forall|j: int, k: int| 0 <= j < k < out@.len() ==> out@[j] < out@[k],
            forall|x: int| 0 <= x < i && bus_owners@[x] != client ==> out@.contains(x as usize),
        decreases bus_owners.len() - i,
    {
        let ghost before = out@;
        if bus_owners[i] != client {
            out.push(i);
            proof {
                assert(out@[out@.len() - 1] == i);
                assert forall|x: int| 0 <= x < i && bus_owners@[x] != client implies out@.contains(x as usize) by {
                    let j = choose|j: int| 0 <= j < before.len() && before[j] == x as usize;
                    assert(out@[j] == x as usize);
                }
            }
        }
        i = i + 1;
    }
    out
}

/// Interval, in nanoseconds, after which the server sends keep-alive packets.
pub const KEEP_ALIVE_NANOS: u64 = 5_000_000_000;

/// Whether keep-alive packets are due `elapsed` nanoseconds after the last ones.
pub fn keep_alive_due(elapsed: u64) -> (b: bool)
    ensures
        b == (elapsed > KEEP_ALIVE_NANOS),
{
    elapsed > KEEP_ALIVE_NANOS
}

/// The instant the server last sent keep-alive packets.
#[derive(Debug)]
pub struct LastKeepAlive(pub Instant);

impl LastKeepAlive {
    /// Whether keep-alive packets are due: the answer of `keep_alive_due` for
    /// the time the clock reports since the last ones.
    pub fn is_due(&self) -> bool {
        let elapsed = nanos_since(&self.0);
        keep_alive_due(elapsed)
    }

    /// Records that keep-alive packets were sent now.
    pub fn reset(&mut self) {
        self.0 = instant_now();
    }
}

impl Default for LastKeepAlive {
    /// Keep-alive packets sent at the present instant.
    fn default() -> (l: LastKeepAlive) {
        LastKeepAlive(instant_now())
    }
}

} // verus!
