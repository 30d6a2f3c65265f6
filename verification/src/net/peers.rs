//! The peers of a node: which of them are connected, which are known, and what
//! waits to be sent to each.

use vstd::prelude::*;

use crate::net::addr::{ResolvedSeedAddress, ResolvedView, SeedAddress, SeedAddressView, SocketAddr};
use crate::net::connect::{connect_view, dial_first, first_dial, ConnectStep, ConnectView};
use crate::net::error::{AcceptConnection, AlreadyConnected, ConnectError, Error};
use crate::net::known::{in_key_order, stored, KnownPeers};
use crate::net::message::{
    MagicBytes, PeerConnectionMessage, PeerRequest, PushTransactionRequest,
};
use crate::net::redial::Redial;
use crate::net::seeds::{
    ensure_seed_peers, lemma_seeds_are_stored, missing, seed_node_addrs, seed_views, seeds,
    socket_addrs, static_addrs, Network,
};
use crate::table::{lemma_take_to_set, KeySet, Table};
use crate::types::AuthorizedTransaction;

verus! {

#[derive(Clone, Copy, Debug, PartialEq, Eq, Structural)]
pub enum PeerConnectionStatus {
    Connecting,
    Connected,
}

/// A peer, as callers see it.
#[derive(Clone, Copy, Debug, PartialEq, Eq, Structural)]
pub struct Peer {
    pub address: SocketAddr,
    pub status: PeerConnectionStatus,
}

/// The connection to a peer.
#[derive(Debug)]
pub struct PeerConnectionHandle {
    pub status: PeerConnectionStatus,
    /// Whether a message of the peer was ever understood.
    pub received_msg_successfully: bool,
    /// Whether the queue of the connection takes messages.
    pub open: bool,
    /// The messages that wait to be sent, the oldest first.
    pub queue: Vec<PeerConnectionMessage>,
}

/// What is known of the connection to a peer.
pub struct ConnectionView {
    pub status: PeerConnectionStatus,
    pub received_msg_successfully: bool,
    pub open: bool,
    pub queue: Seq<PeerConnectionMessage>,
}

impl ConnectionView {
    /// The connection once a message was put into its queue.
    pub open spec fn sent(self, message: PeerConnectionMessage) -> ConnectionView {
        ConnectionView { queue: self.queue.push(message), ..self }
    }
}

impl PeerConnectionHandle {
    pub open spec fn view(self) -> ConnectionView {
        ConnectionView {
            status: self.status,
            received_msg_successfully: self.received_msg_successfully,
            open: self.open,
            queue: self.queue@,
        }
    }

    /// A connection that nothing was received from or sent to yet.
    pub fn new(status: PeerConnectionStatus) -> (handle: Self)
        ensures
            handle@ == (ConnectionView {
                status,
                received_msg_successfully: false,
                open: true,
                queue: Seq::empty(),
            }),
    {
        PeerConnectionHandle {
            status,
            received_msg_successfully: false,
            open: true,
            queue: Vec::new(),
        }
    }

    pub fn connection_status(&self) -> (status: PeerConnectionStatus)
        ensures
            status == self@.status,
    {
        self.status
    }

    pub fn received_msg_successfully(&self) -> (received: bool)
        ensures
            received == self@.received_msg_successfully,
    {
        self.received_msg_successfully
    }

    /// Put a message into the queue. Gives it back if the queue is closed.
    pub fn send(&mut self, message: PeerConnectionMessage) -> (res: Result<
        (),
        PeerConnectionMessage,
    >)
        ensures
            match res {
                Ok(()) => old(self)@.open && final(self)@ == old(self)@.sent(message),
                Err(unsent) => !old(self)@.open && unsent == message && final(self)@ == old(self)@,
            },
    {
        if self.open {
            self.queue.push(message);
            Ok(())
        } else {
            Err(message)
        }
    }
}

/// The connections of a node.
pub type Connections = Map<SocketAddr, ConnectionView>;

/// Whether a transaction goes to a peer: the peer is connected and not excluded.
pub open spec fn receives(
    peers: Connections,
    exclude: Set<SocketAddr>,
    addr: SocketAddr,
) -> bool {
    &&& peers.dom().contains(addr)
    &&& !exclude.contains(addr)
    &&& peers[addr].status == PeerConnectionStatus::Connected
}

/// The peers that a transaction goes to.
pub open spec fn receivers(peers: Connections, exclude: Set<SocketAddr>) -> Set<SocketAddr> {
    peers.dom().filter(|addr: SocketAddr| receives(peers, exclude, addr))
}

/// The connections once a message was put into the queues of some of them.
pub open spec fn sent_to(
    peers: Connections,
    addrs: Set<SocketAddr>,
    message: PeerConnectionMessage,
) -> Connections {
    Map::new(
        |addr: SocketAddr| peers.dom().contains(addr),
        |addr: SocketAddr|
            if addrs.contains(addr) {
                peers[addr].sent(message)
            } else {
                peers[addr]
            },
    )
}

/// The message that pushes a transaction to a peer.
pub open spec fn push_message(tx: AuthorizedTransaction) -> PeerConnectionMessage {
    PeerConnectionMessage::Request(
        PeerRequest::PushTransaction(PushTransactionRequest { transaction: tx }),
    )
}

/// An incoming connection.
#[derive(Debug)]
pub enum Incoming {
    /// The endpoint is closed, and no connection will come any more.
    EndpointClosed,
    /// The handshake failed, with its message.
    HandshakeFailed { message: String, remote_address: SocketAddr },
    /// The handshake is done. `closed` says whether the connection is gone
    /// again.
    Connected { addr: SocketAddr, closed: bool },
}

/// What to do with an incoming connection.
#[derive(Clone, Copy, Debug, PartialEq, Eq, Structural)]
pub enum Accept {
    /// Close the connection with [`DUPLICATE_CODE`] and [`DUPLICATE_REASON`]:
    /// the peer is connected already.
    Refuse { addr: SocketAddr },
    /// Drop the connection.
    Ignore,
    /// Keep the address among the known peers, and serve the connection.
    Admit { addr: SocketAddr },
}

/// The code that a duplicate connection is closed with.
pub const DUPLICATE_CODE: u32 = 1;

/// The reason that a duplicate connection is closed with.
pub const DUPLICATE_REASON: &'static str = "already connected";

/// What a node does when it starts.
#[derive(Debug)]
pub struct Startup {
    /// The addresses to write to the database of known peers.
    pub store: Vec<SocketAddr>,
    /// Whether to write the version of the node to the database.
    pub store_version: bool,
    /// The known peers, each of which is dialed.
    pub dial: Vec<SocketAddr>,
    /// The seeds whose host names are resolved and dialed.
    pub seed_names: Vec<SeedAddress>,
}

/// The peers of a node.
#[derive(Debug)]
pub struct Net {
    pub magic_bytes: MagicBytes,
    pub active_peers: Table<SocketAddr, PeerConnectionHandle>,
    /// The addresses that survive a restart.
    pub known_peers: KnownPeers,
}

/// Those seeds that are named by a host name.
pub open spec fn is_name(seed: SeedAddressView) -> bool {
    seed.socket_addr() is None
}

impl Net {
    /// The number of databases that the peers of a node take.
    pub const NUM_DBS: u32 = 2;

    /// The connections by address.
    pub open spec fn peers(self) -> Connections {
        self.active_peers@.map_values(|handle: PeerConnectionHandle| handle@)
    }

    /// The addresses that survive a restart.
    pub open spec fn known(self) -> Set<SocketAddr> {
        self.known_peers@
    }

    /// Start with the peers that the database holds. `has_version` says whether
    /// it holds a version. `network_magic` opens the messages of the network,
    /// unless it is overridden.
    pub fn new(
        known_peers: KnownPeers,
        has_version: bool,
        magic_bytes_override: Option<MagicBytes>,
        network_magic: MagicBytes,
        network: Network,
        add_peers: &Vec<SeedAddress>,
    ) -> (started: (Net, Startup))
        ensures
            started.0.magic_bytes == match magic_bytes_override {
                Some(magic_bytes) => magic_bytes,
                None => network_magic,
            },
            started.0.peers() == Connections::empty(),
            started.0.known() == known_peers@ + socket_addrs(seeds(network)).to_set()
                + socket_addrs(seed_views(add_peers@)).to_set(),
            started.1.store@ == missing(socket_addrs(seeds(network)), known_peers@) + socket_addrs(
                seed_views(add_peers@),
            ),
            started.1.store_version == !has_version,
            in_key_order(started.1.dial@, started.0.known()),
            seed_views(started.1.seed_names@) == distinct_names(
                seeds(network) + seed_views(add_peers@),
            ),
    {
        let mut known_peers = known_peers;
        let mut store = ensure_seed_peers(&mut known_peers, network);
        let ghost with_seeds = known_peers@;
        let mut add_addrs = static_addrs(add_peers);
        let mut i: usize = 0;
        while i < add_addrs.len()
            invariant
                i <= add_addrs@.len(),
                add_addrs@ == socket_addrs(seed_views(add_peers@)),
                known_peers@ == with_seeds + add_addrs@.take(i as int).to_set(),
            decreases add_addrs@.len() - i,
        {
            proof {
                lemma_take_to_set(add_addrs@, i as int);
                lemma_seeds_are_stored(seed_views(add_peers@), i as int);
            }
            known_peers.insert(add_addrs[i]);
            assert(known_peers@ =~= with_seeds + add_addrs@.take(i + 1).to_set());
            i += 1;
        }
        assert(add_addrs@.take(add_addrs@.len() as int) =~= add_addrs@);
        store.append(&mut add_addrs);
        let magic_bytes = match magic_bytes_override {
            Some(magic_bytes) => magic_bytes,
            None => network_magic,
        };
        let net = Net { magic_bytes, active_peers: Table::new(), known_peers };
        assert(net.peers() =~= Connections::empty());
        let dial = net.known_peer_addrs();
        let seed_names = seed_names(network, add_peers);
        (net, Startup { store, store_version: !has_version, dial, seed_names })
    }

    /// Take note of what came of dialing a known peer at the start. An address
    /// that can never be dialed is no longer known: `Ok(true)` says that it is
    /// to be deleted from the database. Any other failure ends the start.
    pub fn startup_dialed(&mut self, peer_addr: SocketAddr, res: Result<(), Error>) -> (forget:
        Result<bool, Error>)
        ensures
            final(self).peers() == old(self).peers(),
            final(self).magic_bytes == old(self).magic_bytes,
            match res {
                Ok(()) => forget == Ok::<bool, Error>(false) && final(self).known() == old(
                    self,
                ).known(),
                Err(Error::Connect(ConnectError::InvalidRemoteAddress(_))) => forget == Ok::<
                    bool,
                    Error,
                >(true) && final(self).known() == old(self).known().remove(stored(peer_addr)),
                Err(err) => forget == Err::<bool, Error>(err) && final(self).known() == old(
                    self,
                ).known(),
            },
    {
        match res {
            Ok(()) => Ok(false),
            Err(Error::Connect(ConnectError::InvalidRemoteAddress(_))) => {
                self.known_peers.remove(&peer_addr);
                Ok(true)
            },
            Err(err) => Err(err),
        }
    }

    /// Add a connection, unless there is one to the same address.
    pub fn add_active_peer(
        &mut self,
        addr: SocketAddr,
        peer_connection_handle: PeerConnectionHandle,
    ) -> (res: Result<(), AlreadyConnected>)
        ensures
            match res {
                Ok(()) => {
                    &&& !old(self).peers().dom().contains(addr)
                    &&& final(self).peers() == old(self).peers().insert(
                        addr,
                        peer_connection_handle@,
                    )
                },
                Err(err) => {
                    &&& old(self).peers().dom().contains(addr)
                    &&& err == AlreadyConnected(addr)
                    &&& final(self).peers() == old(self).peers()
                },
            },
            final(self).known() == old(self).known(),
            final(self).magic_bytes == old(self).magic_bytes,
    {
        if self.active_peers.contains_key(&addr) {
            return Err(AlreadyConnected(addr));
        }
        self.active_peers.insert(addr, peer_connection_handle);
        assert(self.peers() =~= old(self).peers().insert(addr, peer_connection_handle@));
        Ok(())
    }

    /// Forget the connection to an address, if there is one.
    pub fn remove_active_peer(&mut self, addr: SocketAddr)
        ensures
            final(self).peers() == old(self).peers().remove(addr),
            final(self).known() == old(self).known(),
            final(self).magic_bytes == old(self).magic_bytes,
    {
        self.active_peers.remove(&addr);
        assert(self.peers() =~= old(self).peers().remove(addr));
    }

    /// Apply a function to the connection to an address, if there is one.
    pub fn try_with_active_peer_connection<F, T>(&self, addr: SocketAddr, f: F) -> (res: Option<
        T,
    >) where F: FnOnce(&PeerConnectionHandle) -> T
        requires
            self.active_peers@.dom().contains(addr) ==> f.requires((&self.active_peers@[addr],)),
        ensures
            match res {
                Some(value) => self.active_peers@.dom().contains(addr) && f.ensures(
                    (&self.active_peers@[addr],),
                    value,
                ),
                None => !self.active_peers@.dom().contains(addr),
            },
    {
        match self.active_peers.get(&addr) {
            Some(handle) => Some(f(handle)),
            None => None,
        }
    }

    /// The connected peers, each once.
    pub fn get_active_peers(&self) -> (peers: Vec<Peer>)
        ensures
            peers@.no_duplicates(),
            forall|peer: Peer|
                #[trigger] peers@.contains(peer) <==> self.peers().dom().contains(peer.address)
                    && self.peers()[peer.address].status == peer.status,
            peers@.len() == self.peers().dom().len(),
    {
        let len = self.active_peers.len();
        let ghost entries = self.active_peers.entries();
        let mut peers: Vec<Peer> = Vec::new();
        let mut i: usize = 0;
        while i < len
            invariant
                i <= len,
                len == entries.len(),
                entries == self.active_peers.entries(),
                peers@.len() == i,
                forall|j: int|
                    0 <= j < i ==> #[trigger] peers@[j] == (Peer {
                        address: entries[j].0,
                        status: entries[j].1.status,
                    }),
            decreases len - i,
        {
            let (addr, handle) = self.active_peers.at(i);
            peers.push(Peer { address: *addr, status: handle.connection_status() });
            i += 1;
        }
        proof {
            let keys = crate::table::keys_of(entries);
            assert(self.peers().dom() =~= self.active_peers@.dom());
            assert forall|a: int, b: int| 0 <= a < len && 0 <= b < len && a != b implies peers@[a]
                != peers@[b] by {
                assert(keys[a] == entries[a].0 && keys[b] == entries[b].0);
            }
            assert forall|peer: Peer| #[trigger] peers@.contains(peer) <==> self.peers().dom().contains(
                peer.address,
            ) && self.peers()[peer.address].status == peer.status by {
                if peers@.contains(peer) {
                    let j = peers@.index_of(peer);
                    assert(self.active_peers@.contains_pair(entries[j].0, entries[j].1));
                }
                if self.peers().dom().contains(peer.address) && self.peers()[peer.address].status
                    == peer.status {
                    assert(keys.contains(peer.address));
                    let j = keys.index_of(peer.address);
                    assert(entries[j].0 == peer.address);
                    assert(peers@[j] == peer);
                }
            }
        }
        peers
    }

    /// Start to connect to a peer, unless one of its addresses is connected.
    pub fn connect_peer(&self, resolved_addr: ResolvedSeedAddress) -> (step: Result<
        ConnectStep,
        Error,
    >)
        ensures
            connect_view(step) == self.first_step(resolved_addr@),
            resolved_addr@.valid(),
    {
        let ips = resolved_addr.ip_addrs();
        let port = resolved_addr.port();
        let mut i: usize = 0;
        while i < ips.len()
            invariant
                i <= ips@.len(),
                ips@ == resolved_addr@.ips(),
                port == resolved_addr@.port(),
                forall|j: int|
                    0 <= j < i ==> !self.peers().dom().contains(#[trigger] resolved_addr@.addr(j)),
            decreases ips@.len() - i,
        {
            let addr = SocketAddr::new(ips[i], port);
            if self.active_peers.contains_key(&addr) {
                proof {
                    assert(addr == resolved_addr@.addr(i as int));
                    self.lemma_first_connected(resolved_addr@, i as int);
                }
                return Err(Error::from(AlreadyConnected(addr)));
            }
            i += 1;
        }
        dial_first(resolved_addr)
    }

    /// Whether the address to try after `i` others is the first connected one.
    pub open spec fn first_connected(self, resolved_addr: ResolvedView, i: int) -> bool {
        &&& 0 <= i < resolved_addr.ips().len()
        &&& self.peers().dom().contains(resolved_addr.addr(i))
        &&& forall|j: int|
            0 <= j < i ==> !self.peers().dom().contains(#[trigger] resolved_addr.addr(j))
    }

    /// The first step to connect to a peer.
    pub open spec fn first_step(self, resolved_addr: ResolvedView) -> ConnectView {
        if exists|i: int| self.first_connected(resolved_addr, i) {
            let i = choose|i: int| self.first_connected(resolved_addr, i);
            ConnectView::Failed(
                Error::AlreadyConnected(AlreadyConnected(resolved_addr.addr(i))),
            )
        } else {
            first_dial(resolved_addr)
        }
    }

    proof fn lemma_first_connected(self, resolved_addr: ResolvedView, i: int)
        requires
            self.first_connected(resolved_addr, i),
        ensures
            self.first_step(resolved_addr) == ConnectView::Failed(
                Error::AlreadyConnected(AlreadyConnected(resolved_addr.addr(i))),
            ),
    {
        let k = choose|k: int| self.first_connected(resolved_addr, k);
        assert(self.first_connected(resolved_addr, k));
        if k < i {
            assert(!self.peers().dom().contains(resolved_addr.addr(k)));
        }
        if i < k {
            assert(!self.peers().dom().contains(resolved_addr.addr(i)));
        }
    }

    /// Keep the address of a connection that started, and serve the connection.
    pub fn connection_started(
        &mut self,
        addr: SocketAddr,
        store: Option<SocketAddr>,
        peer_connection_handle: PeerConnectionHandle,
    ) -> (res: Result<(), Error>)
        ensures
            final(self).known() == match store {
                Some(store) => old(self).known().insert(stored(store)),
                None => old(self).known(),
            },
            final(self).magic_bytes == old(self).magic_bytes,
            match res {
                Ok(()) => {
                    &&& !old(self).peers().dom().contains(addr)
                    &&& final(self).peers() == old(self).peers().insert(
                        addr,
                        peer_connection_handle@,
                    )
                },
                Err(err) => {
                    &&& old(self).peers().dom().contains(addr)
                    &&& err == Error::AlreadyConnected(AlreadyConnected(addr))
                    &&& final(self).peers() == old(self).peers()
                },
            },
    {
        if let Some(store) = store {
            self.known_peers.insert(store);
        }
        match self.add_active_peer(addr, peer_connection_handle) {
            Ok(()) => Ok(()),
            Err(err) => Err(Error::from(err)),
        }
    }

    /// Delete a peer from those that survive a restart. A connection to it
    /// stays. Says whether the peer was known.
    pub fn forget_peer(&mut self, addr: &SocketAddr) -> (forgotten: bool)
        ensures
            final(self).known() == old(self).known().remove(stored(*addr)),
            final(self).peers() == old(self).peers(),
            final(self).magic_bytes == old(self).magic_bytes,
            forgotten == old(self).known().contains(stored(*addr)),
    {
        self.known_peers.remove(addr)
    }

    /// The known peers, each once, in the order of their keys in the database.
    pub fn known_peer_addrs(&self) -> (addrs: Vec<SocketAddr>)
        ensures
            in_key_order(addrs@, self.known()),
    {
        self.known_peers.addrs()
    }

    pub fn is_active_peer(&self, addr: &SocketAddr) -> (active: bool)
        ensures
            active == self.peers().dom().contains(*addr),
    {
        self.active_peers.contains_key(addr)
    }

    /// Start to dial every known peer.
    pub fn dial_known_peers(&self) -> (dialing: DialKnownPeers)
        ensures
            in_key_order(dialing.left@, self.known()),
            dialing.dialed == 0,
    {
        DialKnownPeers { left: self.known_peer_addrs(), dialed: 0 }
    }

    /// Check for connections when the wait of the redial loop is over. Dials the
    /// known peers again once a full wait passed without a connection.
    pub fn redial_known_peers(&self, redial: &mut Redial) -> (dialing: Option<DialKnownPeers>)
        ensures
            final(redial)@ == old(redial)@.checked(self.peers().dom().len()),
            match dialing {
                Some(dialing) => {
                    &&& old(redial)@.redials(self.peers().dom().len())
                    &&& in_key_order(dialing.left@, self.known())
                    &&& dialing.dialed == 0
                },
                None => !old(redial)@.redials(self.peers().dom().len()),
            },
    {
        let active_peers = self.active_peers.len();
        assert(self.peers().dom() =~= self.active_peers@.dom());
        if redial.check(active_peers) {
            Some(self.dial_known_peers())
        } else {
            None
        }
    }

    /// Decide on an incoming connection.
    pub fn accept_incoming(&self, incoming: Incoming) -> (accept: Result<
        Accept,
        AcceptConnection,
    >)
        ensures
            accept == match incoming {
                Incoming::EndpointClosed => Err::<Accept, AcceptConnection>(
                    AcceptConnection::ServerEndpointClosed,
                ),
                Incoming::HandshakeFailed { message, remote_address } => Err(
                    AcceptConnection::Connection { message, remote_address },
                ),
                Incoming::Connected { addr, closed } => Ok(
                    if self.peers().dom().contains(addr) {
                        Accept::Refuse { addr }
                    } else if closed {
                        Accept::Ignore
                    } else {
                        Accept::Admit { addr }
                    },
                ),
            },
    {
        match incoming {
            Incoming::EndpointClosed => Err(AcceptConnection::ServerEndpointClosed),
            Incoming::HandshakeFailed { message, remote_address } => Err(
                AcceptConnection::Connection { message, remote_address },
            ),
            Incoming::Connected { addr, closed } => {
                if self.active_peers.contains_key(&addr) {
                    Ok(Accept::Refuse { addr })
                } else if closed {
                    Ok(Accept::Ignore)
                } else {
                    Ok(Accept::Admit { addr })
                }
            },
        }
    }

    /// Keep the address of an admitted connection, and serve the connection.
    /// Gives back the address of the new peer.
    pub fn admit_incoming(
        &mut self,
        addr: SocketAddr,
        peer_connection_handle: PeerConnectionHandle,
    ) -> (res: Result<Option<SocketAddr>, AcceptConnection>)
        ensures
            final(self).known() == old(self).known().insert(stored(addr)),
            final(self).magic_bytes == old(self).magic_bytes,
            match res {
                Ok(added) => {
                    &&& added == Some(addr)
                    &&& !old(self).peers().dom().contains(addr)
                    &&& final(self).peers() == old(self).peers().insert(
                        addr,
                        peer_connection_handle@,
                    )
                },
                Err(err) => {
                    &&& old(self).peers().dom().contains(addr)
                    &&& err == AcceptConnection::AlreadyConnected(AlreadyConnected(addr))
                    &&& final(self).peers() == old(self).peers()
                },
            },
    {
        self.known_peers.insert(addr);
        match self.add_active_peer(addr, peer_connection_handle) {
            Ok(()) => Ok(Some(addr)),
            Err(err) => Err(AcceptConnection::AlreadyConnected(err)),
        }
    }

    /// Put a message into the queue of a peer. Says whether that worked.
    pub fn push_internal_message(
        &mut self,
        message: PeerConnectionMessage,
        addr: SocketAddr,
    ) -> (pushed: bool)
        ensures
            pushed == (old(self).peers().dom().contains(addr) && old(self).peers()[addr].open),
            final(self).peers() == if pushed {
                sent_to(old(self).peers(), set![addr], message)
            } else {
                old(self).peers()
            },
            final(self).known() == old(self).known(),
            final(self).magic_bytes == old(self).magic_bytes,
    {
        let mut handle = match self.active_peers.remove(&addr) {
            Some(handle) => handle,
            None => {
                assert(self.peers() =~= old(self).peers());
                return false;
            },
        };
        let pushed = handle.send(message).is_ok();
        self.active_peers.insert(addr, handle);
        proof {
            if pushed {
                assert(self.peers() =~= sent_to(old(self).peers(), set![addr], message));
            } else {
                assert(self.peers() =~= old(self).peers());
            }
        }
        pushed
    }

    /// Send a transaction to the queues of the connected peers, and count them.
    /// Stops at the first queue that is closed.
    pub fn push_tx(&mut self, exclude: &KeySet<SocketAddr>, tx: &AuthorizedTransaction) -> (res:
        Result<usize, Error>)
        ensures
            ({
                let peers = old(self).peers();
                let to = receivers(peers, exclude@);
                match res {
                    Ok(peer_count) => {
                        &&& forall|addr: SocketAddr| #[trigger]
                            to.contains(addr) ==> peers[addr].open
                        &&& to.finite()
                        &&& peer_count == to.len()
                        &&& final(self).peers() == sent_to(peers, to, push_message(*tx))
                    },
                    Err(err) => exists|addr: SocketAddr, reached: Set<SocketAddr>|
                        {
                            &&& err == Error::PushTransaction { addr }
                            &&& to.contains(addr) && !peers[addr].open
                            &&& #[trigger] reached.contains(addr) == false
                            &&& reached.subset_of(to)
                            &&& forall|a: SocketAddr| #[trigger]
                                reached.contains(a) ==> peers[a].open
                            &&& final(self).peers() == sent_to(peers, reached, push_message(*tx))
                        },
                }
            }),
            final(self).known() == old(self).known(),
            final(self).magic_bytes == old(self).magic_bytes,
    {
        let ghost peers = self.peers();
        let ghost message = push_message(*tx);
        let ghost to = receivers(peers, exclude@);
        let active = self.get_active_peers();
        let mut peer_count: usize = 0;
        let mut i: usize = 0;
        let ghost mut reached = Set::<SocketAddr>::empty();
        assert(self.peers() =~= sent_to(peers, reached, message));
        while i < active.len()
            invariant
                i <= active@.len(),
                peers == old(self).peers(),
                message == push_message(*tx),
                to == receivers(peers, exclude@),
                self.peers() == sent_to(peers, reached, message),
                self.known() == old(self).known(),
                self.magic_bytes == old(self).magic_bytes,
                active@.no_duplicates(),
                forall|peer: Peer| #[trigger]
                    active@.contains(peer) <==> peers.dom().contains(peer.address)
                        && peers[peer.address].status == peer.status,
                reached.finite(),
                reached.len() == peer_count,
                peer_count <= i,
                forall|a: SocketAddr| #[trigger]
                    reached.contains(a) <==> to.contains(a) && exists|j: int|
                        0 <= j < i && (#[trigger] active@[j]).address == a,
                forall|a: SocketAddr| #[trigger] reached.contains(a) ==> peers[a].open,
            decreases active@.len() - i,
        {
            let peer = active[i];
            assert(active@.contains(peer));
            if exclude.contains(&peer.address) || peer.status != PeerConnectionStatus::Connected {
                proof {
                    assert(!to.contains(peer.address));
                    assert forall|a: SocketAddr| #[trigger] reached.contains(a) implies to.contains(
                        a,
                    ) && exists|j: int| 0 <= j < i + 1 && (#[trigger] active@[j]).address == a by {
                        let j = choose|j: int| 0 <= j < i && (#[trigger] active@[j]).address == a;
                        assert(active@[j].address == a);
                    }
                }
                i += 1;
                continue;
            }
            proof {
                assert(to.contains(peer.address));
                if reached.contains(peer.address) {
                    let j = choose|j: int|
                        0 <= j < i && (#[trigger] active@[j]).address == peer.address;
                    assert(active@.contains(active@[j]));
                    assert(active@[j] == peer);
                }
            }
            let request = PeerRequest::from(PushTransactionRequest { transaction: tx.clone() });
            let ghost before = self.peers();
            if !self.push_internal_message(PeerConnectionMessage::from(request), peer.address) {
                proof {
                    assert(!reached.contains(peer.address));
                    assert(reached.subset_of(to));
                }
                return Err(Error::PushTransaction { addr: peer.address });
            }
            proof {
                let more = reached.insert(peer.address);
                assert(self.peers() =~= sent_to(peers, more, message));
                assert forall|a: SocketAddr| #[trigger] more.contains(a) <==> to.contains(a)
                    && exists|j: int| 0 <= j < i + 1 && (#[trigger] active@[j]).address == a by {
                    if reached.contains(a) {
                        let j = choose|j: int| 0 <= j < i && (#[trigger] active@[j]).address == a;
                        assert(active@[j].address == a);
                    }
                    assert(active@[i as int].address == peer.address);
                    if to.contains(a) && a != peer.address && exists|j: int|
                        0 <= j < i + 1 && (#[trigger] active@[j]).address == a {
                        let j = choose|j: int|
                            0 <= j < i + 1 && (#[trigger] active@[j]).address == a;
                        assert(j < i);
                        assert(reached.contains(a));
                    }
                }
                reached = more;
            }
            peer_count += 1;
            i += 1;
        }
        proof {
            assert forall|a: SocketAddr| to.contains(a) implies reached.contains(a) by {
                let peer = Peer { address: a, status: PeerConnectionStatus::Connected };
                assert(active@.contains(peer));
                let j = active@.index_of(peer);
                assert(active@[j].address == a);
            }
            assert(reached =~= to);
        }
        Ok(peer_count)
    }
}

/// The known peers that are still to be dialed, and the number of connections
/// that started.
#[derive(Debug)]
pub struct DialKnownPeers {
    pub left: Vec<SocketAddr>,
    pub dialed: usize,
}

/// The number of peers at the start of a list that are connected.
pub open spec fn connected_ahead(left: Seq<SocketAddr>, active: Set<SocketAddr>) -> nat
    decreases left.len(),
{
    if left.len() > 0 && active.contains(left[0]) {
        connected_ahead(left.skip(1), active) + 1
    } else {
        0
    }
}

impl DialKnownPeers {
    /// The next peer to dial: peers that are connected are left out.
    pub fn next(&mut self, net: &Net) -> (addr: Option<SocketAddr>)
        ensures
            final(self).dialed == old(self).dialed,
            ({
                let left = old(self).left@;
                let i = connected_ahead(left, net.peers().dom()) as int;
                if i < left.len() {
                    addr == Some(left[i]) && final(self).left@ == left.skip(i + 1)
                } else {
                    addr is None && final(self).left@ == Seq::<SocketAddr>::empty()
                }
            }),
    {
        let ghost all = self.left@;
        let ghost active = net.peers().dom();
        let ghost mut i: int = 0;
        assert(all.skip(0) =~= all);
        while self.left.len() > 0
            invariant
                0 <= i <= all.len(),
                all == old(self).left@,
                active == net.peers().dom(),
                self.left@ == all.skip(i),
                self.dialed == old(self).dialed,
                connected_ahead(all, active) == i + connected_ahead(self.left@, active),
            decreases self.left@.len(),
        {
            let ghost before = self.left@;
            let addr = self.left.remove(0);
            proof {
                assert(addr == all[i]);
                assert(self.left@ =~= all.skip(i + 1));
                assert(self.left@ =~= before.skip(1));
            }
            if !net.is_active_peer(&addr) {
                return Some(addr);
            }
            proof {
                i = i + 1;
            }
        }
        None
    }

    /// Take note of whether a connection to the peer that was dialed started:
    /// only those that did are counted.
    pub fn dialed(&mut self, started: bool)
        requires
            started ==> old(self).dialed < usize::MAX,
        ensures
            final(self).dialed == old(self).dialed + if started {
                1int
            } else {
                0int
            },
            final(self).left@ == old(self).left@,
    {
        if started {
            self.dialed = self.dialed + 1;
        }
    }
}

/// A dial: the peers that are connected at the time, and whether the connection
/// to the peer that is dialed starts.
pub struct Dial {
    pub active: Set<SocketAddr>,
    pub started: bool,
}

/// The peers of a list that are dialed in turn, each with whether its connection
/// started.
pub open spec fn dial_pass(left: Seq<SocketAddr>, dials: Seq<Dial>) -> Seq<(SocketAddr, bool)>
    decreases dials.len(),
{
    if dials.len() == 0 {
        Seq::empty()
    } else {
        let i = connected_ahead(left, dials[0].active) as int;
        if i < left.len() {
            seq![(left[i], dials[0].started)] + dial_pass(left.skip(i + 1), dials.skip(1))
        } else {
            Seq::empty()
        }
    }
}

/// The count at the end of a pass, which started at `dialed`.
pub open spec fn count_pass(dialed: int, pass: Seq<(SocketAddr, bool)>) -> int
    decreases pass.len(),
{
    if pass.len() == 0 {
        dialed
    } else {
        count_pass(dialed, pass.drop_last()) + if pass.last().1 {
            1int
        } else {
            0int
        }
    }
}

/// The count of a pass over the known peers is the number of connections that
/// started, and never more than the number of peers. Every peer is dialed at
/// most once, in the order of the list, and none that is connected at the time.
pub proof fn law_dialed_counts_started_connections(left: Seq<SocketAddr>, dials: Seq<Dial>)
    ensures
        ({
            let pass = dial_pass(left, dials);
            &&& count_pass(0, pass) == pass.filter(|dial: (SocketAddr, bool)| dial.1).len()
            &&& count_pass(0, pass) <= pass.len() <= left.len()
            &&& pass.len() <= dials.len()
            &&& forall|i: int|
                0 <= i < pass.len() ==> {
                    &&& left.contains((#[trigger] pass[i]).0)
                    &&& !dials[i].active.contains(pass[i].0)
                    &&& pass[i].1 == dials[i].started
                }
            &&& left.no_duplicates() ==> forall|i: int, j: int|
                0 <= i < j < pass.len() ==> left.index_of((#[trigger] pass[i]).0) < left.index_of(
                    (#[trigger] pass[j]).0,
                )
        }),
{
    lemma_count_pass(dial_pass(left, dials));
    lemma_dial_pass(left, dials);
    let pass = dial_pass(left, dials);
    if left.no_duplicates() {
        assert forall|i: int, j: int| 0 <= i < j < pass.len() implies left.index_of(
            (#[trigger] pass[i]).0,
        ) < left.index_of((#[trigger] pass[j]).0) by {
            lemma_pass_order(left, dials, i, j);
        }
    }
}

proof fn lemma_count_pass(pass: Seq<(SocketAddr, bool)>)
    ensures
        count_pass(0, pass) == pass.filter(|dial: (SocketAddr, bool)| dial.1).len(),
        count_pass(0, pass) <= pass.len(),
    decreases pass.len(),
{
    reveal(Seq::filter);
    if pass.len() > 0 {
        lemma_count_pass(pass.drop_last());
    }
}

proof fn lemma_connected_ahead(left: Seq<SocketAddr>, active: Set<SocketAddr>)
    ensures
        connected_ahead(left, active) <= left.len(),
        connected_ahead(left, active) < left.len() ==> !active.contains(
            left[connected_ahead(left, active) as int],
        ),
    decreases left.len(),
{
    if left.len() > 0 && active.contains(left[0]) {
        lemma_connected_ahead(left.skip(1), active);
    }
}

proof fn lemma_dial_pass(left: Seq<SocketAddr>, dials: Seq<Dial>)
    ensures
        dial_pass(left, dials).len() <= left.len(),
        dial_pass(left, dials).len() <= dials.len(),
        forall|k: int|
            0 <= k < dial_pass(left, dials).len() ==> {
                &&& left.contains((#[trigger] dial_pass(left, dials)[k]).0)
                &&& !dials[k].active.contains(dial_pass(left, dials)[k].0)
                &&& dial_pass(left, dials)[k].1 == dials[k].started
            },
    decreases dials.len(),
{
    if dials.len() > 0 {
        let i = connected_ahead(left, dials[0].active) as int;
        lemma_connected_ahead(left, dials[0].active);
        if i < left.len() {
            let later = left.skip(i + 1);
            let rest = dial_pass(later, dials.skip(1));
            lemma_dial_pass(later, dials.skip(1));
            assert forall|k: int| 0 <= k < dial_pass(left, dials).len() implies {
                &&& left.contains((#[trigger] dial_pass(left, dials)[k]).0)
                &&& !dials[k].active.contains(dial_pass(left, dials)[k].0)
                &&& dial_pass(left, dials)[k].1 == dials[k].started
            } by {
                if k > 0 {
                    assert(dial_pass(left, dials)[k] == rest[k - 1]);
                    let at = later.index_of(rest[k - 1].0);
                    assert(later[at] == left[at + i + 1]);
                    assert(dials.skip(1)[k - 1] == dials[k]);
                }
            }
        }
    }
}

proof fn lemma_pass_order(left: Seq<SocketAddr>, dials: Seq<Dial>, a: int, b: int)
    requires
        left.no_duplicates(),
        0 <= a < b < dial_pass(left, dials).len(),
    ensures
        left.index_of(dial_pass(left, dials)[a].0) < left.index_of(dial_pass(left, dials)[b].0),
    decreases dials.len(),
{
    let i = connected_ahead(left, dials[0].active) as int;
    let later = left.skip(i + 1);
    let rest = dial_pass(later, dials.skip(1));
    assert(later.no_duplicates());
    lemma_dial_pass(later, dials.skip(1));
    let last = rest[b - 1].0;
    assert(later.contains(last));
    let at = later.index_of(last);
    assert(left[at + i + 1] == last);
    assert(left.index_of(last) == at + i + 1);
    if a == 0 {
        assert(left.index_of(left[i]) == i);
    } else {
        lemma_pass_order(later, dials.skip(1), a - 1, b - 1);
        let first = rest[a - 1].0;
        assert(later.contains(first));
        let place = later.index_of(first);
        assert(left[place + i + 1] == first);
        assert(left.index_of(first) == place + i + 1);
    }
}

/// The host names among seeds, without repetition.
pub open spec fn distinct_names(all: Seq<SeedAddressView>) -> Seq<SeedAddressView>
    decreases all.len(),
{
    if all.len() == 0 {
        Seq::empty()
    } else {
        let before = distinct_names(all.drop_last());
        if is_name(all.last()) && !before.contains(all.last()) {
            before.push(all.last())
        } else {
            before
        }
    }
}

/// The host names among the seeds of a network and the peers to add.
pub fn seed_names(network: Network, add_peers: &Vec<SeedAddress>) -> (names: Vec<SeedAddress>)
    ensures
        seed_views(names@) == distinct_names(seeds(network) + seed_views(add_peers@)),
{
    let network_seeds = seed_node_addrs(network);
    let ghost all = seeds(network) + seed_views(add_peers@);
    let mut names: Vec<SeedAddress> = Vec::new();
    assert(seed_views(names@) =~= Seq::empty());
    assert(all.take(0) =~= Seq::empty());
    let mut i: usize = 0;
    while i < network_seeds.len()
        invariant
            i <= network_seeds@.len(),
            all == seed_views(network_seeds@) + seed_views(add_peers@),
            seed_views(names@) == distinct_names(all.take(i as int)),
        decreases network_seeds@.len() - i,
    {
        assert(all.take(i + 1).drop_last() =~= all.take(i as int));
        add_name(&mut names, &network_seeds[i]);
        i += 1;
    }
    let mut k: usize = 0;
    while k < add_peers.len()
        invariant
            k <= add_peers@.len(),
            all == seed_views(network_seeds@) + seed_views(add_peers@),
            seed_views(names@) == distinct_names(all.take(network_seeds@.len() + k)),
        decreases add_peers@.len() - k,
    {
        let ghost n = network_seeds@.len() + k;
        assert(all.take(n + 1).drop_last() =~= all.take(n));
        assert(all.take(n + 1).last() == add_peers@[k as int]@);
        add_name(&mut names, &add_peers[k]);
        k += 1;
    }
    assert(all.take(all.len() as int) =~= all);
    names
}

fn add_name(names: &mut Vec<SeedAddress>, seed: &SeedAddress)
    ensures
        seed_views(final(names)@) == if is_name(seed@) && !seed_views(old(names)@).contains(seed@) {
            seed_views(old(names)@).push(seed@)
        } else {
            seed_views(old(names)@)
        },
{
    if seed.socket_addr().is_some() {
        return;
    }
    let mut i: usize = 0;
    while i < names.len()
        invariant
            i <= names@.len(),
            names@ == old(names)@,
            forall|j: int| 0 <= j < i ==> (#[trigger] names@[j])@ != seed@,
        decreases names@.len() - i,
    {
        if names[i].same(seed) {
            assert(seed_views(names@)[i as int] == seed@);
            return;
        }
        i += 1;
    }
    proof {
        if seed_views(names@).contains(seed@) {
            let j = seed_views(names@).index_of(seed@);
            assert(names@[j]@ == seed@);
        }
    }
    let ghost before = names@;
    names.push(seed.clone());
    assert(seed_views(names@) =~= seed_views(before).push(seed@));
}

/// A transaction goes to the peers that are connected and not excluded. It goes to
/// the end of their queues, as a request that pushes it, and nothing else changes.
pub proof fn law_transaction_goes_to_connected_peers(
    peers: Connections,
    exclude: Set<SocketAddr>,
    addr: SocketAddr,
    tx: AuthorizedTransaction,
)
    requires
        peers.dom().contains(addr),
    ensures
        ({
            let to = receivers(peers, exclude);
            let after = sent_to(peers, to, push_message(tx));
            let was = peers[addr];
            let gets = !exclude.contains(addr) && was.status == PeerConnectionStatus::Connected;
            &&& to.contains(addr) <==> gets
            &&& after.dom() == peers.dom()
            &&& after[addr].queue == if gets {
                was.queue.push(
                    PeerConnectionMessage::Request(
                        PeerRequest::PushTransaction(PushTransactionRequest { transaction: tx }),
                    ),
                )
            } else {
                was.queue
            }
            &&& after[addr].status == was.status && after[addr].open == was.open
            &&& after[addr].received_msg_successfully == was.received_msg_successfully
        }),
{
    let to = receivers(peers, exclude);
    assert(sent_to(peers, to, push_message(tx)).dom() =~= peers.dom());
}

/// The next peer to dial is the first of the list that is not connected.
pub proof fn law_connected_peers_are_passed_over(left: Seq<SocketAddr>, active: Set<SocketAddr>)
    ensures
        ({
            let i = connected_ahead(left, active) as int;
            &&& i <= left.len()
            &&& forall|j: int| 0 <= j < i ==> active.contains(#[trigger] left[j])
            &&& i < left.len() ==> !active.contains(left[i])
        }),
    decreases left.len(),
{
    lemma_connected_ahead(left, active);
    if left.len() > 0 && active.contains(left[0]) {
        let rest = left.skip(1);
        law_connected_peers_are_passed_over(rest, active);
        assert forall|j: int| 0 <= j < connected_ahead(left, active) implies active.contains(
            #[trigger] left[j],
        ) by {
            if j > 0 {
                assert(rest[j - 1] == left[j]);
            }
        }
    }
}

/// The host names to resolve are the seeds that are named by a host name, each
/// once.
pub proof fn law_names_are_resolved_once(all: Seq<SeedAddressView>, seed: SeedAddressView)
    ensures
        distinct_names(all).contains(seed) <==> all.contains(seed) && seed.host is Domain,
        distinct_names(all).no_duplicates(),
    decreases all.len(),
{
    if all.len() > 0 {
        let rest = all.drop_last();
        let last = all.last();
        let before = distinct_names(rest);
        law_names_are_resolved_once(rest, seed);
        law_names_are_resolved_once(rest, last);
        assert(all[all.len() - 1] == last);
        if rest.contains(seed) {
            assert(all[rest.index_of(seed)] == seed);
        }
        if all.contains(seed) {
            let i = all.index_of(seed);
            if i < rest.len() {
                assert(rest[i] == seed);
            }
        }
        let after = distinct_names(all);
        if is_name(last) && !before.contains(last) {
            assert(after[before.len() as int] == last);
            if before.contains(seed) {
                assert(after[before.index_of(seed)] == seed);
            }
            if after.contains(seed) {
                let i = after.index_of(seed);
                if i < before.len() {
                    assert(before[i] == seed);
                }
            }
            assert forall|i: int, j: int|
                0 <= i < after.len() && 0 <= j < after.len() && i != j implies after[i]
                != after[j] by {
                if i < before.len() && j < before.len() {
                    assert(before[i] != before[j]);
                } else if i < before.len() {
                    assert(before.contains(before[i]));
                } else {
                    assert(before.contains(before[j]));
                }
            }
        }
    }
}

/// A peer is not dialed if one of its addresses is connected, and the first such
/// address is reported. Otherwise its first address is dialed.
pub proof fn law_connected_peers_are_not_dialed(net: Net, resolved_addr: ResolvedView, i: int)
    requires
        resolved_addr.valid(),
    ensures
        0 <= i < resolved_addr.ips().len() && net.peers().dom().contains(resolved_addr.addr(i)) && (
        forall|j: int|
            0 <= j < i ==> !net.peers().dom().contains(#[trigger] resolved_addr.addr(j)))
            ==> net.first_step(resolved_addr) == ConnectView::Failed(
            Error::AlreadyConnected(AlreadyConnected(resolved_addr.addr(i))),
        ),
        (forall|j: int|
            0 <= j < resolved_addr.ips().len() ==> !net.peers().dom().contains(
                #[trigger] resolved_addr.addr(j),
            )) ==> net.first_step(resolved_addr) == first_dial(resolved_addr),
{
    if net.first_connected(resolved_addr, i) {
        net.lemma_first_connected(resolved_addr, i);
    }
    if exists|k: int| net.first_connected(resolved_addr, k) {
        let k = choose|k: int| net.first_connected(resolved_addr, k);
        assert(net.peers().dom().contains(resolved_addr.addr(k)));
    }
}

/// What a connection shows of itself, and which connections and known peers a node
/// has.
pub proof fn law_connection_views(handle: PeerConnectionHandle, net: Net, addr: SocketAddr)
    ensures
        handle@.status == handle.status,
        handle@.received_msg_successfully == handle.received_msg_successfully,
        handle@.open == handle.open,
        handle@.queue == handle.queue@,
        net.peers().dom() == net.active_peers@.dom(),
        net.peers().dom().contains(addr) ==> net.peers()[addr] == net.active_peers@[addr]@,
        net.known() == net.known_peers@,
{
    assert(net.peers().dom() =~= net.active_peers@.dom());
}

/// How a duplicate connection is closed, and how many databases are needed.
pub proof fn law_duplicate_connections_are_closed_with()
    ensures
        DUPLICATE_CODE == 1,
        DUPLICATE_REASON@ == "already connected"@,
        Net::NUM_DBS == 2,
{
}

} // verus!
