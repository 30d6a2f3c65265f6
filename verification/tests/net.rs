//! Peers, their addresses and the connections to them.

use bitassets_node::hash::{Hash256, Txid};
use bitassets_node::net::addr::{
    ipv4, lookup_name, resolve_seed_address, Host, IpAddr, ResolveSeedAddress,
    ResolvedSeedAddress, SeedAddress, SocketAddr,
};
use bitassets_node::net::connect::{dialed, ConnectStep};
use bitassets_node::net::endpoint::certificate_names;
use bitassets_node::net::error::{AcceptConnection, AlreadyConnected, ConnectError, Error};
use bitassets_node::net::known::KnownPeers;
use bitassets_node::net::message::{
    MagicBytes, PeerConnectionInfo, PeerConnectionMessage, PeerRequest, PeerStateId,
};
use bitassets_node::net::peers::{
    Accept, Incoming, Net, PeerConnectionHandle, PeerConnectionStatus, Startup,
};
use bitassets_node::net::redial::Redial;
use bitassets_node::net::seeds::{
    ensure_seed_peers, seed_node_addrs, static_addrs, Network, DEFAULT_PORT,
};
use bitassets_node::node::events::MailboxItem;
use bitassets_node::node::task::NetTask;
use bitassets_node::table::KeySet;
use bitassets_node::types::AuthorizedTransaction;
use std::sync::Arc;

const LOCALHOST: u32 = 0x7f00_0001;

fn magic() -> MagicBytes {
    MagicBytes([1, 2, 3, 4])
}

fn temp_net() -> Net {
    temp_net_with_peers(vec![]).0
}

fn temp_net_with_peers(add_peers: Vec<SeedAddress>) -> (Net, Startup) {
    Net::new(KnownPeers::new(), true, None, magic(), Network::Regtest, &add_peers)
}

fn v4(port: u16) -> SocketAddr {
    SocketAddr::new(IpAddr::V4(LOCALHOST), port)
}

/// Connect to a peer, with an endpoint that dials as given.
fn connect(
    net: &mut Net,
    resolved_addr: ResolvedSeedAddress,
    dial: impl Fn(SocketAddr, &str) -> Result<(), ConnectError>,
) -> Result<(SocketAddr, ResolvedSeedAddress), Error> {
    let mut step = net.connect_peer(resolved_addr)?;
    loop {
        match step {
            ConnectStep::Dial { addr, server_name, resolved_addr } => {
                step = dialed(resolved_addr, dial(addr, &server_name))?;
            }
            ConnectStep::Started { addr, store, resolved_addr } => {
                let handle = PeerConnectionHandle::new(PeerConnectionStatus::Connecting);
                net.connection_started(addr, store, handle)?;
                return Ok((addr, resolved_addr));
            }
        }
    }
}

/// An endpoint that can reach IPv4 addresses only.
fn ipv4_endpoint(addr: SocketAddr, _: &str) -> Result<(), ConnectError> {
    match addr {
        SocketAddr::V4 { .. } => Ok(()),
        SocketAddr::V6 { .. } => Err(ConnectError::InvalidRemoteAddress(addr)),
    }
}

fn transaction(n: u8) -> AuthorizedTransaction {
    AuthorizedTransaction {
        txid: Txid(Hash256::from_bytes(&[n; 32])),
        encoding: Arc::new(vec![n]),
    }
}

fn connected(net: &mut Net, addr: SocketAddr) {
    net.add_active_peer(addr, PeerConnectionHandle::new(PeerConnectionStatus::Connected)).unwrap();
}

fn queued(net: &Net, addr: SocketAddr) -> Vec<Txid> {
    net.active_peers
        .get(&addr)
        .unwrap()
        .queue
        .iter()
        .map(|message| match message {
            PeerConnectionMessage::Request(PeerRequest::PushTransaction(request)) => {
                request.transaction.txid
            }
            other => panic!("unexpected message: {other:?}"),
        })
        .collect()
}

/// Every seed reaches a peer table that already exists, and a second call
/// writes the same set.
#[test]
fn seeds_reach_an_existing_database() {
    let network = Network::Signet;
    let mut known_peers = KnownPeers::new();
    let added = ensure_seed_peers(&mut known_peers, network);
    let added_again = ensure_seed_peers(&mut known_peers, network);
    let seed_socket_addrs = static_addrs(&seed_node_addrs(network));
    for seed_node_addr in &seed_socket_addrs {
        assert!(known_peers.contains(seed_node_addr));
    }
    assert_eq!(known_peers.len(), seed_socket_addrs.len());
    assert_eq!(added, seed_socket_addrs);
    assert!(added_again.is_empty());
}

/// A seed names a host and a port, and the resolver keeps both.
#[test]
fn a_seed_name_resolves_with_its_port() {
    let seed_addr = SeedAddress { host: Host::Domain("localhost".to_string()), port: 4004 };
    assert_eq!(lookup_name(&seed_addr), Some("localhost".to_string()));
    let resolved = resolve_seed_address(
        seed_addr,
        Ok(vec![IpAddr::V6(0), IpAddr::V6(1), IpAddr::V4(0), IpAddr::V4(LOCALHOST)]),
    )
    .unwrap();
    assert_eq!(resolved.port(), 4004);
    assert_eq!(resolved.ip_addrs(), vec![IpAddr::V6(1), IpAddr::V4(LOCALHOST)]);
    assert!(matches!(resolved.host(), Host::Domain(domain) if domain == "localhost"));
}

/// The QUIC server name of a host name peer is the domain.
#[test]
fn connect_peer_sends_the_domain_as_server_name() {
    let mut net = temp_net();
    let domain = "seed.bitassets.test";
    let resolved = ResolvedSeedAddress::Domain {
        domain: domain.to_owned(),
        port: 1000,
        addrs: nonempty::NonEmpty::new(IpAddr::V4(LOCALHOST)),
    };
    connect(&mut net, resolved, |_, server_name| {
        assert_eq!(server_name, domain);
        Ok(())
    })
    .unwrap();
    connect(&mut net, v4(1001).into(), |_, server_name| {
        assert_eq!(server_name, "localhost");
        Ok(())
    })
    .unwrap();
}

#[test]
fn connect_peer_skips_ipv6_on_an_ipv4_endpoint() {
    let mut net = temp_net();
    let addr = v4(1000);
    let next_ip = IpAddr::V4(ipv4(127, 0, 0, 2));
    let resolved = ResolvedSeedAddress::Domain {
        domain: "localhost".to_owned(),
        port: addr.port(),
        addrs: nonempty::NonEmpty {
            head: next_ip,
            tail: vec![IpAddr::V4(LOCALHOST), IpAddr::V6(1)],
        },
    };

    let (reported_addr, resolved_addr) = connect(&mut net, resolved, ipv4_endpoint).unwrap();

    let peers = net.get_active_peers();
    assert_eq!(peers.len(), 1);
    assert_eq!(peers[0].address, addr);
    assert_eq!(reported_addr, addr);
    assert_eq!(resolved_addr.ip_addrs(), vec![IpAddr::V4(LOCALHOST), next_ip]);
}

#[test]
fn connect_peer_returns_the_last_invalid_address() {
    let mut net = temp_net();
    let addr = SocketAddr::new(IpAddr::V6(1), 4004);
    let resolved = ResolvedSeedAddress::Domain {
        domain: "localhost".to_owned(),
        port: addr.port(),
        addrs: nonempty::NonEmpty { head: addr.ip(), tail: vec![IpAddr::V6(2)] },
    };

    let error = connect(&mut net, resolved, ipv4_endpoint).unwrap_err();

    assert!(matches!(
        error,
        Error::Connect(ConnectError::InvalidRemoteAddress(failed)) if failed == addr
    ));
    assert!(net.get_active_peers().is_empty());
}

/// A seed host name resolves at startup, the node dials it, and the
/// database holds no resolved address for it.
#[test]
fn a_seed_host_name_dials_at_startup() {
    let addr = v4(1000);
    let seed_addr =
        SeedAddress { host: Host::Domain("localhost".to_string()), port: addr.port() };
    let (mut net, mut startup) = temp_net_with_peers(vec![seed_addr.clone(), seed_addr]);
    assert!(startup.store.is_empty());
    assert!(startup.dial.is_empty());
    assert_eq!(startup.seed_names.len(), 1);
    let resolved =
        resolve_seed_address(startup.seed_names.remove(0), Ok(vec![addr.ip()])).unwrap();

    connect(&mut net, resolved, ipv4_endpoint).unwrap();

    let peers = net.get_active_peers();
    assert_eq!(peers.len(), 1);
    assert_eq!(peers[0].address, addr);
    assert_eq!(net.known_peers.len(), 0);
}

#[test]
fn connect_peer_keeps_a_static_ipv4_address() {
    let mut net = temp_net();
    let addr = v4(1000);

    connect(&mut net, addr.into(), ipv4_endpoint).unwrap();

    let peers = net.get_active_peers();
    assert_eq!(peers.len(), 1);
    assert_eq!(peers[0].address, addr);
    assert_eq!(net.known_peer_addrs(), vec![addr]);
}

#[test]
fn connect_peer_returns_other_quinn_errors() {
    let mut net = temp_net();
    let addr = v4(4004);

    let error =
        connect(&mut net, addr.into(), |_, _| Err(ConnectError::EndpointStopping)).unwrap_err();

    assert!(matches!(error, Error::Connect(ConnectError::EndpointStopping)));
    assert!(net.get_active_peers().is_empty());
}

#[test]
fn connect_peer_refuses_an_unspecified_address() {
    let mut net = temp_net();
    let addr = SocketAddr::new(IpAddr::V6(0), 4004);
    let error = connect(&mut net, addr.into(), |_, _| Ok(())).unwrap_err();
    assert!(matches!(error, Error::UnspecfiedPeerIP(ip) if ip == IpAddr::V6(0)));
}

#[test]
fn connect_peer_refuses_a_connected_peer() {
    let mut net = temp_net();
    connect(&mut net, v4(1000).into(), ipv4_endpoint).unwrap();
    let resolved = ResolvedSeedAddress::Domain {
        domain: "localhost".to_owned(),
        port: 1000,
        addrs: nonempty::NonEmpty {
            head: IpAddr::V4(LOCALHOST),
            tail: vec![IpAddr::V4(ipv4(127, 0, 0, 2))],
        },
    };
    let error = connect(&mut net, resolved, ipv4_endpoint).unwrap_err();
    assert!(matches!(
        error,
        Error::AlreadyConnected(AlreadyConnected(addr)) if addr == v4(1000)
    ));
}

/// A peer that drops leaves no connection, so the node dials it again.
#[test]
fn a_lost_peer_is_dialed_again() {
    let mut net = temp_net();
    let addr = v4(1000);
    connect(&mut net, addr.into(), ipv4_endpoint).unwrap();
    assert_eq!(net.get_active_peers().len(), 1);
    net.remove_active_peer(addr);
    assert!(net.get_active_peers().is_empty());
    let mut redial = Redial::new(50, 200);
    assert!(net.redial_known_peers(&mut redial).is_none());
    let mut dialing = net.redial_known_peers(&mut redial).unwrap();
    assert_eq!(dialing.next(&net), Some(addr));
    connect(&mut net, addr.into(), ipv4_endpoint).unwrap();
    dialing.dialed(true);
    assert_eq!(dialing.next(&net), None);
    assert_eq!(dialing.dialed, 1);
    assert_eq!(net.get_active_peers()[0].address, addr);
}

/// A peer that holds a connection takes no redial, and the loop starts no
/// second connection to it.
#[test]
fn a_connected_peer_takes_no_redial() {
    let mut net = temp_net();
    let addr = v4(1000);
    connect(&mut net, addr.into(), ipv4_endpoint).unwrap();
    let mut dialing = net.dial_known_peers();
    assert_eq!(dialing.next(&net), None);
    assert_eq!(dialing.dialed, 0);
    let mut redial = Redial::new(50, 200);
    for _ in 0..5 {
        assert!(net.redial_known_peers(&mut redial).is_none());
    }
    assert_eq!(net.get_active_peers().len(), 1);
}

#[test]
fn only_connections_that_started_are_counted() {
    let mut net = temp_net();
    for port in [1, 2, 3, 4] {
        net.known_peers.insert(v4(port));
    }
    connect(&mut net, v4(2).into(), ipv4_endpoint).unwrap();
    let mut dialing = net.dial_known_peers();
    let mut dialed = Vec::new();
    while let Some(addr) = dialing.next(&net) {
        dialed.push(addr);
        let left = dialing.left.clone();
        // the endpoint refuses the peer with port 3
        let res = if addr == v4(3) {
            Err(Error::Connect(ConnectError::EndpointStopping))
        } else {
            connect(&mut net, addr.into(), ipv4_endpoint)
        };
        dialing.dialed(res.is_ok());
        assert_eq!(dialing.left, left);
    }
    assert_eq!(dialed, vec![v4(1), v4(3), v4(4)]);
    assert_eq!(dialing.dialed, 2);
}

#[test]
fn the_wait_doubles_up_to_the_longest() {
    let mut redial = Redial::new(60, 600);
    assert_eq!(redial.delay(), 60);
    assert!(!redial.check(0));
    let mut delays = Vec::new();
    for _ in 0..5 {
        assert!(redial.check(0));
        delays.push(redial.delay());
    }
    assert_eq!(delays, vec![120, 240, 480, 600, 600]);
    assert!(!redial.check(3));
    assert_eq!(redial.delay(), 60);
    assert!(!redial.check(0));
    assert!(redial.check(0));
}

#[test]
fn rejected_duplicate_has_no_peer_close_event() {
    let mut net = temp_net();
    let addr = v4(1000);
    // a connection reports that it closed once it is served, and only those that
    // are added are
    let mut served = Vec::new();
    if let Ok((addr, _)) = connect(&mut net, addr.into(), ipv4_endpoint) {
        served.push(addr);
    }
    let duplicate = PeerConnectionHandle::new(PeerConnectionStatus::Connected);
    match net.add_active_peer(addr, duplicate) {
        Ok(()) => served.push(addr),
        Err(error) => assert_eq!(error.0, addr),
    }
    let peers = net.get_active_peers();
    assert_eq!(peers.len(), 1);
    assert_eq!(peers[0].status, PeerConnectionStatus::Connecting);
    let events: Vec<(SocketAddr, Option<PeerConnectionInfo>)> =
        served.into_iter().map(|addr| (addr, None)).collect();
    assert_eq!(events.iter().filter(|(_, info)| info.is_none()).count(), 1);
    let mut task = NetTask::new(net);
    for event in events {
        task.handle(MailboxItem::PeerInfo(Some(event)));
    }
    assert!(task.net.get_active_peers().is_empty());
}

#[test]
fn incoming_connections_are_admitted_once() {
    let mut net = temp_net();
    let addr = v4(1000);
    let incoming = |closed| Incoming::Connected { addr, closed };
    assert_eq!(net.accept_incoming(incoming(true)).unwrap(), Accept::Ignore);
    assert_eq!(net.accept_incoming(incoming(false)).unwrap(), Accept::Admit { addr });
    let handle = || PeerConnectionHandle::new(PeerConnectionStatus::Connected);
    assert_eq!(net.admit_incoming(addr, handle()).unwrap(), Some(addr));
    assert_eq!(net.known_peer_addrs(), vec![addr]);
    assert_eq!(net.accept_incoming(incoming(false)).unwrap(), Accept::Refuse { addr });
    assert!(matches!(
        net.admit_incoming(addr, handle()),
        Err(AcceptConnection::AlreadyConnected(AlreadyConnected(failed))) if failed == addr
    ));
    assert!(matches!(
        net.accept_incoming(Incoming::EndpointClosed),
        Err(AcceptConnection::ServerEndpointClosed)
    ));
    assert!(matches!(
        net.accept_incoming(Incoming::HandshakeFailed {
            message: "reset".to_string(),
            remote_address: addr
        }),
        Err(AcceptConnection::Connection { .. })
    ));
}

#[test]
fn seeds_of_each_network() {
    let addrs = static_addrs(&seed_node_addrs(Network::Signet));
    assert_eq!(
        addrs,
        vec![
            SocketAddr::V4 { ip: 0xac69_9487, port: DEFAULT_PORT },
            SocketAddr::V4 { ip: 0x5fd9_f30c, port: 4004 },
        ]
    );
    assert_eq!(
        static_addrs(&seed_node_addrs(Network::Alphanet)),
        vec![SocketAddr::V4 { ip: 0xcca8_fe71, port: 4004 }]
    );
    assert_eq!(
        static_addrs(&seed_node_addrs(Network::Forknet)),
        vec![SocketAddr::V4 { ip: 0x9db4_08e0, port: 4004 }]
    );
    assert!(seed_node_addrs(Network::Regtest).is_empty());
    assert!(seed_node_addrs(Network::Betanet).is_empty());
}

/// Known peers are listed in the order of their keys in the database: by the
/// bytes of the IP address and then those of the port, the low one first.
#[test]
fn known_peers_are_in_the_order_of_their_keys() {
    let v6 = |ip, port| SocketAddr::new(IpAddr::V6(ip), port);
    let in_order = vec![
        SocketAddr::new(IpAddr::V4(1), 7),
        v4(0x0200),
        v4(0x0001),
        v4(0x0101),
        v4(0x0002),
        SocketAddr::new(IpAddr::V4(u32::MAX), 0),
        v6(0, 1),
        v6(1, 0x0100),
        v6(1, 1),
        v6(u128::MAX, 0),
    ];
    let keys: Vec<Vec<u8>> = in_order
        .iter()
        .map(|addr| {
            let (mut key, port) = match *addr {
                SocketAddr::V4 { ip, port } => {
                    ([vec![0, 0, 0, 0], ip.to_be_bytes().to_vec()], port)
                }
                SocketAddr::V6 { ip, port, .. } => {
                    ([vec![1, 0, 0, 0], ip.to_be_bytes().to_vec()], port)
                }
            };
            key[1].extend_from_slice(&port.to_le_bytes());
            key.concat()
        })
        .collect();
    assert!(keys.windows(2).all(|pair| pair[0] < pair[1]));
    for shift in 0..in_order.len() {
        let mut net = temp_net();
        for i in 0..in_order.len() {
            net.known_peers.insert(in_order[(7 * i + shift) % in_order.len()]);
        }
        assert_eq!(net.known_peer_addrs(), in_order);
        assert_eq!(net.dial_known_peers().left, in_order);
        assert_eq!(net.known_peers.len(), in_order.len());
    }
}

#[test]
fn known_peers_keep_no_flow_information_or_scope() {
    let mut net = temp_net();
    let addr = SocketAddr::V6 { ip: 1, port: 2, flowinfo: 3, scope_id: 4 };
    let plain = SocketAddr::V6 { ip: 1, port: 2, flowinfo: 0, scope_id: 0 };
    let handle = PeerConnectionHandle::new(PeerConnectionStatus::Connected);
    assert_eq!(net.admit_incoming(addr, handle).unwrap(), Some(addr));
    assert!(net.is_active_peer(&addr));
    assert!(!net.is_active_peer(&plain));
    assert_eq!(net.known_peer_addrs(), vec![plain]);
    assert!(!net.known_peers.insert(plain));
    assert!(net.known_peers.contains(&addr));
    let other = SocketAddr::V6 { ip: 1, port: 2, flowinfo: 5, scope_id: 6 };
    assert!(net.forget_peer(&other));
    assert!(!net.forget_peer(&addr));
    assert!(net.known_peer_addrs().is_empty());
}

#[test]
fn startup_stores_static_peers() {
    let mut known = KnownPeers::new();
    known.insert(v4(1));
    let add_peers = vec![
        SeedAddress { host: Host::Ipv4(LOCALHOST), port: 2 },
        SeedAddress { host: Host::Domain("seed".to_string()), port: 3 },
        SeedAddress { host: Host::Ipv6(7), port: 4 },
    ];
    let (mut net, startup) =
        Net::new(known, false, Some(MagicBytes([9; 4])), magic(), Network::Forknet, &add_peers);
    assert!(startup.store_version);
    let forknet = SocketAddr::V4 { ip: 0x9db4_08e0, port: 4004 };
    let ipv6 = SocketAddr::new(IpAddr::V6(7), 4);
    assert_eq!(startup.store, vec![forknet, v4(2), ipv6]);
    assert_eq!(startup.dial, vec![v4(1), v4(2), forknet, ipv6]);
    assert_eq!(startup.seed_names.len(), 1);
    assert_eq!(net.magic_bytes, MagicBytes([9; 4]));
    let invalid = Err(Error::Connect(ConnectError::InvalidRemoteAddress(ipv6)));
    assert!(net.startup_dialed(ipv6, invalid).unwrap());
    assert!(!net.known_peers.contains(&ipv6));
    assert!(!net.startup_dialed(v4(1), Ok(())).unwrap());
    assert!(net
        .startup_dialed(v4(1), Err(Error::Connect(ConnectError::EndpointStopping)))
        .is_err());
    assert!(net.known_peers.contains(&v4(1)));
}

#[test]
fn unusable_lookups_are_errors() {
    let seed = || SeedAddress { host: Host::Domain("seed".to_string()), port: 1 };
    assert!(matches!(
        resolve_seed_address(seed(), Err("timeout".to_string())),
        Err(ResolveSeedAddress::Net(message)) if message == "timeout"
    ));
    assert!(matches!(
        resolve_seed_address(seed(), Ok(vec![IpAddr::V4(0)])),
        Err(ResolveSeedAddress::NoIpAddrs { domain }) if domain == "seed"
    ));
    let fixed = SeedAddress { host: Host::Ipv6(5), port: 1 };
    assert_eq!(lookup_name(&fixed), None);
    assert!(matches!(
        resolve_seed_address(fixed, Err(String::new())),
        Ok(ResolvedSeedAddress::Static(addr)) if addr == SocketAddr::new(IpAddr::V6(5), 1)
    ));
}

#[test]
fn addresses_are_popped_in_order() {
    let resolved = resolve_seed_address(
        SeedAddress { host: Host::Domain("seed".to_string()), port: 1 },
        Ok(vec![IpAddr::V4(1), IpAddr::V4(2), IpAddr::V4(3)]),
    )
    .unwrap();
    assert_eq!(resolved.first_ip_addr(), IpAddr::V4(1));
    let (first, rest) = resolved.pop_first_ip_addr();
    assert_eq!(first, IpAddr::V4(1));
    let (second, rest) = rest.unwrap().pop_first_ip_addr();
    assert_eq!(second, IpAddr::V4(2));
    let (third, rest) = rest.unwrap().pop_first_ip_addr();
    assert_eq!(third, IpAddr::V4(3));
    assert!(rest.is_none());
}

#[test]
fn push_tx_counts_the_connected_peers() {
    let mut net = temp_net();
    connected(&mut net, v4(1));
    connected(&mut net, v4(2));
    net.add_active_peer(v4(3), PeerConnectionHandle::new(PeerConnectionStatus::Connecting))
        .unwrap();
    let mut exclude = KeySet::new();
    assert_eq!(net.push_tx(&exclude, &transaction(1)).unwrap(), 2);
    exclude.insert(v4(2));
    assert_eq!(net.push_tx(&exclude, &transaction(2)).unwrap(), 1);
    assert_eq!(queued(&net, v4(1)), vec![transaction(1).txid, transaction(2).txid]);
    assert_eq!(queued(&net, v4(2)), vec![transaction(1).txid]);
    assert!(queued(&net, v4(3)).is_empty());
}

#[test]
fn push_tx_names_a_closed_queue() {
    let mut net = temp_net();
    let mut handle = PeerConnectionHandle::new(PeerConnectionStatus::Connected);
    handle.open = false;
    net.add_active_peer(v4(1), handle).unwrap();
    assert!(matches!(
        net.push_tx(&KeySet::new(), &transaction(1)),
        Err(Error::PushTransaction { addr }) if addr == v4(1)
    ));
}

#[test]
fn internal_messages_reach_open_queues() {
    let mut net = temp_net();
    let id = PeerStateId(Hash256::from_bytes(&[1; 32]));
    assert!(!net.push_internal_message(PeerConnectionMessage::Headers(id), v4(1)));
    connected(&mut net, v4(1));
    assert!(net.push_internal_message(PeerConnectionMessage::Headers(id), v4(1)));
    assert_eq!(
        net.try_with_active_peer_connection(v4(1), |handle| handle.queue.len()),
        Some(1)
    );
    assert_eq!(net.try_with_active_peer_connection(v4(2), |handle| handle.queue.len()), None);
}

#[test]
fn forgetting_a_peer_keeps_its_connection() {
    let mut net = temp_net();
    connect(&mut net, v4(1).into(), ipv4_endpoint).unwrap();
    assert!(net.forget_peer(&v4(1)));
    assert!(!net.forget_peer(&v4(1)));
    assert!(net.is_active_peer(&v4(1)));
    assert!(net.known_peer_addrs().is_empty());
}

#[test]
fn certificates_name_localhost_once() {
    assert_eq!(certificate_names(vec![]), vec!["localhost".to_string()]);
    assert_eq!(
        certificate_names(vec!["a".to_string()]),
        vec!["a".to_string(), "localhost".to_string()]
    );
    assert_eq!(
        certificate_names(vec!["localhost".to_string(), "b".to_string()]),
        vec!["localhost".to_string(), "b".to_string()]
    );
}
