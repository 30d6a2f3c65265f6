//! The seeds of each network.

use vstd::prelude::*;

use crate::net::addr::{
    ipv4, ipv4_spec, Host, HostView, IpAddr, SeedAddress, SeedAddressView, SocketAddr,
};
use crate::net::known::{stored, KnownPeers};
use crate::table::lemma_take_to_set;

verus! {

/// The port that nodes listen on.
pub const DEFAULT_PORT: u16 = 4004;

#[derive(Clone, Copy, Debug, PartialEq, Eq, Structural)]
pub enum Network {
    Signet,
    Regtest,
    Forknet,
    Alphanet,
    Betanet,
}

/// The seed with a given IPv4 address, on the default port.
pub open spec fn ipv4_seed_spec(a: u8, b: u8, c: u8, d: u8) -> SeedAddressView {
    SeedAddressView {
        host: HostView::Ip(IpAddr::V4(ipv4_spec(a, b, c, d) as u32)),
        port: DEFAULT_PORT,
    }
}

fn ipv4_seed(a: u8, b: u8, c: u8, d: u8) -> (seed: SeedAddress)
    ensures
        seed@ == ipv4_seed_spec(a, b, c, d),
{
    SeedAddress { host: Host::Ipv4(ipv4(a, b, c, d)), port: DEFAULT_PORT }
}

/// The seeds of a network.
pub open spec fn seeds(network: Network) -> Seq<SeedAddressView> {
    match network {
        Network::Signet => seq![
            ipv4_seed_spec(172, 105, 148, 135),
            ipv4_seed_spec(95, 217, 243, 12),
        ],
        Network::Regtest => Seq::empty(),
        Network::Forknet => seq![ipv4_seed_spec(157, 180, 8, 224)],
        Network::Alphanet => seq![ipv4_seed_spec(204, 168, 254, 113)],
        Network::Betanet => Seq::empty(),
    }
}

/// What a list of seeds says.
pub open spec fn seed_views(seeds: Seq<SeedAddress>) -> Seq<SeedAddressView> {
    seeds.map_values(|seed: SeedAddress| seed@)
}

pub fn seed_node_addrs(network: Network) -> (addrs: Vec<SeedAddress>)
    ensures
        seed_views(addrs@) == seeds(network),
{
    let mut addrs: Vec<SeedAddress> = Vec::new();
    match network {
        Network::Signet => {
            // the mining server
            addrs.push(ipv4_seed(172, 105, 148, 135));
            // bitassets.bip300.xyz
            addrs.push(ipv4_seed(95, 217, 243, 12));
        },
        Network::Forknet => {
            // explorer.bip300.xyz
            addrs.push(ipv4_seed(157, 180, 8, 224));
        },
        Network::Alphanet => {
            addrs.push(ipv4_seed(204, 168, 254, 113));
        },
        Network::Regtest | Network::Betanet => {},
    }
    assert(seed_views(addrs@) =~= seeds(network));
    addrs
}

/// The socket addresses of those seeds that are named by their IP address.
pub open spec fn socket_addrs(seeds: Seq<SeedAddressView>) -> Seq<SocketAddr>
    decreases seeds.len(),
{
    if seeds.len() == 0 {
        Seq::empty()
    } else {
        match seeds.last().socket_addr() {
            Some(addr) => socket_addrs(seeds.drop_last()).push(addr),
            None => socket_addrs(seeds.drop_last()),
        }
    }
}

/// The items of a list that are not in a set, without repetition.
pub open spec fn missing(items: Seq<SocketAddr>, held: Set<SocketAddr>) -> Seq<SocketAddr>
    decreases items.len(),
{
    if items.len() == 0 {
        Seq::empty()
    } else {
        let before = missing(items.drop_last(), held);
        if held.contains(items.last()) || before.contains(items.last()) {
            before
        } else {
            before.push(items.last())
        }
    }
}

/// The socket addresses of those seeds that are named by their IP address.
pub fn static_addrs(seeds: &Vec<SeedAddress>) -> (addrs: Vec<SocketAddr>)
    ensures
        addrs@ == socket_addrs(seed_views(seeds@)),
{
    let mut addrs: Vec<SocketAddr> = Vec::new();
    let mut i: usize = 0;
    let ghost views = seed_views(seeds@);
    while i < seeds.len()
        invariant
            i <= seeds@.len(),
            views == seed_views(seeds@),
            addrs@ == socket_addrs(views.take(i as int)),
        decreases seeds@.len() - i,
    {
        proof {
            assert(views.take(i + 1).drop_last() =~= views.take(i as int));
            assert(views.take(i + 1).last() == seeds@[i as int]@);
        }
        if let Some(addr) = seeds[i].socket_addr() {
            addrs.push(addr);
        }
        i += 1;
    }
    assert(views.take(views.len() as int) =~= views);
    addrs
}

/// Add every seed IP address that the network names to the known peers. Gives
/// back those that were missing.
pub fn ensure_seed_peers(known_peers: &mut KnownPeers, network: Network) -> (added: Vec<
    SocketAddr,
>)
    ensures
        final(known_peers)@ == old(known_peers)@ + socket_addrs(seeds(network)).to_set(),
        added@ == missing(socket_addrs(seeds(network)), old(known_peers)@),
{
    let addrs = static_addrs(&seed_node_addrs(network));
    let mut added: Vec<SocketAddr> = Vec::new();
    let ghost held = known_peers@;
    let mut i: usize = 0;
    while i < addrs.len()
        invariant
            i <= addrs@.len(),
            addrs@ == socket_addrs(seeds(network)),
            known_peers@ == held + addrs@.take(i as int).to_set(),
            known_peers@ == held + added@.to_set(),
            added@ == missing(addrs@.take(i as int), held),
        decreases addrs@.len() - i,
    {
        proof {
            assert(addrs@.take(i + 1).drop_last() =~= addrs@.take(i as int));
            lemma_take_to_set(addrs@, i as int);
            lemma_seeds_are_stored(seeds(network), i as int);
        }
        let addr = addrs[i];
        let ghost before = added@;
        if !known_peers.contains(&addr) {
            known_peers.insert(addr);
            added.push(addr);
            proof {
                assert(added@.take(before.len() as int) =~= before);
                assert(added@.take((before.len() + 1) as int) =~= added@);
                lemma_take_to_set(added@, before.len() as int);
            }
        }
        proof {
            assert(known_peers@ =~= held + addrs@.take(i + 1).to_set());
            assert(known_peers@ =~= held + added@.to_set());
        }
        i += 1;
    }
    assert(addrs@.take(addrs@.len() as int) =~= addrs@);
    added
}

/// The database keeps the whole address of a seed.
pub proof fn lemma_seeds_are_stored(seeds: Seq<SeedAddressView>, i: int)
    requires
        0 <= i < socket_addrs(seeds).len(),
    ensures
        stored(socket_addrs(seeds)[i]) == socket_addrs(seeds)[i],
    decreases seeds.len(),
{
    if i < socket_addrs(seeds.drop_last()).len() {
        lemma_seeds_are_stored(seeds.drop_last(), i);
    }
}

/// Seeds reach a set of peers that exists already, and adding them again
/// changes nothing.
pub proof fn law_seeds_are_added_once(held: Set<SocketAddr>, network: Network)
    ensures
        ({
            let seeds = socket_addrs(seeds(network));
            let after = held + seeds.to_set();
            &&& forall|addr: SocketAddr| seeds.contains(addr) ==> after.contains(addr)
            &&& after + seeds.to_set() == after
            &&& missing(seeds, after) == Seq::<SocketAddr>::empty()
        }),
{
    let addrs = socket_addrs(seeds(network));
    let after = held + addrs.to_set();
    assert(after + addrs.to_set() =~= after);
    lemma_nothing_missing(addrs, after);
}

proof fn lemma_nothing_missing(items: Seq<SocketAddr>, held: Set<SocketAddr>)
    requires
        forall|addr: SocketAddr| items.contains(addr) ==> held.contains(addr),
    ensures
        missing(items, held) == Seq::<SocketAddr>::empty(),
    decreases items.len(),
{
    if items.len() > 0 {
        let before = items.drop_last();
        assert forall|addr: SocketAddr| before.contains(addr) implies held.contains(addr) by {
            assert(items[before.index_of(addr)] == addr);
        }
        assert(items.contains(items.last()));
        lemma_nothing_missing(before, held);
    }
}

/// The seeds of the networks, by their IP addresses.
pub proof fn law_seeds_of_each_network(network: Network)
    ensures
        socket_addrs(seeds(network)) == match network {
            Network::Signet => seq![
                SocketAddr::V4 { ip: 0xac699487, port: 4004 },
                SocketAddr::V4 { ip: 0x5fd9f30c, port: 4004 },
            ],
            Network::Forknet => seq![SocketAddr::V4 { ip: 0x9db408e0, port: 4004 }],
            Network::Alphanet => seq![SocketAddr::V4 { ip: 0xcca8fe71, port: 4004 }],
            Network::Regtest | Network::Betanet => Seq::empty(),
        },
{
    reveal_with_fuel(socket_addrs, 3);
    let all = seeds(network);
    match network {
        Network::Signet => {
            assert(all.drop_last() =~= seq![all[0]]);
            assert(all.drop_last().drop_last() =~= Seq::empty());
            assert(socket_addrs(all) =~= seq![
                SocketAddr::V4 { ip: 0xac699487, port: 4004 },
                SocketAddr::V4 { ip: 0x5fd9f30c, port: 4004 },
            ]);
        },
        _ => {
            if all.len() > 0 {
                assert(all.drop_last() =~= Seq::empty());
            }
            assert(socket_addrs(all) =~= match network {
                Network::Forknet => seq![SocketAddr::V4 { ip: 0x9db408e0, port: 4004 }],
                Network::Alphanet => seq![SocketAddr::V4 { ip: 0xcca8fe71, port: 4004 }],
                _ => Seq::empty(),
            });
        },
    }
}

/// The socket addresses of seeds are those of the seeds that are named by their IP
/// address, in order.
pub proof fn law_socket_addrs_are_those_of_ip_seeds(seeds: Seq<SeedAddressView>)
    ensures
        socket_addrs(seeds) == seeds.filter(
            |seed: SeedAddressView| seed.host is Ip,
        ).map_values(
            |seed: SeedAddressView| crate::net::addr::socket_addr_of(seed.host->Ip_0, seed.port),
        ),
    decreases seeds.len(),
{
    reveal(Seq::filter);
    if seeds.len() > 0 {
        law_socket_addrs_are_those_of_ip_seeds(seeds.drop_last());
    }
    assert(socket_addrs(seeds) =~= seeds.filter(
        |seed: SeedAddressView| seed.host is Ip,
    ).map_values(
        |seed: SeedAddressView| crate::net::addr::socket_addr_of(seed.host->Ip_0, seed.port),
    ));
}

/// What is missing are the items that are not held, each once.
pub proof fn law_missing_items_are_not_held(
    items: Seq<SocketAddr>,
    held: Set<SocketAddr>,
    addr: SocketAddr,
)
    ensures
        missing(items, held).contains(addr) <==> items.contains(addr) && !held.contains(addr),
        missing(items, held).no_duplicates(),
    decreases items.len(),
{
    if items.len() > 0 {
        let rest = items.drop_last();
        let last = items.last();
        let before = missing(rest, held);
        law_missing_items_are_not_held(rest, held, addr);
        law_missing_items_are_not_held(rest, held, last);
        assert(items[items.len() - 1] == last);
        if rest.contains(addr) {
            assert(items[rest.index_of(addr)] == addr);
        }
        if items.contains(addr) {
            let i = items.index_of(addr);
            if i < rest.len() {
                assert(rest[i] == addr);
            }
        }
        let after = missing(items, held);
        if !(held.contains(last) || before.contains(last)) {
            assert(after[before.len() as int] == last);
            if before.contains(addr) {
                assert(after[before.index_of(addr)] == addr);
            }
            if after.contains(addr) {
                let i = after.index_of(addr);
                if i < before.len() {
                    assert(before[i] == addr);
                }
            }
            assert forall|i: int, j: int|
                0 <= i < after.len() && 0 <= j < after.len() && i != j implies after[i]
                != after[j] by {
                if i < before.len() && j < before.len() {
                    assert(before[i] != before[j]);
                } else if i < before.len() {
                    assert(before.contains(before[i]));
                } else {
                    assert(before.contains(before[j]));
                }
            }
        }
    }
}

} // verus!
