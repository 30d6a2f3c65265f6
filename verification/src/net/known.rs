//! The peers that survive a restart, as the database keeps them.
//!
//! The database keys a peer by its IP address and port. Flow information and
//! scope of an IPv6 address are not kept. The keys are in the order of their
//! bytes: IPv4 before IPv6, then by IP address, and then by port, of which the
//! low byte comes first.

use vstd::prelude::*;

use crate::net::addr::{socket_addr_of, IpAddr, SocketAddr};
use crate::table::{Key, KeySet};

verus! {

/// The address that the database gives back for an address.
pub open spec fn stored(addr: SocketAddr) -> SocketAddr {
    socket_addr_of(addr.ip_spec(), addr.port_spec())
}

/// Whether the bytes of a port, the low one first, come before those of another.
pub open spec fn port_before(a: u16, b: u16) -> bool {
    a % 256 < b % 256 || (a % 256 == b % 256 && a < b)
}

/// Whether the key of an address comes before that of another.
pub open spec fn key_before(a: SocketAddr, b: SocketAddr) -> bool {
    match (a.ip_spec(), b.ip_spec()) {
        (IpAddr::V4(_), IpAddr::V6(_)) => true,
        (IpAddr::V6(_), IpAddr::V4(_)) => false,
        (IpAddr::V4(x), IpAddr::V4(y)) => x < y || (x == y && port_before(
            a.port_spec(),
            b.port_spec(),
        )),
        (IpAddr::V6(x), IpAddr::V6(y)) => x < y || (x == y && port_before(
            a.port_spec(),
            b.port_spec(),
        )),
    }
}

/// Whether a list names the peers of a set, each once, in the order of the keys.
pub open spec fn in_key_order(addrs: Seq<SocketAddr>, known: Set<SocketAddr>) -> bool {
    &&& forall|i: int, j: int|
        0 <= i < j < addrs.len() ==> key_before(#[trigger] addrs[i], #[trigger] addrs[j])
    &&& addrs.to_set() == known
}

fn is_port_before(a: u16, b: u16) -> (before: bool)
    ensures
        before == port_before(a, b),
{
    a % 256 < b % 256 || (a % 256 == b % 256 && a < b)
}

fn is_key_before(a: &SocketAddr, b: &SocketAddr) -> (before: bool)
    ensures
        before == key_before(*a, *b),
{
    match (a.ip(), b.ip()) {
        (IpAddr::V4(_), IpAddr::V6(_)) => true,
        (IpAddr::V6(_), IpAddr::V4(_)) => false,
        (IpAddr::V4(x), IpAddr::V4(y)) => x < y || (x == y && is_port_before(a.port(), b.port())),
        (IpAddr::V6(x), IpAddr::V6(y)) => x < y || (x == y && is_port_before(a.port(), b.port())),
    }
}

/// What the database keeps of an address.
#[derive(Clone, Copy, Debug, PartialEq, Eq, Structural)]
struct PeerKey {
    ip: IpAddr,
    port: u16,
}

impl Key for PeerKey {
    fn same(&self, other: &Self) -> (same: bool) {
        *self == *other
    }
}

spec fn key_of(addr: SocketAddr) -> PeerKey {
    PeerKey { ip: addr.ip_spec(), port: addr.port_spec() }
}

fn key(addr: &SocketAddr) -> (key: PeerKey)
    ensures
        key == key_of(*addr),
{
    PeerKey { ip: addr.ip(), port: addr.port() }
}

/// The known peers.
#[derive(Debug)]
pub struct KnownPeers {
    keys: KeySet<PeerKey>,
}

impl KnownPeers {
    /// The addresses that the database gives back.
    pub closed spec fn view(self) -> Set<SocketAddr> {
        Set::new(|addr: SocketAddr| addr == stored(addr) && self.keys@.contains(key_of(addr)))
    }

    pub fn new() -> (known: Self)
        ensures
            known@ == Set::<SocketAddr>::empty(),
    {
        let known = KnownPeers { keys: KeySet::new() };
        assert(known@ =~= Set::<SocketAddr>::empty());
        known
    }

    /// The number of known peers.
    pub fn len(&self) -> (len: usize)
        ensures
            len == self@.len(),
            self@.finite(),
    {
        let addrs = self.addrs();
        proof {
            lemma_no_duplicates(addrs@, self@);
            addrs@.unique_seq_to_set();
        }
        addrs.len()
    }

    pub fn contains(&self, addr: &SocketAddr) -> (contains: bool)
        ensures
            contains == self@.contains(stored(*addr)),
    {
        self.keys.contains(&key(addr))
    }

    /// Keep an address. Says whether it was missing.
    pub fn insert(&mut self, addr: SocketAddr) -> (inserted: bool)
        ensures
            final(self)@ == old(self)@.insert(stored(addr)),
            inserted == !old(self)@.contains(stored(addr)),
    {
        let inserted = self.keys.insert(key(&addr));
        assert(self@ =~= old(self)@.insert(stored(addr)));
        inserted
    }

    /// Delete an address. Says whether it was there.
    pub fn remove(&mut self, addr: &SocketAddr) -> (removed: bool)
        ensures
            final(self)@ == old(self)@.remove(stored(*addr)),
            removed == old(self)@.contains(stored(*addr)),
    {
        let removed = self.keys.remove(&key(addr));
        assert(self@ =~= old(self)@.remove(stored(*addr)));
        removed
    }

    /// The known peers in the order of their keys.
    pub fn addrs(&self) -> (addrs: Vec<SocketAddr>)
        ensures
            in_key_order(addrs@, self@),
    {
        let len = self.keys.len();
        let mut addrs: Vec<SocketAddr> = Vec::new();
        let mut i: usize = 0;
        while i < len
            invariant
                i <= len,
                len == self.keys.keys().len(),
                self.keys.keys().no_duplicates(),
                forall|a: int, b: int|
                    0 <= a < b < addrs@.len() ==> key_before(
                        #[trigger] addrs@[a],
                        #[trigger] addrs@[b],
                    ),
                forall|addr: SocketAddr| #[trigger]
                    addrs@.contains(addr) <==> addr == stored(addr) && self.keys.keys().take(
                        i as int,
                    ).contains(key_of(addr)),
            decreases len - i,
        {
            let next = *self.keys.at(i);
            let addr = SocketAddr::new(next.ip, next.port);
            let ghost taken = self.keys.keys().take(i as int);
            let ghost before = addrs@;
            proof {
                assert(key_of(addr) == next && addr == stored(addr));
                assert(self.keys.keys()[i as int] == next);
                assert(!taken.contains(next)) by {
                    if taken.contains(next) {
                        assert(self.keys.keys()[taken.index_of(next)] == next);
                    }
                }
                assert(!before.contains(addr));
            }
            let mut place: usize = 0;
            while place < addrs.len() && is_key_before(&addrs[place], &addr)
                invariant
                    place <= addrs@.len(),
                    addrs@ == before,
                    forall|a: int| 0 <= a < place ==> key_before(#[trigger] before[a], addr),
                decreases addrs@.len() - place,
            {
                place += 1;
            }
            proof {
                assert forall|b: int| place <= b < before.len() implies key_before(
                    addr,
                    #[trigger] before[b],
                ) by {
                    assert(before.contains(before[place as int]));
                    lemma_key_order_is_total(addr, before[place as int]);
                    if b > place {
                        lemma_key_order_is_transitive(addr, before[place as int], before[b]);
                    }
                }
            }
            addrs.insert(place, addr);
            proof {
                let more = self.keys.keys().take(i + 1);
                assert(addrs@ == before.insert(place as int, addr));
                assert(more =~= taken.push(next));
                assert forall|other: SocketAddr| #[trigger] addrs@.contains(other) <==> other
                    == stored(other) && more.contains(key_of(other)) by {
                    if before.contains(other) {
                        let at = before.index_of(other);
                        assert(addrs@[if at < place {
                            at
                        } else {
                            at + 1
                        }] == other);
                        assert(more[taken.index_of(key_of(other))] == key_of(other));
                    }
                    assert(addrs@[place as int] == addr);
                    assert(more[i as int] == next);
                    if addrs@.contains(other) && other != addr {
                        let at = addrs@.index_of(other);
                        assert(before[if at < place {
                            at
                        } else {
                            at - 1
                        }] == other);
                    }
                    if more.contains(key_of(other)) && key_of(other) != next {
                        assert(taken[more.index_of(key_of(other))] == key_of(other));
                    }
                }
            }
            i += 1;
        }
        proof {
            assert(self.keys.keys().take(len as int) =~= self.keys.keys());
            assert forall|addr: SocketAddr| #[trigger]
                addrs@.to_set().contains(addr) <==> self@.contains(addr) by {
                assert(addrs@.contains(addr) <==> addrs@.to_set().contains(addr));
                assert(self.keys@.contains(key_of(addr)) <==> self.keys.keys().contains(
                    key_of(addr),
                ));
            }
            assert(addrs@.to_set() =~= self@);
        }
        addrs
    }
}

/// Of two different addresses that the database gives back, the key of one comes
/// before that of the other.
proof fn lemma_key_order_is_total(a: SocketAddr, b: SocketAddr)
    requires
        a == stored(a),
        b == stored(b),
    ensures
        a == b || key_before(a, b) || key_before(b, a),
{
}

proof fn lemma_key_order_is_transitive(a: SocketAddr, b: SocketAddr, c: SocketAddr)
    requires
        key_before(a, b),
        key_before(b, c),
    ensures
        key_before(a, c),
{
}

/// A list in the order of the keys names no peer twice.
pub proof fn lemma_no_duplicates(addrs: Seq<SocketAddr>, known: Set<SocketAddr>)
    requires
        in_key_order(addrs, known),
    ensures
        addrs.no_duplicates(),
{
    assert forall|i: int, j: int| 0 <= i < addrs.len() && 0 <= j < addrs.len() && i != j implies
        addrs[i] != addrs[j] by {
        if i < j {
            assert(key_before(addrs[i], addrs[j]));
        } else {
            assert(key_before(addrs[j], addrs[i]));
        }
    }
}

/// There is one list of a set of peers in the order of the keys.
pub proof fn law_key_order_is_unique(a: Seq<SocketAddr>, b: Seq<SocketAddr>, known: Set<SocketAddr>)
    requires
        in_key_order(a, known),
        in_key_order(b, known),
    ensures
        a == b,
    decreases a.len(),
{
    lemma_no_duplicates(a, known);
    lemma_no_duplicates(b, known);
    a.unique_seq_to_set();
    b.unique_seq_to_set();
    if a.len() > 0 {
        let (first_a, first_b) = (a[0], b[0]);
        assert(a.to_set().contains(first_a) && b.to_set().contains(first_b));
        assert(b.contains(first_a) && a.contains(first_b));
        let (i, j) = (b.index_of(first_a), a.index_of(first_b));
        if i > 0 {
            assert(key_before(b[0], b[i]));
            if j > 0 {
                assert(key_before(a[0], a[j]));
            }
        }
        assert(first_a == first_b);
        let rest = known.remove(first_a);
        lemma_rest(a, known);
        lemma_rest(b, known);
        law_key_order_is_unique(a.skip(1), b.skip(1), rest);
        assert(a =~= seq![first_a] + a.skip(1));
        assert(b =~= seq![first_b] + b.skip(1));
    } else {
        assert(a =~= b);
    }
}

proof fn lemma_rest(addrs: Seq<SocketAddr>, known: Set<SocketAddr>)
    requires
        in_key_order(addrs, known),
        addrs.len() > 0,
    ensures
        in_key_order(addrs.skip(1), known.remove(addrs[0])),
{
    lemma_no_duplicates(addrs, known);
    let rest = addrs.skip(1);
    assert forall|addr: SocketAddr| rest.to_set().contains(addr) <==> known.remove(
        addrs[0],
    ).contains(addr) by {
        assert(addrs.to_set().contains(addr) <==> addrs.contains(addr));
        if rest.contains(addr) {
            assert(addrs[rest.index_of(addr) + 1] == addr);
        }
        if addrs.contains(addr) && addr != addrs[0] {
            assert(rest[addrs.index_of(addr) - 1] == addr);
        }
    }
    assert(rest.to_set() =~= known.remove(addrs[0]));
}

/// The database gives an address back without flow information and scope.
pub proof fn law_stored_address_has_ip_and_port(addr: SocketAddr)
    ensures
        stored(addr) == match addr {
            SocketAddr::V4 { ip, port } => SocketAddr::V4 { ip, port },
            SocketAddr::V6 { ip, port, .. } => SocketAddr::V6 {
                ip,
                port,
                flowinfo: 0,
                scope_id: 0,
            },
        },
        stored(stored(addr)) == stored(addr),
{
}

/// Keys are ordered by their bytes: IPv4 before IPv6, then the IP address, then the
/// low byte of the port, and then its high byte.
pub proof fn law_keys_are_ordered_by_their_bytes(a: SocketAddr, b: SocketAddr)
    ensures
        ({
            let ports = {
                let (p, q) = (a.port_spec(), b.port_spec());
                p % 256 < q % 256 || (p % 256 == q % 256 && p / 256 < q / 256)
            };
            key_before(a, b) <==> match (a, b) {
                (SocketAddr::V4 { .. }, SocketAddr::V6 { .. }) => true,
                (SocketAddr::V6 { .. }, SocketAddr::V4 { .. }) => false,
                (SocketAddr::V4 { ip: x, .. }, SocketAddr::V4 { ip: y, .. }) => x < y || (x == y
                    && ports),
                (SocketAddr::V6 { ip: x, .. }, SocketAddr::V6 { ip: y, .. }) => x < y || (x == y
                    && ports),
            }
        }),
        !key_before(a, a),
        key_before(a, b) ==> !key_before(b, a),
        stored(a) != stored(b) ==> key_before(a, b) || key_before(b, a),
{
}

} // verus!
