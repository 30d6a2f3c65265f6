//! Network addresses, and the addresses of seeds before and after their names
//! are resolved.

use vstd::prelude::*;

use crate::table::Key;

verus! {

/// An IP address.
#[derive(Clone, Copy, Debug, PartialEq, Eq, PartialOrd, Ord, Hash, Structural)]
pub enum IpAddr {
    V4(u32),
    V6(u128),
}

impl IpAddr {
    /// Whether this is `0.0.0.0` or `::`.
    pub open spec fn unspecified(self) -> bool {
        match self {
            IpAddr::V4(bits) => bits == 0,
            IpAddr::V6(bits) => bits == 0,
        }
    }

    pub fn is_unspecified(&self) -> (unspecified: bool)
        ensures
            unspecified == self.unspecified(),
    {
        match *self {
            IpAddr::V4(bits) => bits == 0,
            IpAddr::V6(bits) => bits == 0,
        }
    }
}

/// The IPv4 address that is written `a.b.c.d`.
pub open spec fn ipv4_spec(a: u8, b: u8, c: u8, d: u8) -> int {
    a * 0x1000000 + b * 0x10000 + c * 0x100 + d
}

pub fn ipv4(a: u8, b: u8, c: u8, d: u8) -> (bits: u32)
    ensures
        bits == ipv4_spec(a, b, c, d),
{
    a as u32 * 0x1000000u32 + b as u32 * 0x10000u32 + c as u32 * 0x100u32 + d as u32
}

/// An IP address with a port.
#[derive(Clone, Copy, Debug, PartialEq, Eq, PartialOrd, Ord, Hash, Structural)]
#[allow(inconsistent_fields)]
pub enum SocketAddr {
    V4 { ip: u32, port: u16 },
    V6 { ip: u128, port: u16, flowinfo: u32, scope_id: u32 },
}

/// The socket address with a given IP address and port, and no flow
/// information or scope.
pub open spec fn socket_addr_of(ip: IpAddr, port: u16) -> SocketAddr {
    match ip {
        IpAddr::V4(ip) => SocketAddr::V4 { ip, port },
        IpAddr::V6(ip) => SocketAddr::V6 { ip, port, flowinfo: 0, scope_id: 0 },
    }
}

impl SocketAddr {
    pub open spec fn ip_spec(self) -> IpAddr {
        match self {
            SocketAddr::V4 { ip, .. } => IpAddr::V4(ip),
            SocketAddr::V6 { ip, .. } => IpAddr::V6(ip),
        }
    }

    pub open spec fn port_spec(self) -> u16 {
        match self {
            SocketAddr::V4 { port, .. } => port,
            SocketAddr::V6 { port, .. } => port,
        }
    }

    pub fn new(ip: IpAddr, port: u16) -> (addr: Self)
        ensures
            addr == socket_addr_of(ip, port),
    {
        match ip {
            IpAddr::V4(ip) => SocketAddr::V4 { ip, port },
            IpAddr::V6(ip) => SocketAddr::V6 { ip, port, flowinfo: 0, scope_id: 0 },
        }
    }

    pub fn ip(&self) -> (ip: IpAddr)
        ensures
            ip == self.ip_spec(),
    {
        match *self {
            SocketAddr::V4 { ip, .. } => IpAddr::V4(ip),
            SocketAddr::V6 { ip, .. } => IpAddr::V6(ip),
        }
    }

    pub fn port(&self) -> (port: u16)
        ensures
            port == self.port_spec(),
    {
        match *self {
            SocketAddr::V4 { port, .. } => port,
            SocketAddr::V6 { port, .. } => port,
        }
    }
}

impl Key for SocketAddr {
    fn same(&self, other: &Self) -> (same: bool) {
        *self == *other
    }
}

/// The host that a seed names.
#[derive(Debug)]
pub enum Host {
    Domain(String),
    Ipv4(u32),
    Ipv6(u128),
}

/// What a host is, its domain as a list of characters.
pub enum HostView {
    Domain(Seq<char>),
    Ip(IpAddr),
}

impl Host {
    pub open spec fn view(self) -> HostView {
        match self {
            Host::Domain(domain) => HostView::Domain(domain@),
            Host::Ipv4(bits) => HostView::Ip(IpAddr::V4(bits)),
            Host::Ipv6(bits) => HostView::Ip(IpAddr::V6(bits)),
        }
    }
}

impl Clone for Host {
    fn clone(&self) -> (host: Self)
        ensures
            host@ == self@,
    {
        match self {
            Host::Domain(domain) => Host::Domain(domain.clone()),
            Host::Ipv4(bits) => Host::Ipv4(*bits),
            Host::Ipv6(bits) => Host::Ipv6(*bits),
        }
    }
}

/// The address of a seed: a host and a port.
#[derive(Debug)]
pub struct SeedAddress {
    pub host: Host,
    pub port: u16,
}

pub struct SeedAddressView {
    pub host: HostView,
    pub port: u16,
}

impl SeedAddressView {
    /// The socket address of a seed that is named by its IP address.
    pub open spec fn socket_addr(self) -> Option<SocketAddr> {
        match self.host {
            HostView::Domain(_) => None,
            HostView::Ip(ip) => Some(socket_addr_of(ip, self.port)),
        }
    }
}

impl SeedAddress {
    pub open spec fn view(self) -> SeedAddressView {
        SeedAddressView { host: self.host@, port: self.port }
    }

    /// The socket address of a seed that is named by its IP address.
    pub fn socket_addr(&self) -> (addr: Option<SocketAddr>)
        ensures
            addr == self@.socket_addr(),
    {
        match self.host {
            Host::Domain(_) => None,
            Host::Ipv4(bits) => Some(SocketAddr::new(IpAddr::V4(bits), self.port)),
            Host::Ipv6(bits) => Some(SocketAddr::new(IpAddr::V6(bits), self.port)),
        }
    }

    pub fn same(&self, other: &Self) -> (same: bool)
        ensures
            same == (self@ == other@),
    {
        let same_host = match (&self.host, &other.host) {
            (Host::Domain(a), Host::Domain(b)) => *a == *b,
            (Host::Ipv4(a), Host::Ipv4(b)) => *a == *b,
            (Host::Ipv6(a), Host::Ipv6(b)) => *a == *b,
            _ => false,
        };
        same_host && self.port == other.port
    }
}

impl Clone for SeedAddress {
    fn clone(&self) -> (seed: Self)
        ensures
            seed@ == self@,
    {
        SeedAddress { host: self.host.clone(), port: self.port }
    }
}

/// A list that holds at least one item.
#[verifier::external_type_specification]
#[verifier::external_body]
#[verifier::reject_recursive_types(T)]
pub struct ExNonEmpty<T>(nonempty::NonEmpty<T>);

/// The IP addresses that a non-empty list holds, the head first.
pub uninterp spec fn listed(addrs: nonempty::NonEmpty<IpAddr>) -> Seq<IpAddr>;

/// Builds a `nonempty::NonEmpty` of its two public fields, and claims that it
/// holds the head and then the tail.
#[verifier::external_body]
fn list_of(head: IpAddr, tail: Vec<IpAddr>) -> (addrs: nonempty::NonEmpty<IpAddr>)
    ensures
        listed(addrs) == seq![head] + tail@,
{
    nonempty::NonEmpty { head, tail }
}

/// Calls `nonempty::NonEmpty::last`, and claims that the list is not empty and
/// that its last item comes back.
#[verifier::external_body]
fn last_of(addrs: &nonempty::NonEmpty<IpAddr>) -> (last: IpAddr)
    ensures
        last == listed(*addrs).last(),
        listed(*addrs).contains(last),
{
    *addrs.last()
}

/// Calls `nonempty::NonEmpty::pop`, and claims that it takes the last item out
/// of a list that holds more than one, and leaves any other list alone.
#[verifier::external_body]
fn pop_of(addrs: &mut nonempty::NonEmpty<IpAddr>) -> (popped: Option<IpAddr>)
    ensures
        match popped {
            Some(popped) => {
                &&& listed(*old(addrs)).len() > 1
                &&& popped == listed(*old(addrs)).last()
                &&& listed(*final(addrs)) == listed(*old(addrs)).drop_last()
            },
            None => listed(*old(addrs)).len() == 1 && *final(addrs) == *old(addrs),
        },
{
    addrs.pop()
}

/// Copies a `nonempty::NonEmpty` into a `Vec` by the conversion of its crate,
/// and claims that the items come out in order.
#[verifier::external_body]
fn items_of(addrs: &nonempty::NonEmpty<IpAddr>) -> (items: Vec<IpAddr>)
    ensures
        items@ == listed(*addrs),
        items@.len() > 0,
{
    Vec::from(addrs.clone())
}

/// A seed address whose name, if it has one, is resolved.
#[derive(Debug)]
pub enum ResolvedSeedAddress {
    /// An IP address that needs no resolution.
    Static(SocketAddr),
    /// A name with the addresses that it resolved to. The address to try first
    /// is the last one of the list.
    Domain { domain: String, port: u16, addrs: nonempty::NonEmpty<IpAddr> },
}

/// What a resolved seed address says.
#[verifier::ext_equal]
pub enum ResolvedView {
    Static(SocketAddr),
    /// The addresses in the order in which they are tried.
    Domain { domain: Seq<char>, port: u16, ips: Seq<IpAddr> },
}

impl ResolvedView {
    pub open spec fn port(self) -> u16 {
        match self {
            ResolvedView::Static(addr) => addr.port_spec(),
            ResolvedView::Domain { port, .. } => port,
        }
    }

    /// The IP addresses, in the order in which they are tried.
    pub open spec fn ips(self) -> Seq<IpAddr> {
        match self {
            ResolvedView::Static(addr) => seq![addr.ip_spec()],
            ResolvedView::Domain { ips, .. } => ips,
        }
    }

    /// The socket address to try after `i` others.
    pub open spec fn addr(self, i: int) -> SocketAddr {
        socket_addr_of(self.ips()[i], self.port())
    }

    /// What is left once the first address was tried.
    pub open spec fn rest(self) -> Option<ResolvedView> {
        match self {
            ResolvedView::Static(_) => None,
            ResolvedView::Domain { domain, port, ips } => if ips.len() > 1 {
                Some(ResolvedView::Domain { domain, port, ips: ips.skip(1) })
            } else {
                None
            },
        }
    }

    /// What is left once the first `n` addresses were tried.
    pub open spec fn after(self, n: int) -> ResolvedView {
        match self {
            ResolvedView::Static(addr) => self,
            ResolvedView::Domain { domain, port, ips } => ResolvedView::Domain {
                domain,
                port,
                ips: ips.skip(n),
            },
        }
    }

    /// The name that the peer is asked to prove: the domain, where there is one.
    pub open spec fn server_name(self) -> Seq<char> {
        match self {
            ResolvedView::Static(_) => "localhost"@,
            ResolvedView::Domain { domain, .. } => domain,
        }
    }

    /// There is always an address to try.
    pub open spec fn valid(self) -> bool {
        self.ips().len() > 0
    }
}

impl ResolvedSeedAddress {
    pub open spec fn view(self) -> ResolvedView {
        match self {
            ResolvedSeedAddress::Static(addr) => ResolvedView::Static(addr),
            ResolvedSeedAddress::Domain { domain, port, addrs } => ResolvedView::Domain {
                domain: domain@,
                port,
                ips: listed(addrs).reverse(),
            },
        }
    }

    pub fn port(&self) -> (port: u16)
        ensures
            port == self@.port(),
    {
        match self {
            ResolvedSeedAddress::Static(addr) => addr.port(),
            ResolvedSeedAddress::Domain { port, .. } => *port,
        }
    }

    /// The host, by its name where it has one.
    pub fn host(&self) -> (host: Host)
        ensures
            host@ == match self@ {
                ResolvedView::Static(addr) => HostView::Ip(addr.ip_spec()),
                ResolvedView::Domain { domain, .. } => HostView::Domain(domain),
            },
    {
        match self {
            ResolvedSeedAddress::Static(addr) => match addr.ip() {
                IpAddr::V4(bits) => Host::Ipv4(bits),
                IpAddr::V6(bits) => Host::Ipv6(bits),
            },
            ResolvedSeedAddress::Domain { domain, .. } => Host::Domain(domain.clone()),
        }
    }

    /// The IP addresses, in the order in which they are tried.
    pub fn ip_addrs(&self) -> (ips: Vec<IpAddr>)
        ensures
            ips@ == self@.ips(),
            self@.valid(),
    {
        match self {
            ResolvedSeedAddress::Static(addr) => {
                let mut ips: Vec<IpAddr> = Vec::new();
                ips.push(addr.ip());
                ips
            },
            ResolvedSeedAddress::Domain { addrs, .. } => {
                let items = items_of(addrs);
                reversed(&items)
            },
        }
    }

    pub fn first_ip_addr(&self) -> (ip: IpAddr)
        ensures
            ip == self@.ips()[0],
            self@.valid(),
    {
        match self {
            ResolvedSeedAddress::Static(addr) => addr.ip(),
            ResolvedSeedAddress::Domain { addrs, .. } => last_of(addrs),
        }
    }

    /// The first IP address, and what is left once it was tried.
    pub fn pop_first_ip_addr(self) -> (popped: (IpAddr, Option<ResolvedSeedAddress>))
        ensures
            self@.valid(),
            popped.0 == self@.ips()[0],
            match popped.1 {
                Some(rest) => self@.rest() == Some(rest@),
                None => self@.rest() is None,
            },
    {
        match self {
            ResolvedSeedAddress::Static(addr) => (addr.ip(), None),
            ResolvedSeedAddress::Domain { domain, port, addrs } => {
                let mut addrs = addrs;
                let ghost all = listed(addrs);
                let last = last_of(&addrs);
                match pop_of(&mut addrs) {
                    Some(popped) => {
                        proof {
                            assert(all.drop_last().reverse() =~= all.reverse().skip(1));
                        }
                        (popped, Some(ResolvedSeedAddress::Domain { domain, port, addrs }))
                    },
                    None => (last, None),
                }
            },
        }
    }

    /// The name that the peer is asked to prove.
    pub fn server_name(&self) -> (name: String)
        ensures
            name@ == self@.server_name(),
    {
        match self {
            ResolvedSeedAddress::Static(_) => "localhost".to_string(),
            ResolvedSeedAddress::Domain { domain, .. } => domain.clone(),
        }
    }
}

impl From<SocketAddr> for ResolvedSeedAddress {
    fn from(addr: SocketAddr) -> (resolved: ResolvedSeedAddress) {
        ResolvedSeedAddress::Static(addr)
    }
}

impl vstd::std_specs::convert::FromSpecImpl<SocketAddr> for ResolvedSeedAddress {
    open spec fn obeys_from_spec() -> bool {
        true
    }

    open spec fn from_spec(addr: SocketAddr) -> ResolvedSeedAddress {
        ResolvedSeedAddress::Static(addr)
    }
}

/// The items in the opposite order.
fn reversed(items: &Vec<IpAddr>) -> (reversed: Vec<IpAddr>)
    ensures
        reversed@ == items@.reverse(),
{
    let mut reversed: Vec<IpAddr> = Vec::new();
    let mut i: usize = items.len();
    while i > 0
        invariant
            i <= items@.len(),
            reversed@ == items@.skip(i as int).reverse(),
        decreases i,
    {
        i -= 1;
        reversed.push(items[i]);
        proof {
            assert(items@.skip(i as int).reverse() =~= items@.skip(i + 1).reverse().push(
                items@[i as int],
            ));
        }
    }
    assert(items@.skip(0) =~= items@);
    reversed
}

/// Why a seed address could not be resolved.
#[derive(Debug)]
pub enum ResolveSeedAddress {
    /// The lookup failed, with the message of the resolver.
    Net(String),
    /// The lookup gave no address that can be dialed.
    NoIpAddrs { domain: String },
}

/// The addresses of a lookup that can be dialed.
pub open spec fn usable(ips: Seq<IpAddr>) -> Seq<IpAddr>
    decreases ips.len(),
{
    if ips.len() == 0 {
        Seq::empty()
    } else if ips.last().unspecified() {
        usable(ips.drop_last())
    } else {
        usable(ips.drop_last()).push(ips.last())
    }
}

/// The name that has to be looked up for a seed, if it is named by one.
pub fn lookup_name(seed_addr: &SeedAddress) -> (name: Option<String>)
    ensures
        match name {
            Some(name) => seed_addr@.host == HostView::Domain(name@),
            None => seed_addr@.host is Ip,
        },
{
    match &seed_addr.host {
        Host::Domain(domain) => Some(domain.clone()),
        _ => None,
    }
}

/// Resolve a seed address, given what the lookup of its name gave. A seed that
/// is named by its IP address needs no lookup.
pub fn resolve_seed_address(
    seed_addr: SeedAddress,
    lookup: Result<Vec<IpAddr>, String>,
) -> (resolved: Result<ResolvedSeedAddress, ResolveSeedAddress>)
    ensures
        match seed_addr@.host {
            HostView::Ip(ip) => resolved matches Ok(resolved) && resolved@
                == ResolvedView::Static(socket_addr_of(ip, seed_addr.port)),
            HostView::Domain(domain) => match lookup {
                Err(message) => resolved == Err::<ResolvedSeedAddress, _>(
                    ResolveSeedAddress::Net(message),
                ),
                Ok(ips) => if usable(ips@).len() == 0 {
                    resolved matches Err(ResolveSeedAddress::NoIpAddrs { domain: name })
                        && name@ == domain
                } else {
                    resolved matches Ok(resolved) && resolved@ == (ResolvedView::Domain {
                        domain,
                        port: seed_addr.port,
                        ips: usable(ips@),
                    })
                },
            },
        },
{
    let domain = match seed_addr.host {
        Host::Ipv4(bits) => {
            return Ok(
                ResolvedSeedAddress::Static(SocketAddr::new(IpAddr::V4(bits), seed_addr.port)),
            );
        },
        Host::Ipv6(bits) => {
            return Ok(
                ResolvedSeedAddress::Static(SocketAddr::new(IpAddr::V6(bits), seed_addr.port)),
            );
        },
        Host::Domain(domain) => domain,
    };
    let ips = match lookup {
        Err(message) => {
            return Err(ResolveSeedAddress::Net(message));
        },
        Ok(ips) => ips,
    };
    let mut addrs: Vec<IpAddr> = Vec::new();
    let mut i: usize = 0;
    while i < ips.len()
        invariant
            i <= ips@.len(),
            addrs@ == usable(ips@.take(i as int)),
        decreases ips@.len() - i,
    {
        proof {
            assert(ips@.take(i + 1).drop_last() =~= ips@.take(i as int));
        }
        if !ips[i].is_unspecified() {
            addrs.push(ips[i]);
        }
        i += 1;
    }
    assert(ips@.take(ips@.len() as int) =~= ips@);
    let ghost all = addrs@;
    let last = match addrs.pop() {
        None => {
            return Err(ResolveSeedAddress::NoIpAddrs { domain });
        },
        Some(last) => last,
    };
    let tail = reversed(&addrs);
    proof {
        assert((seq![last] + all.drop_last().reverse()).reverse() =~= all);
    }
    Ok(
        ResolvedSeedAddress::Domain {
            domain,
            port: seed_addr.port,
            addrs: list_of(last, tail),
        },
    )
}

/// The unspecified addresses are `0.0.0.0` and `::`, and no other.
pub proof fn law_two_addresses_are_unspecified(ip: IpAddr)
    ensures
        ip.unspecified() <==> ip == IpAddr::V4(0) || ip == IpAddr::V6(0),
{
}

/// The four numbers of an IPv4 address are its bytes, the first one the highest.
pub proof fn law_ipv4_numbers_are_its_bytes(a: u8, b: u8, c: u8, d: u8)
    ensures
        ({
            let bits = ipv4_spec(a, b, c, d);
            &&& 0 <= bits <= u32::MAX
            &&& bits == ((a * 256 + b) * 256 + c) * 256 + d
        }),
{
}

/// A socket address is made of its IP address and its port, and has no flow
/// information and no scope.
pub proof fn law_socket_addr_has_ip_and_port(ip: IpAddr, port: u16, addr: SocketAddr)
    ensures
        socket_addr_of(ip, port) == match ip {
            IpAddr::V4(bits) => SocketAddr::V4 { ip: bits, port },
            IpAddr::V6(bits) => SocketAddr::V6 { ip: bits, port, flowinfo: 0, scope_id: 0 },
        },
        match addr {
            SocketAddr::V4 { ip, port } => addr.ip_spec() == IpAddr::V4(ip) && addr.port_spec()
                == port,
            SocketAddr::V6 { ip, port, .. } => addr.ip_spec() == IpAddr::V6(ip)
                && addr.port_spec() == port,
        },
{
}

/// A seed that is named by its IP address has the socket address of that IP address
/// and its port, and one that is named by a host name has none.
pub proof fn law_seed_socket_addr(seed: SeedAddressView)
    ensures
        match seed.host {
            HostView::Domain(_) => seed.socket_addr() is None,
            HostView::Ip(IpAddr::V4(ip)) => seed.socket_addr() == Some(
                SocketAddr::V4 { ip, port: seed.port },
            ),
            HostView::Ip(IpAddr::V6(ip)) => seed.socket_addr() == Some(
                SocketAddr::V6 { ip, port: seed.port, flowinfo: 0, scope_id: 0 },
            ),
        },
{
}

/// A peer that is named by its address has that one address, and is asked to prove
/// the name `localhost`; one with a host name has the addresses that the name
/// resolved to, and is asked to prove that name.
pub proof fn law_resolved_addresses(resolved: ResolvedView)
    ensures
        match resolved {
            ResolvedView::Static(addr) => {
                &&& resolved.ips() == seq![addr.ip_spec()]
                &&& resolved.port() == addr.port_spec()
                &&& resolved.server_name() == "localhost"@
                &&& resolved.rest() is None
            },
            ResolvedView::Domain { domain, port, ips } => {
                &&& resolved.ips() == ips
                &&& resolved.port() == port
                &&& resolved.server_name() == domain
                &&& forall|i: int|
                    0 <= i < ips.len() ==> #[trigger] resolved.addr(i) == socket_addr_of(
                        ips[i],
                        port,
                    )
                &&& ips.len() <= 1 ==> resolved.rest() is None
                &&& ips.len() > 1 ==> resolved.rest() == Some(
                    ResolvedView::Domain { domain, port, ips: ips.skip(1) },
                )
            },
        },
{
}

/// A lookup keeps the addresses that are not unspecified, in their order.
pub proof fn law_lookup_keeps_usable_addresses(ips: Seq<IpAddr>)
    ensures
        usable(ips) == ips.filter(|ip: IpAddr| ip != IpAddr::V4(0) && ip != IpAddr::V6(0)),
    decreases ips.len(),
{
    reveal(Seq::filter);
    if ips.len() > 0 {
        law_lookup_keeps_usable_addresses(ips.drop_last());
    }
}

} // verus!
