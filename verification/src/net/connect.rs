//! Starting a connection: the addresses of a peer are dialed in turn, until one
//! of them can be.

use vstd::prelude::*;

use crate::net::addr::{usable, IpAddr, ResolvedSeedAddress, ResolvedView, SocketAddr};
use crate::net::error::{ConnectError, Error};

verus! {

/// What to do next to connect to a peer.
#[derive(Debug)]
pub enum ConnectStep {
    /// Start a connection to `addr`, then call [`dialed`] with the outcome.
    Dial { addr: SocketAddr, server_name: String, resolved_addr: ResolvedSeedAddress },
    /// The connection to `addr` started. `store` is to be kept among the known
    /// peers.
    Started { addr: SocketAddr, store: Option<SocketAddr>, resolved_addr: ResolvedSeedAddress },
}

/// What comes of an attempt to connect to a peer.
pub enum ConnectView {
    Dial { addr: SocketAddr, server_name: Seq<char>, resolved_addr: ResolvedView },
    Started { addr: SocketAddr, store: Option<SocketAddr>, resolved_addr: ResolvedView },
    Failed(Error),
}

impl ConnectStep {
    pub open spec fn view(self) -> ConnectView {
        match self {
            ConnectStep::Dial { addr, server_name, resolved_addr } => ConnectView::Dial {
                addr,
                server_name: server_name@,
                resolved_addr: resolved_addr@,
            },
            ConnectStep::Started { addr, store, resolved_addr } => ConnectView::Started {
                addr,
                store,
                resolved_addr: resolved_addr@,
            },
        }
    }
}

/// What a step, or the failure to make one, says.
pub open spec fn connect_view(step: Result<ConnectStep, Error>) -> ConnectView {
    match step {
        Ok(step) => step@,
        Err(err) => ConnectView::Failed(err),
    }
}

/// The first address is dialed, unless it is unspecified.
pub open spec fn first_dial(resolved_addr: ResolvedView) -> ConnectView {
    let addr = resolved_addr.addr(0);
    if addr.ip_spec().unspecified() {
        ConnectView::Failed(Error::UnspecfiedPeerIP(addr.ip_spec()))
    } else {
        ConnectView::Dial { addr, server_name: resolved_addr.server_name(), resolved_addr }
    }
}

/// A host name resolves again at each start, so only an IP address is kept.
pub open spec fn stored_addr(resolved_addr: ResolvedView) -> Option<SocketAddr> {
    match resolved_addr {
        ResolvedView::Static(addr) => Some(addr),
        ResolvedView::Domain { .. } => None,
    }
}

/// An address that cannot be dialed from here gives way to the next one. Any
/// other failure ends the attempt.
pub open spec fn next_dial(
    resolved_addr: ResolvedView,
    outcome: Result<(), ConnectError>,
) -> ConnectView {
    match outcome {
        Ok(()) => ConnectView::Started {
            addr: resolved_addr.addr(0),
            store: stored_addr(resolved_addr),
            resolved_addr,
        },
        Err(err) => match (err, resolved_addr.rest()) {
            (ConnectError::InvalidRemoteAddress(_), Some(rest)) => first_dial(rest),
            _ => ConnectView::Failed(Error::Connect(err)),
        },
    }
}

/// Dial the first address.
pub fn dial_first(resolved_addr: ResolvedSeedAddress) -> (step: Result<ConnectStep, Error>)
    ensures
        connect_view(step) == first_dial(resolved_addr@),
        resolved_addr@.valid(),
{
    let addr = SocketAddr::new(resolved_addr.first_ip_addr(), resolved_addr.port());
    // The endpoint would call an unspecified address invalid without saying why.
    if addr.ip().is_unspecified() {
        return Err(Error::UnspecfiedPeerIP(addr.ip()));
    }
    let server_name = resolved_addr.server_name();
    Ok(ConnectStep::Dial { addr, server_name, resolved_addr })
}

/// Go on after the first address was dialed.
pub fn dialed(
    resolved_addr: ResolvedSeedAddress,
    outcome: Result<(), ConnectError>,
) -> (step: Result<ConnectStep, Error>)
    ensures
        connect_view(step) == next_dial(resolved_addr@, outcome),
{
    match outcome {
        Ok(()) => {
            let addr = SocketAddr::new(resolved_addr.first_ip_addr(), resolved_addr.port());
            let store = match &resolved_addr {
                ResolvedSeedAddress::Static(static_addr) => Some(*static_addr),
                ResolvedSeedAddress::Domain { .. } => None,
            };
            Ok(ConnectStep::Started { addr, store, resolved_addr })
        },
        Err(ConnectError::InvalidRemoteAddress(addr)) => {
            let (_, next_addr) = resolved_addr.pop_first_ip_addr();
            match next_addr {
                Some(next_addr) => dial_first(next_addr),
                None => Err(Error::Connect(ConnectError::InvalidRemoteAddress(addr))),
            }
        },
        Err(err) => Err(Error::Connect(err)),
    }
}

/// What comes of dialing a peer when the dials turn out as given.
pub open spec fn dial_run(
    resolved_addr: ResolvedView,
    outcomes: Seq<Result<(), ConnectError>>,
) -> ConnectView
    decreases outcomes.len(),
{
    match first_dial(resolved_addr) {
        ConnectView::Dial { .. } if outcomes.len() > 0 => {
            match next_dial(resolved_addr, outcomes[0]) {
                ConnectView::Dial { resolved_addr: rest, .. } => dial_run(rest, outcomes.skip(1)),
                end => end,
            }
        },
        step => step,
    }
}

/// An outcome that lets the next address be tried.
pub open spec fn invalid_remote(outcome: Result<(), ConnectError>) -> bool {
    outcome matches Err(ConnectError::InvalidRemoteAddress(_))
}

/// The addresses of a peer are dialed in order: as long as each of the first
/// `n` turns out to be invalid, and none is unspecified, the next one is dialed
/// under the same server name.
pub proof fn law_addresses_are_dialed_in_order(
    resolved_addr: ResolvedView,
    outcomes: Seq<Result<(), ConnectError>>,
)
    requires
        outcomes.len() < resolved_addr.ips().len(),
        forall|i: int| 0 <= i < outcomes.len() ==> invalid_remote(#[trigger] outcomes[i]),
        forall|i: int|
            0 <= i <= outcomes.len() ==> !(#[trigger] resolved_addr.ips()[i]).unspecified(),
    ensures
        dial_run(resolved_addr, outcomes) == (ConnectView::Dial {
            addr: resolved_addr.addr(outcomes.len() as int),
            server_name: resolved_addr.server_name(),
            resolved_addr: resolved_addr.after(outcomes.len() as int),
        }),
    decreases outcomes.len(),
{
    assert(!resolved_addr.ips()[0].unspecified());
    if outcomes.len() == 0 {
        match resolved_addr {
            ResolvedView::Static(_) => {},
            ResolvedView::Domain { domain, port, ips } => {
                assert(ips.skip(0) =~= ips);
            },
        }
    } else {
        assert(invalid_remote(outcomes[0]));
        match resolved_addr {
            ResolvedView::Static(_) => {},
            ResolvedView::Domain { domain, port, ips } => {
                let rest = ResolvedView::Domain { domain, port, ips: ips.skip(1) };
                let later = outcomes.skip(1);
                assert(resolved_addr.rest() == Some(rest));
                assert forall|i: int| 0 <= i < later.len() implies invalid_remote(
                    #[trigger] later[i],
                ) by {
                    assert(later[i] == outcomes[i + 1]);
                }
                assert forall|i: int| 0 <= i <= later.len() implies !(
                #[trigger] rest.ips()[i]).unspecified() by {
                    assert(rest.ips()[i] == resolved_addr.ips()[i + 1]);
                }
                assert(!resolved_addr.ips()[1].unspecified());
                assert(rest.ips()[0] == resolved_addr.ips()[1]);
                law_addresses_are_dialed_in_order(rest, later);
                assert(ips.skip(1).skip(later.len() as int) =~= ips.skip(outcomes.len() as int));
            },
        }
    }
}

/// An attempt on addresses that are all invalid fails with what the last dial
/// said.
pub proof fn law_last_invalid_address_is_reported(
    resolved_addr: ResolvedView,
    outcomes: Seq<Result<(), ConnectError>>,
)
    requires
        resolved_addr.valid(),
        outcomes.len() == resolved_addr.ips().len(),
        forall|i: int| 0 <= i < outcomes.len() ==> invalid_remote(#[trigger] outcomes[i]),
        forall|i: int|
            0 <= i < outcomes.len() ==> !(#[trigger] resolved_addr.ips()[i]).unspecified(),
    ensures
        dial_run(resolved_addr, outcomes) == ConnectView::Failed(
            Error::Connect(outcomes.last()->Err_0),
        ),
    decreases outcomes.len(),
{
    assert(!resolved_addr.ips()[0].unspecified());
    assert(invalid_remote(outcomes[0]));
    match resolved_addr {
        ResolvedView::Static(_) => {},
        ResolvedView::Domain { domain, port, ips } => {
            if ips.len() > 1 {
                let rest = ResolvedView::Domain { domain, port, ips: ips.skip(1) };
                let later = outcomes.skip(1);
                assert(resolved_addr.rest() == Some(rest));
                assert forall|i: int| 0 <= i < later.len() implies invalid_remote(
                    #[trigger] later[i],
                ) by {
                    assert(later[i] == outcomes[i + 1]);
                }
                assert forall|i: int| 0 <= i < later.len() implies !(
                #[trigger] rest.ips()[i]).unspecified() by {
                    assert(rest.ips()[i] == resolved_addr.ips()[i + 1]);
                }
                assert(rest.ips()[0] == resolved_addr.ips()[1]);
                law_last_invalid_address_is_reported(rest, later);
                assert(later.last() == outcomes.last());
            }
        },
    }
}

/// A lookup keeps exactly the addresses that can be dialed, so that a name that
/// was resolved is always dialed first at an address that it resolved to.
pub proof fn law_resolved_names_can_be_dialed(
    domain: Seq<char>,
    port: u16,
    ips: Seq<IpAddr>,
    ip: IpAddr,
)
    ensures
        usable(ips).contains(ip) <==> ips.contains(ip) && !ip.unspecified(),
        usable(ips).len() > 0 ==> first_dial(
            ResolvedView::Domain { domain, port, ips: usable(ips) },
        ) is Dial,
{
    lemma_usable(ips, ip);
    if usable(ips).len() > 0 {
        lemma_usable(ips, usable(ips)[0]);
        assert(usable(ips).contains(usable(ips)[0]));
    }
}

proof fn lemma_usable(ips: Seq<IpAddr>, ip: IpAddr)
    ensures
        usable(ips).contains(ip) <==> ips.contains(ip) && !ip.unspecified(),
    decreases ips.len(),
{
    if ips.len() > 0 {
        let before = ips.drop_last();
        let last = ips.last();
        lemma_usable(before, ip);
        assert(ips.contains(ip) <==> before.contains(ip) || ip == last) by {
            if ips.contains(ip) {
                let i = ips.index_of(ip);
                if i < before.len() {
                    assert(before[i] == ip);
                }
            }
            if before.contains(ip) {
                assert(ips[before.index_of(ip)] == ip);
            }
            assert(ips[ips.len() - 1] == last);
        }
        let kept = usable(before);
        assert(kept.push(last).contains(ip) <==> kept.contains(ip) || ip == last) by {
            if kept.push(last).contains(ip) {
                let i = kept.push(last).index_of(ip);
                if i < kept.len() {
                    assert(kept[i] == ip);
                }
            }
            if kept.contains(ip) {
                assert(kept.push(last)[kept.index_of(ip)] == ip);
            }
            assert(kept.push(last)[kept.len() as int] == last);
        }
    }
}

/// No address that a host name resolved to is ever kept, and an attempt that
/// starts with an IP address keeps that one or none.
pub proof fn law_only_static_addresses_are_kept(
    resolved_addr: ResolvedView,
    outcomes: Seq<Result<(), ConnectError>>,
)
    requires
        resolved_addr.valid(),
    ensures
        dial_run(resolved_addr, outcomes) matches ConnectView::Started { store, .. } ==> store
            == stored_addr(resolved_addr),
    decreases outcomes.len(),
{
    if outcomes.len() > 0 {
        if let Some(rest) = resolved_addr.rest() {
            assert(rest.valid());
            law_only_static_addresses_are_kept(rest, outcomes.skip(1));
        }
    }
}

/// An address that is unspecified is not dialed. An address that was dialed is that
/// of the connection which started, and it is to be kept if the peer is named by
/// it. A dial that fails ends the attempt with that failure, unless the address was
/// invalid and there is another one.
pub proof fn law_one_dial(resolved_addr: ResolvedView, err: ConnectError)
    requires
        resolved_addr.valid(),
    ensures
        ({
            let addr = resolved_addr.addr(0);
            let ip = resolved_addr.ips()[0];
            let invalid = err is InvalidRemoteAddress;
            &&& ip == IpAddr::V4(0) || ip == IpAddr::V6(0) ==> first_dial(resolved_addr)
                == ConnectView::Failed(Error::UnspecfiedPeerIP(ip))
            &&& ip != IpAddr::V4(0) && ip != IpAddr::V6(0) ==> first_dial(resolved_addr) == (
            ConnectView::Dial { addr, server_name: resolved_addr.server_name(), resolved_addr })
            &&& next_dial(resolved_addr, Ok(())) == (ConnectView::Started {
                addr,
                store: match resolved_addr {
                    ResolvedView::Static(kept) => Some(kept),
                    ResolvedView::Domain { .. } => None,
                },
                resolved_addr,
            })
            &&& !invalid || resolved_addr.ips().len() == 1 ==> next_dial(resolved_addr, Err(err))
                == ConnectView::Failed(Error::Connect(err))
            &&& invalid && resolved_addr.ips().len() > 1 ==> (resolved_addr.rest() matches Some(
                rest,
            ) && next_dial(resolved_addr, Err(err)) == first_dial(rest))
        }),
{
}

/// When the first `n` addresses turn out to be invalid and the next one can be
/// dialed, the connection is to that one.
pub proof fn law_first_valid_address_is_connected(
    resolved_addr: ResolvedView,
    outcomes: Seq<Result<(), ConnectError>>,
)
    requires
        0 < outcomes.len() <= resolved_addr.ips().len(),
        forall|i: int| 0 <= i < outcomes.len() - 1 ==> invalid_remote(#[trigger] outcomes[i]),
        outcomes.last() is Ok,
        forall|i: int|
            0 <= i < outcomes.len() ==> (#[trigger] resolved_addr.ips()[i]) != IpAddr::V4(0)
                && resolved_addr.ips()[i] != IpAddr::V6(0),
    ensures
        dial_run(resolved_addr, outcomes) matches ConnectView::Started { addr, .. } && addr
            == resolved_addr.addr(outcomes.len() - 1),
    decreases outcomes.len(),
{
    assert(resolved_addr.ips()[0] != IpAddr::V4(0));
    if outcomes.len() > 1 {
        assert(invalid_remote(outcomes[0]));
        match resolved_addr {
            ResolvedView::Static(_) => {},
            ResolvedView::Domain { domain, port, ips } => {
                let rest = ResolvedView::Domain { domain, port, ips: ips.skip(1) };
                let later = outcomes.skip(1);
                assert(resolved_addr.rest() == Some(rest));
                assert forall|i: int| 0 <= i < later.len() - 1 implies invalid_remote(
                    #[trigger] later[i],
                ) by {
                    assert(later[i] == outcomes[i + 1]);
                }
                assert forall|i: int| 0 <= i < later.len() implies (#[trigger] rest.ips()[i])
                    != IpAddr::V4(0) && rest.ips()[i] != IpAddr::V6(0) by {
                    assert(rest.ips()[i] == resolved_addr.ips()[i + 1]);
                }
                assert(resolved_addr.ips()[1] != IpAddr::V4(0));
                assert(rest.ips()[0] == resolved_addr.ips()[1]);
                assert(later.last() == outcomes.last());
                law_first_valid_address_is_connected(rest, later);
                assert(rest.addr(later.len() - 1) == resolved_addr.addr(outcomes.len() - 1));
            },
        }
    }
}

/// What a step shows of itself.
pub proof fn law_connect_views(step: Result<ConnectStep, Error>)
    ensures
        match step {
            Ok(ConnectStep::Dial { addr, server_name, resolved_addr }) => connect_view(step) == (
            ConnectView::Dial {
                addr,
                server_name: server_name@,
                resolved_addr: resolved_addr@,
            }),
            Ok(ConnectStep::Started { addr, store, resolved_addr }) => connect_view(step) == (
            ConnectView::Started { addr, store, resolved_addr: resolved_addr@ }),
            Err(err) => connect_view(step) == ConnectView::Failed(err),
        },
{
}

} // verus!
