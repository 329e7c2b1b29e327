//! The candidates of this end.
use vstd::prelude::*;
use vstd::string::*;

use crate::config::IceServer;
use crate::transports::ice::address::{IpAddr, SocketAddr};
use crate::transports::ice::candidate;
use crate::transports::ice::candidate::{
    CandidateView, IceCandidate, IceCandidateType, IceGathererState,
};
use crate::transports::ice::stun;
use crate::transports::ice::stun::{StunError, StunMessage};
use crate::transports::ice::turn::TurnAllocation;
use crate::transports::ice::uri;
use crate::transports::ice::uri::{IceServerUri, UriView};

verus! {

/// The candidates of this end, as they are found.
#[derive(Debug, Clone, PartialEq, Eq)]
pub struct IceGatherer {
    state: IceGathererState,
    local_candidates: Vec<IceCandidate>,
    seen: Vec<SocketAddr>,
    disable_ipv6: bool,
}

/// The candidates of this end, and the addresses that were seen in this run.
#[verifier::ext_equal]
pub struct GathererView {
    pub state: IceGathererState,
    pub candidates: Seq<CandidateView>,
    pub seen: Set<SocketAddr>,
    pub disable_ipv6: bool,
}

impl View for IceGatherer {
    type V = GathererView;

    closed spec fn view(&self) -> GathererView {
        GathererView {
            state: self.state,
            candidates: candidate::candidate_views(self.local_candidates@),
            seen: self.seen@.to_set(),
            disable_ipv6: self.disable_ipv6,
        }
    }
}

/// A gatherer that has not run.
pub open spec fn new_gatherer(disable_ipv6: bool) -> GathererView {
    GathererView {
        state: IceGathererState::New,
        candidates: seq![],
        seen: Set::empty(),
        disable_ipv6,
    }
}

/// What is kept when a candidate was found: nothing of an IPv6 candidate where those are not
/// wanted, nor of an address that was seen before.
pub open spec fn pushed(g: GathererView, c: CandidateView) -> GathererView {
    if (g.disable_ipv6 && c.address.ip is V6) || g.seen.contains(c.address) {
        g
    } else {
        GathererView {
            candidates: g.candidates.push(c),
            seen: g.seen.insert(c.address),
            ..g
        }
    }
}

/// A candidate on an address of a machine itself.
pub open spec fn host_candidate(address: SocketAddr) -> CandidateView {
    candidate::candidate_of("host:"@, IceCandidateType::Host, address, "udp"@, None, 1)
}

/// A candidate on an address of this machine.
pub open spec fn own_candidate(ip: IpAddr, port: u16) -> CandidateView {
    host_candidate(SocketAddr { ip, port, scope_id: 0 })
}

/// What is kept of a socket on `port`: the loopback address, and the address on the network where
/// it is another one.
pub open spec fn hosts_pushed(g: GathererView, port: u16, lan: Option<IpAddr>) -> GathererView {
    let first = pushed(g, own_candidate(IpAddr::V4(0x7F00_0001), port));
    match lan {
        Some(ip) => if ip.loopback() {
            first
        } else {
            pushed(first, own_candidate(ip, port))
        },
        None => first,
    }
}

/// Whether all candidates were seen in this run, each at an address of its own, and none is an
/// IPv6 candidate where those are not wanted.
pub open spec fn orderly(g: GathererView) -> bool {
    &&& forall|i: int|
        0 <= i < g.candidates.len() ==> g.seen.contains((#[trigger] g.candidates[i]).address)
    &&& forall|i: int, j: int|
        0 <= i < j < g.candidates.len() ==> (#[trigger] g.candidates[i]).address != (
        #[trigger] g.candidates[j]).address
    &&& g.disable_ipv6 ==> forall|i: int|
        0 <= i < g.candidates.len() ==> (#[trigger] g.candidates[i]).address.ip is V4
}

/// A gatherer that starts without candidates never holds two at one address, nor an IPv6
/// candidate where those are not wanted.
pub proof fn law_gathering_is_orderly(g: GathererView, c: CandidateView)
    ensures
        orderly(new_gatherer(g.disable_ipv6)),
        orderly(g) ==> orderly(pushed(g, c)),
{
}

/// The address of a server in text, or none where it is no address.
pub open spec fn uri_of(url: Seq<char>) -> Option<UriView> {
    match uri::uri_parsed(url) {
        Ok(u) => Some(u),
        Err(_) => None,
    }
}

/// The addresses of one server that can be read, with the server's place in the list.
pub open spec fn uris_of(urls: Seq<String>, server: int) -> Seq<(int, UriView)>
    decreases urls.len(),
{
    if urls.len() == 0 {
        seq![]
    } else {
        let first = uris_of(urls.drop_last(), server);
        match uri_of(urls.last()@) {
            Some(u) => first.push((server, u)),
            None => first,
        }
    }
}

/// The addresses of all servers that can be read, in order.
pub open spec fn servers_uris(servers: Seq<IceServer>) -> Seq<(int, UriView)>
    decreases servers.len(),
{
    if servers.len() == 0 {
        seq![]
    } else {
        servers_uris(servers.drop_last()) + uris_of(servers.last().urls@, servers.len() - 1)
    }
}

/// The views of addresses with the places of their servers.
pub open spec fn uri_views(us: Seq<(usize, IceServerUri)>) -> Seq<(int, UriView)> {
    us.map_values(|u: (usize, IceServerUri)| (u.0 as int, u.1@))
}

/// The addresses of servers to ask, each with the place of its server in the list. Text that is
/// no address is passed over.
pub fn servers_to_probe(servers: &Vec<IceServer>) -> (r: Vec<(usize, IceServerUri)>)
    ensures
        uri_views(r@) == servers_uris(servers@),
{
    let n: usize = servers.len();
    let mut out: Vec<(usize, IceServerUri)> = Vec::new();
    let mut i: usize = 0;
    assert(uri_views(out@) =~= servers_uris(servers@.subrange(0, 0)));
    while i < n
        invariant
            n == servers@.len(),
            i <= n,
            uri_views(out@) == servers_uris(servers@.subrange(0, i as int)),
        decreases n - i,
    {
        let ghost done = servers_uris(servers@.subrange(0, i as int));
        let urls = &servers[i].urls;
        let m: usize = urls.len();
        let mut k: usize = 0;
        assert(done + uris_of(urls@.subrange(0, 0), i as int) =~= done);
        while k < m
            invariant
                i < n,
                n == servers@.len(),
                m == urls@.len(),
                k <= m,
                uri_views(out@) == done + uris_of(urls@.subrange(0, k as int), i as int),
            decreases m - k,
        {
            let parsed = IceServerUri::parse(urls[k].as_str());
            proof {
                let head = urls@.subrange(0, k + 1);
                assert(head.drop_last() =~= urls@.subrange(0, k as int));
                assert(head.last() == urls@[k as int]);
            }
            match parsed {
                Ok(u) => {
                    proof {
                        let before = uri_views(out@);
                        let before_uris = uris_of(urls@.subrange(0, k as int), i as int);
                        assert(uri_views(out@.push((i, u))) =~= before.push((i as int, u@)));
                        assert((done + before_uris).push((i as int, u@)) =~= done
                            + before_uris.push((i as int, u@)));
                    }
                    out.push((i, u));
                },
                Err(_) => {},
            }
            k += 1;
        }
        i += 1;
        proof {
            let head = servers@.subrange(0, i as int);
            assert(head.drop_last() =~= servers@.subrange(0, i - 1));
            assert(urls@.subrange(0, m as int) =~= urls@);
        }
    }
    assert(servers@.subrange(0, n as int) =~= servers@);
    out
}

/// The candidate that a STUN server at `server` found, from a packet that came from `from`. None
/// where it came from another address or names none.
pub open spec fn reflexive(
    server: SocketAddr,
    from: SocketAddr,
    packet: Seq<u8>,
    base: SocketAddr,
) -> Result<Option<CandidateView>, StunError> {
    if from.ip != server.ip {
        Ok(None)
    } else {
        match stun::stun_decoded(packet) {
            Err(e) => Err(e),
            Ok(d) => match d.xor_mapped_address {
                Some(mapped) => Ok(
                    Some(
                        candidate::candidate_of(
                            "srflx:"@,
                            IceCandidateType::ServerReflexive,
                            mapped,
                            "udp"@,
                            Some(base),
                            1,
                        ),
                    ),
                ),
                None => Ok(None),
            },
        }
    }
}

/// The view of a candidate that may not have been found.
pub open spec fn found_view(r: Result<Option<IceCandidate>, StunError>) -> Result<
    Option<CandidateView>,
    StunError,
> {
    match r {
        Ok(Some(c)) => Ok(Some(c@)),
        Ok(None) => Ok(None),
        Err(e) => Err(e),
    }
}

/// The candidate that a STUN server at `server` found for the socket at `base`.
pub fn stun_probed(server: SocketAddr, from: SocketAddr, packet: &[u8], base: SocketAddr) -> (r:
    Result<Option<IceCandidate>, StunError>)
    ensures
        found_view(r) == reflexive(server, from, packet@, base),
{
    if from.ip != server.ip {
        return Ok(None);
    }
    match StunMessage::decode(packet) {
        Err(e) => Err(e),
        Ok(d) => match d.xor_mapped_address {
            Some(mapped) => Ok(Some(IceCandidate::server_reflexive(base, mapped, 1))),
            None => Ok(None),
        },
    }
}

/// The candidate of a relayed address.
pub fn turn_probed(allocation: TurnAllocation) -> (r: IceCandidate)
    ensures
        r@ == candidate::candidate_of(
            "relay:"@,
            IceCandidateType::Relay,
            allocation.relayed_address,
            allocation.transport.name(),
            None,
            1,
        ),
{
    IceCandidate::relay(allocation.relayed_address, 1, allocation.transport.as_str())
}

impl IceGatherer {
    /// A gatherer that has not run.
    pub fn new(disable_ipv6: bool) -> (r: Self)
        ensures
            r@ == new_gatherer(disable_ipv6),
    {
        let r = IceGatherer {
            state: IceGathererState::New,
            local_candidates: Vec::new(),
            seen: Vec::new(),
            disable_ipv6,
        };
        assert(candidate::candidate_views(r.local_candidates@) =~= seq![]);
        assert(r.seen@.to_set() =~= Set::empty());
        r
    }

    /// How far it is.
    pub fn state(&self) -> (r: IceGathererState)
        ensures
            r == self@.state,
    {
        self.state
    }

    /// The candidates that were found.
    pub fn local_candidates(&self) -> (r: &Vec<IceCandidate>)
        ensures
            candidate::candidate_views(r@) == self@.candidates,
    {
        &self.local_candidates
    }

    /// Starts to gather. Whether there is anything left to do.
    pub fn gather(&mut self) -> (r: bool)
        ensures
            r == (old(self)@.state != IceGathererState::Complete),
            final(self)@ == if r {
                GathererView {
                    state: IceGathererState::Gathering,
                    seen: Set::empty(),
                    ..old(self)@
                }
            } else {
                old(self)@
            },
    {
        if self.state == IceGathererState::Complete {
            return false;
        }
        self.state = IceGathererState::Gathering;
        self.seen = Vec::new();
        assert(self.seen@.to_set() =~= Set::empty());
        true
    }

    /// Takes note of a candidate.
    pub fn push_candidate(&mut self, c: IceCandidate)
        ensures
            final(self)@ == pushed(old(self)@, c@),
    {
        if self.disable_ipv6 && c.address.is_ipv6() {
            return;
        }
        let n: usize = self.seen.len();
        let mut i: usize = 0;
        while i < n
            invariant
                *self == *old(self),
                n == self.seen@.len(),
                i <= n,
                forall|k: int| 0 <= k < i ==> self.seen@[k] != c.address,
            decreases n - i,
        {
            if self.seen[i] == c.address {
                assert(self.seen@.to_set().contains(self.seen@[i as int]));
                return;
            }
            i += 1;
        }
        let ghost before = self.seen@;
        let ghost candidates = self.local_candidates@;
        let ghost view = c@;
        self.seen.push(c.address);
        self.local_candidates.push(c);
        proof {
            assert(!before.to_set().contains(view.address));
            assert(self.seen@.to_set() =~= before.to_set().insert(view.address)) by {
                assert(self.seen@ == before.push(view.address));
                assert forall|a: SocketAddr| self.seen@.to_set().contains(a) <==> before.to_set().insert(
                    view.address,
                ).contains(a) by {
                    if before.contains(a) {
                        let k = choose|k: int| 0 <= k < before.len() && before[k] == a;
                        assert(self.seen@[k] == a);
                    }
                    assert(self.seen@[before.len() as int] == view.address);
                }
            }
            assert(candidate::candidate_views(self.local_candidates@) =~= candidate::candidate_views(
                candidates,
            ).push(view));
        }
    }

    /// Takes note of a socket on `port`; `lan` is the address of this machine on its network.
    pub fn gather_host_candidates(&mut self, port: u16, lan: Option<IpAddr>)
        ensures
            final(self)@ == hosts_pushed(old(self)@, port, lan),
    {
        let loopback = SocketAddr::new(IpAddr::V4(0x7F00_0001), port);
        self.push_candidate(IceCandidate::host(loopback, 1));
        if let Some(ip) = lan {
            if !ip.is_loopback() {
                self.push_candidate(IceCandidate::host(SocketAddr::new(ip, port), 1));
            }
        }
    }

    /// All was found that there is.
    pub fn complete(&mut self)
        ensures
            final(self)@ == (GathererView { state: IceGathererState::Complete, ..old(self)@ }),
    {
        self.state = IceGathererState::Complete;
    }
}

/// Whether the socket bound to `local` is the one of the candidate at `addr`.
pub open spec fn socket_serves(local: Option<SocketAddr>, addr: SocketAddr) -> bool {
    match local {
        Some(a) => a == addr || (a.ip.unspecified() && a.port == addr.port),
        None => false,
    }
}

/// The first socket that serves the candidate at `addr`, of sockets bound to these addresses.
pub fn get_socket(locals: &Vec<Option<SocketAddr>>, addr: SocketAddr) -> (r: Option<usize>)
    ensures
        match r {
            Some(i) => i < locals@.len() && socket_serves(locals@[i as int], addr) && forall|k: int|
                0 <= k < i ==> !socket_serves(#[trigger] locals@[k], addr),
            None => forall|k: int|
                0 <= k < locals@.len() ==> !socket_serves(#[trigger] locals@[k], addr),
        },
{
    let n: usize = locals.len();
    let mut i: usize = 0;
    while i < n
        invariant
            n == locals@.len(),
            i <= n,
            forall|k: int| 0 <= k < i ==> !socket_serves(#[trigger] locals@[k], addr),
        decreases n - i,
    {
        if let Some(a) = locals[i] {
            if a == addr || (a.ip.is_unspecified() && a.port == addr.port) {
                return Some(i);
            }
        }
        i += 1;
    }
    None
}

} // verus!
