//! What is made of the servers that are configured, and of the candidates that are found.
use vstd::prelude::*;
use vstd::string::*;

use crate::config::IceServer;
use crate::text;
use crate::transports::ice::address;
use crate::transports::ice::address::{IpAddr, SocketAddr};
use crate::transports::ice::candidate;
use crate::transports::ice::candidate::{CandidateView, IceCandidateType};
use crate::transports::ice::conn;
use crate::transports::ice::conn::{ConnError, PacketClass};
use crate::transports::ice::gatherer;
use crate::transports::ice::gatherer::GathererView;
use crate::transports::ice::stun;
use crate::transports::ice::transport;
use crate::transports::ice::transport::SocketChoice;
use crate::transports::ice::uri;
use crate::transports::ice::uri::{IceTransportProtocol, IceUriKind, UriErrorView, UriView};

verus! {

proof fn lemma_absent(cs: Seq<char>, from: int, c: char)
    requires
        0 <= from <= cs.len(),
        forall|i: int| from <= i < cs.len() ==> cs[i] != c,
    ensures
        text::first_at(cs, from, c) == cs.len(),
    decreases cs.len() - from,
{
    if from < cs.len() {
        lemma_absent(cs, from + 1, c);
    }
}

proof fn lemma_last_at(cs: Seq<char>, k: int, c: char)
    requires
        -1 <= k < cs.len(),
        k >= 0 ==> cs[k] == c,
        forall|i: int| k < i < cs.len() ==> cs[i] != c,
    ensures
        uri::last_at(cs, c) == k,
    decreases cs.len(),
{
    if cs.len() > 0 && k < cs.len() - 1 {
        let init = cs.drop_last();
        assert forall|i: int| k < i < init.len() implies init[i] != c by {
            assert(init[i] == cs[i]);
        }
        lemma_last_at(init, k, c);
    }
}

/// The schemes of servers: STUN and TURN, in the clear over UDP at port 3478, or protected over
/// TCP at port 5349.
pub open spec fn scheme_means(
    scheme: Seq<char>,
    kind: IceUriKind,
    port: u16,
    transport: IceTransportProtocol,
) -> bool {
    ||| scheme == "stun"@ && kind == IceUriKind::Stun && port == 3478 && transport
        == IceTransportProtocol::Udp
    ||| scheme == "stuns"@ && kind == IceUriKind::Stun && port == 5349 && transport
        == IceTransportProtocol::Tcp
    ||| scheme == "turn"@ && kind == IceUriKind::Turn && port == 3478 && transport
        == IceTransportProtocol::Udp
    ||| scheme == "turns"@ && kind == IceUriKind::Turn && port == 5349 && transport
        == IceTransportProtocol::Tcp
}

proof fn lemma_scheme(
    scheme: Seq<char>,
    kind: IceUriKind,
    port: u16,
    transport: IceTransportProtocol,
)
    requires
        scheme_means(scheme, kind, port, transport),
    ensures
        uri::scheme_port(scheme) == Some(port),
        uri::scheme_kind(scheme) == Some(kind),
        uri::scheme_transport(scheme) == Some(transport),
        4 <= scheme.len() <= 5,
        forall|i: int| 0 <= i < scheme.len() ==> scheme[i] != ':',
{
    reveal_strlit("stun");
    reveal_strlit("stuns");
    reveal_strlit("turn");
    reveal_strlit("turns");
    assert("stun"@[0] == 's' && "turn"@[0] == 't');
    assert("stuns"@[0] == 's' && "turns"@[0] == 't');
    assert("stun"@.len() == 4 && "turn"@.len() == 4);
    assert("stuns"@.len() == 5 && "turns"@.len() == 5);
}

proof fn lemma_no_query()
    ensures
        uri::query_transport(seq![], IceTransportProtocol::Udp) == Ok::<
            IceTransportProtocol,
            UriErrorView,
        >(IceTransportProtocol::Udp),
        uri::query_transport(seq![], IceTransportProtocol::Tcp) == Ok::<
            IceTransportProtocol,
            UriErrorView,
        >(IceTransportProtocol::Tcp),
        !uri::occurs(seq![], "transport"@),
{
    reveal_strlit("transport");
    let none: Seq<char> = seq![];
    assert(text::first_at(none, 0, '=') == 0);
    assert(text::first_at(none, 0, '&') == 0);
}

/// The address of a server with a port is read as scheme, host and port say.
pub proof fn law_server_with_port(
    scheme: Seq<char>,
    kind: IceUriKind,
    usual: u16,
    transport: IceTransportProtocol,
    host: Seq<char>,
    port: u16,
)
    requires
        scheme_means(scheme, kind, usual, transport),
        !host.contains('?'),
    ensures
        uri::uri_parsed(scheme + seq![':'] + host + seq![':'] + text::decimal(port as nat)) == Ok::<
            UriView,
            UriErrorView,
        >(UriView { kind, host, port, transport }),
{
    let rest = host + seq![':'] + text::decimal(port as nat);
    let cs = scheme + seq![':'] + rest;
    assert(scheme + seq![':'] + host + seq![':'] + text::decimal(port as nat) =~= cs);
    lemma_scheme(scheme, kind, usual, transport);
    lemma_no_query();
    lemma_host_port(host, port, scheme);
    lemma_cut(scheme, rest);
}

/// Text with a scheme and no query is cut after the scheme.
proof fn lemma_cut(scheme: Seq<char>, rest: Seq<char>)
    requires
        forall|i: int| 0 <= i < scheme.len() ==> scheme[i] != ':',
        forall|i: int| 0 <= i < rest.len() ==> rest[i] != '?',
    ensures
        ({
            let cs = scheme + seq![':'] + rest;
            let k = scheme.len() as int;
            &&& text::first_at(cs, 0, ':') == k
            &&& k < cs.len()
            &&& cs.subrange(0, k) == scheme
            &&& cs.subrange(k + 1, cs.len() as int) == rest
            &&& text::first_at(rest, 0, '?') == rest.len()
            &&& rest.subrange(0, rest.len() as int) == rest
        }),
{
    let cs = scheme + seq![':'] + rest;
    let k = scheme.len() as int;
    assert forall|i: int| 0 <= i < k implies cs[i] != ':' by {
        assert(cs[i] == scheme[i]);
    }
    assert(cs[k] == ':');
    address::lemma_first_at(cs, 0, k, ':');
    assert(cs.subrange(0, k) =~= scheme);
    assert(cs.subrange(k + 1, cs.len() as int) =~= rest);
    lemma_absent(rest, 0, '?');
    assert(rest.subrange(0, rest.len() as int) =~= rest);
}

/// A host and a port are read from the text with a colon between them.
#[verifier::rlimit(40)]
proof fn lemma_host_port(host: Seq<char>, port: u16, scheme: Seq<char>)
    requires
        !host.contains('?'),
    ensures
        ({
            let rest = host + seq![':'] + text::decimal(port as nat);
            &&& forall|i: int| 0 <= i < rest.len() ==> rest[i] != '?'
            &&& uri::host_and_port(rest, scheme) == Ok::<(Seq<char>, u16), UriErrorView>(
                (host, port),
            )
        }),
{
    let digits = text::decimal(port as nat);
    let rest = host + seq![':'] + digits;
    text::lemma_decimal(port as nat);
    text::lemma_parsed_decimal(port as nat, 65535);
    assert forall|i: int| 0 <= i < rest.len() implies rest[i] != '?' by {
        if i < host.len() {
            assert(rest[i] == host[i]);
            assert(host.contains(host[i]));
        } else if i > host.len() {
            assert(rest[i] == digits[i - host.len() - 1]);
            assert(text::is_digit(digits[i - host.len() - 1]));
        }
    }
    let c = host.len() as int;
    assert(rest[c] == ':');
    assert forall|i: int| c < i < rest.len() implies rest[i] != ':' by {
        assert(rest[i] == digits[i - c - 1]);
        assert(text::is_digit(digits[i - c - 1]));
    }
    lemma_last_at(rest, c, ':');
    assert(rest.subrange(0, c) =~= host);
    assert(rest.subrange(c + 1, rest.len() as int) =~= digits);
}

/// The address of a server without a port is read as scheme and host say, at the usual port.
pub proof fn law_server_without_port(
    scheme: Seq<char>,
    kind: IceUriKind,
    usual: u16,
    transport: IceTransportProtocol,
    host: Seq<char>,
)
    requires
        scheme_means(scheme, kind, usual, transport),
        !host.contains('?'),
        !host.contains(':'),
    ensures
        uri::uri_parsed(scheme + seq![':'] + host) == Ok::<UriView, UriErrorView>(
            UriView { kind, host, port: usual, transport },
        ),
{
    lemma_scheme(scheme, kind, usual, transport);
    lemma_no_query();
    assert forall|i: int| 0 <= i < host.len() implies host[i] != '?' && host[i] != ':' by {
        assert(host.contains(host[i]));
    }
    lemma_cut(scheme, host);
    lemma_last_at(host, -1, ':');
}

/// A resolver's first address is used; where IPv6 is not wanted, the first IPv4 address.
#[verifier::rlimit(40)]
pub proof fn law_first_usable_address(addrs: Seq<SocketAddr>, disable_ipv6: bool)
    ensures
        match uri::usable_address(addrs, disable_ipv6) {
            Some(a) => exists|k: int|
                0 <= k < addrs.len() && #[trigger] addrs[k] == a && (disable_ipv6 ==> a.ip is V4)
                    && (forall|i: int|
                    0 <= i < k ==> disable_ipv6 && (#[trigger] addrs[i]).ip is V6),
            None => forall|i: int|
                0 <= i < addrs.len() ==> disable_ipv6 && (#[trigger] addrs[i]).ip is V6,
        },
    decreases addrs.len(),
{
    if addrs.len() > 0 {
        if disable_ipv6 && addrs[0].ip is V6 {
            let rest = addrs.drop_first();
            law_first_usable_address(rest, disable_ipv6);
            match uri::usable_address(rest, disable_ipv6) {
                Some(a) => {
                    let k = choose|k: int|
                        0 <= k < rest.len() && #[trigger] rest[k] == a && (forall|i: int|
                            0 <= i < k ==> disable_ipv6 && (#[trigger] rest[i]).ip is V6);
                    assert(addrs[k + 1] == a);
                    assert forall|i: int| 0 <= i < k + 1 implies disable_ipv6 && (
                    #[trigger] addrs[i]).ip is V6 by {
                        if i > 0 {
                            assert(rest[i - 1] == addrs[i]);
                        }
                    }
                },
                None => {
                    assert forall|i: int| 0 <= i < addrs.len() implies disable_ipv6 && (
                    #[trigger] addrs[i]).ip is V6 by {
                        if i > 0 {
                            assert(rest[i - 1] == addrs[i]);
                        }
                    }
                },
            }
        } else {
            assert(addrs[0] == uri::usable_address(addrs, disable_ipv6)->0);
        }
    }
}

/// The priority of a candidate: the preference of its type decides first, and of two components
/// the lower one comes first. Host candidates come before those that a peer, a server or a relay
/// gives.
pub proof fn law_priorities(a: IceCandidateType, b: IceCandidateType, x: u16, y: u16)
    ensures
        candidate::priority_of(a, x) / 0x100_0000 == match a {
            IceCandidateType::Host => 126int,
            IceCandidateType::PeerReflexive => 110,
            IceCandidateType::ServerReflexive => 100,
            IceCandidateType::Relay => 0,
        },
        0 < x < 256 ==> candidate::priority_of(a, x) % 0x100_0000 == 0xFF_FFFF - (x - 1),
        x == 0 || x >= 256 ==> candidate::priority_of(a, x) % 0x100_0000 == 0xFF_FF00,
        a.preference() > b.preference() ==> candidate::priority_of(a, x) > candidate::priority_of(
            b,
            y,
        ),
        0 < x < y < 256 ==> candidate::priority_of(a, x) > candidate::priority_of(a, y),
{
}

/// A candidate that is found is kept, after those before it, unless its address was found before
/// or it is an IPv6 address and those are not wanted. What was kept stays.
pub proof fn law_new_candidates_are_kept(g: GathererView, c: CandidateView)
    ensures
        ({
            let after = gatherer::pushed(g, c);
            let wanted = !g.seen.contains(c.address) && !(g.disable_ipv6 && c.address.ip is V6);
            &&& wanted ==> after.candidates == g.candidates.push(c) && after.seen == g.seen.insert(
                c.address,
            )
            &&& !wanted ==> after == g
            &&& after.state == g.state
            &&& after.disable_ipv6 == g.disable_ipv6
        }),
{
}

/// A socket is reached on this machine at 127.0.0.1, and on the network at the address there,
/// where that is another; both at the port of the socket, over UDP, without a related address.
pub proof fn law_host_candidates(disable_ipv6: bool, port: u16, lan: IpAddr)
    requires
        !lan.loopback(),
        lan is V4,
    ensures
        ({
            let g = gatherer::hosts_pushed(
                gatherer::new_gatherer(disable_ipv6),
                port,
                Some(lan),
            );
            let home = gatherer::hosts_pushed(gatherer::new_gatherer(disable_ipv6), port, None);
            &&& g.candidates.len() == 2
            &&& home.candidates.len() == 1
            &&& home.candidates[0] == g.candidates[0]
            &&& g.candidates[0].address == (SocketAddr {
                ip: IpAddr::V4(0x7F00_0001),
                port,
                scope_id: 0,
            })
            &&& g.candidates[1].address == (SocketAddr { ip: lan, port, scope_id: 0 })
            &&& forall|i: int|
                0 <= i < 2 ==> {
                    &&& (#[trigger] g.candidates[i]).typ == IceCandidateType::Host
                    &&& g.candidates[i].transport == "udp"@
                    &&& g.candidates[i].component == 1
                    &&& g.candidates[i].related_address is None
                    &&& g.candidates[i].priority == 2130706431
                    &&& g.candidates[i].foundation == "host:"@ + g.candidates[i].address.ip.text()
                }
        }),
{
}

/// The candidate that a STUN server finds: where the server saw this end, with the socket that was
/// seen as its base. Packets from elsewhere find nothing.
pub proof fn law_reflexive_candidate(
    server: SocketAddr,
    from: SocketAddr,
    packet: Seq<u8>,
    base: SocketAddr,
)
    ensures
        from.ip != server.ip ==> gatherer::reflexive(server, from, packet, base) == Ok::<
            Option<CandidateView>,
            stun::StunError,
        >(None),
        from.ip == server.ip && stun::stun_decoded(packet) is Ok && stun::stun_decoded(
            packet,
        )->Ok_0.xor_mapped_address is Some ==> {
            let mapped = stun::stun_decoded(packet)->Ok_0.xor_mapped_address->0;
            gatherer::reflexive(server, from, packet, base) matches Ok(Some(c)) && {
                &&& c.typ == IceCandidateType::ServerReflexive
                &&& c.address == mapped
                &&& c.related_address == Some(base)
                &&& c.transport == "udp"@
                &&& c.component == 1
                &&& c.priority == 1694498815
                &&& c.foundation == "srflx:"@ + mapped.ip.text()
            }
        },
{
}

/// A socket serves the candidate at its own address, and, where it is bound to all addresses, every
/// candidate at its port.
pub proof fn law_socket_of_candidate(local: SocketAddr, addr: SocketAddr)
    ensures
        gatherer::socket_serves(Some(addr), addr),
        !gatherer::socket_serves(None, addr),
        gatherer::socket_serves(Some(local), addr) <==> local == addr || ((local.ip == IpAddr::V4(0)
            || local.ip == IpAddr::V6(0)) && local.port == addr.port),
{
}

/// Packets from a relayed candidate go through its relay, all others through its socket.
pub proof fn law_route(c: CandidateView)
    ensures
        c.typ == IceCandidateType::Relay ==> transport::route(c) == SocketChoice::Turn(c.address),
        c.typ != IceCandidateType::Relay ==> transport::route(c) == SocketChoice::Udp(c.address),
{
}

/// Packets are told apart by their first byte: 20 to 63 is DTLS, 128 to 191 media.
pub proof fn law_packets_by_first_byte(b: u8)
    ensures
        conn::class_of(b) == PacketClass::Dtls <==> 20 <= b && b <= 63,
        conn::class_of(b) == PacketClass::Rtp <==> 128 <= b && b <= 191,
{
}

/// Where packets go: the first packet of any kind tells the address, and later ones only where
/// they are of DTLS. Nothing is sent to an address that is not known.
pub proof fn law_address_is_learned(current: SocketAddr, b: u8, addr: SocketAddr)
    ensures
        current.port == 0 ==> conn::learned_address(current, b, addr) == addr,
        current.port != 0 && 20 <= b <= 63 ==> conn::learned_address(current, b, addr) == addr,
        current.port != 0 && !(20 <= b <= 63) ==> conn::learned_address(current, b, addr)
            == current,
        conn::target(addr, false) == Err::<SocketAddr, ConnError>(ConnError::NoSocket),
        conn::target(addr, true) is Ok <==> addr.port != 0,
        addr.port != 0 ==> conn::target(addr, true) == Ok::<SocketAddr, ConnError>(addr),
{
}

/// The servers are asked in their order, each by all its names that can be read, in theirs.
pub proof fn law_servers_in_order(
    servers: Seq<IceServer>,
    server: IceServer,
    urls: Seq<String>,
    url: String,
    at: int,
)
    ensures
        gatherer::servers_uris(servers.push(server)) == gatherer::servers_uris(servers)
            + gatherer::uris_of(server.urls@, servers.len() as int),
        gatherer::servers_uris(seq![]).len() == 0,
        uri::uri_parsed(url@) matches Ok(u) ==> gatherer::uris_of(urls.push(url), at)
            == gatherer::uris_of(urls, at).push((at, u)),
        uri::uri_parsed(url@) is Err ==> gatherer::uris_of(urls.push(url), at)
            == gatherer::uris_of(urls, at),
        gatherer::uris_of(seq![], at).len() == 0,
{
    assert(servers.push(server).drop_last() =~= servers);
    assert(urls.push(url).drop_last() =~= urls);
}

proof fn lemma_parameter(value: Seq<char>)
    requires
        !value.contains('&'),
    ensures
        ({
            let q = "transport="@ + value;
            &&& text::first_at(q, 0, '&') == q.len()
            &&& text::first_at(q, 0, '=') == 9
            &&& q.subrange(0, 9) == "transport"@
            &&& q.subrange(10, q.len() as int) == value
        }),
{
    reveal_strlit("transport=");
    reveal_strlit("transport");
    let q = "transport="@ + value;
    assert forall|i: int| 0 <= i < q.len() implies q[i] != '&' by {
        if i >= 10 {
            assert(q[i] == value[i - 10]);
            assert(value.contains(value[i - 10]));
        }
    }
    lemma_absent(q, 0, '&');
    address::lemma_first_at(q, 0, 9, '=');
    assert(q.subrange(0, 9) =~= "transport"@);
    assert(q.subrange(10, q.len() as int) =~= value);
}

/// The value of a transport parameter is UDP or TCP in any case of letters; another is told in
/// lower case.
pub proof fn law_transport_values(value: Seq<char>, current: IceTransportProtocol)
    requires
        !value.contains('&'),
    ensures
        ({
            let t = uri::query_transport("transport="@ + value, current);
            let name = text::lower(value);
            &&& name == seq!['u', 'd', 'p'] ==> t == Ok::<IceTransportProtocol, UriErrorView>(
                IceTransportProtocol::Udp,
            )
            &&& name == seq!['t', 'c', 'p'] ==> t == Ok::<IceTransportProtocol, UriErrorView>(
                IceTransportProtocol::Tcp,
            )
            &&& name != seq!['u', 'd', 'p'] && name != seq!['t', 'c', 'p'] ==> t == Err::<
                IceTransportProtocol,
                UriErrorView,
            >(UriErrorView::UnsupportedTransport(name))
        }),
{
    lemma_parameter(value);
    reveal_strlit("transport=");
    reveal_strlit("udp");
    reveal_strlit("tcp");
    assert("udp"@ =~= seq!['u', 'd', 'p']);
    assert("tcp"@ =~= seq!['t', 'c', 'p']);
    assert("udp"@[0] != "tcp"@[0]);
}

/// Parameters are read one after the other, with an ampersand between them.
pub proof fn law_parameters_in_turn(
    first: Seq<char>,
    rest: Seq<char>,
    current: IceTransportProtocol,
)
    requires
        !first.contains('&'),
    ensures
        match uri::query_transport(first, current) {
            Ok(t) => uri::query_transport(first + seq!['&'] + rest, current)
                == uri::query_transport(rest, t),
            Err(e) => uri::query_transport(first + seq!['&'] + rest, current) == Err::<
                IceTransportProtocol,
                UriErrorView,
            >(e),
        },
{
    let all = first + seq!['&'] + rest;
    let k = first.len() as int;
    assert forall|i: int| 0 <= i < k implies first[i] != '&' && all[i] != '&' by {
        assert(all[i] == first[i]);
        assert(first.contains(first[i]));
    }
    lemma_absent(first, 0, '&');
    assert(all[k] == '&');
    address::lemma_first_at(all, 0, k, '&');
    assert(all.subrange(0, k) =~= first);
    assert(all.subrange(k + 1, all.len() as int) =~= rest);
}

/// A server for STUN alone takes no transport parameter, and a relay server goes by it.
#[verifier::rlimit(40)]
pub proof fn law_servers_with_transport(
    scheme: Seq<char>,
    kind: IceUriKind,
    usual: u16,
    transport: IceTransportProtocol,
    host: Seq<char>,
    value: Seq<char>,
)
    requires
        scheme_means(scheme, kind, usual, transport),
        !host.contains('?'),
        !host.contains(':'),
        !value.contains('&'),
        text::lower(value) == seq!['t', 'c', 'p'],
    ensures
        ({
            let u = uri::uri_parsed(
                scheme + seq![':'] + (host + seq!['?'] + ("transport="@ + value)),
            );
            &&& kind == IceUriKind::Stun ==> u == Err::<UriView, UriErrorView>(
                UriErrorView::StunTransport,
            )
            &&& kind == IceUriKind::Turn ==> u == Ok::<UriView, UriErrorView>(
                UriView { kind, host, port: usual, transport: IceTransportProtocol::Tcp },
            )
        }),
{
    let query = "transport="@ + value;
    let rest = host + seq!['?'] + query;
    let cs = scheme + seq![':'] + rest;
    let k = scheme.len() as int;
    let h = host.len() as int;
    lemma_scheme(scheme, kind, usual, transport);
    lemma_parameter(value);
    law_transport_values(value, transport);
    assert forall|i: int| 0 <= i < k implies cs[i] != ':' by {
        assert(cs[i] == scheme[i]);
    }
    assert(cs[k] == ':');
    address::lemma_first_at(cs, 0, k, ':');
    assert(cs.subrange(0, k) =~= scheme);
    assert(cs.subrange(k + 1, cs.len() as int) =~= rest);
    assert forall|i: int| 0 <= i < h implies host[i] != '?' && rest[i] != '?' && host[i] != ':' by {
        assert(rest[i] == host[i]);
        assert(host.contains(host[i]));
    }
    assert(rest[h] == '?');
    address::lemma_first_at(rest, 0, h, '?');
    assert(rest.subrange(0, h) =~= host);
    assert(rest.subrange(h + 1, rest.len() as int) =~= query);
    lemma_last_at(host, -1, ':');
    reveal_strlit("transport=");
    reveal_strlit("transport");
    assert(query.subrange(0, 0int + "transport"@.len()) == "transport"@);
    assert(uri::occurs(query, "transport"@));
    reveal_strlit("stun");
    reveal_strlit("stuns");
    reveal_strlit("turn");
    reveal_strlit("turns");
    if kind == IceUriKind::Stun {
        assert(scheme.subrange(0, 4) =~= "stun"@);
    } else {
        assert(scheme[0] == 't');
        assert(scheme.subrange(0, 4)[0] != "stun"@[0]);
    }
}

/// An address of this machine is not told again as one on the network.
pub proof fn law_loopback_once(disable_ipv6: bool, port: u16, lan: IpAddr)
    requires
        lan.loopback(),
    ensures
        gatherer::hosts_pushed(gatherer::new_gatherer(disable_ipv6), port, Some(lan))
            == gatherer::hosts_pushed(gatherer::new_gatherer(disable_ipv6), port, None),
{
}

} // verus!
