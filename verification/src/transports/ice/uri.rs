//! The addresses of STUN and TURN servers (RFC 7064, RFC 7065).
use vstd::prelude::*;
use vstd::string::*;

use crate::text;
use crate::transports::ice::address::SocketAddr;

verus! {

#[derive(Debug, Clone, Copy, PartialEq, Eq, Structural)]
pub enum IceUriKind {
    Stun,
    Turn,
}

#[derive(Debug, Clone, Copy, PartialEq, Eq, Structural)]
pub enum IceTransportProtocol {
    Udp,
    Tcp,
}

impl IceTransportProtocol {
    /// The name of the protocol.
    pub open spec fn name(self) -> Seq<char> {
        match self {
            IceTransportProtocol::Udp => "udp"@,
            IceTransportProtocol::Tcp => "tcp"@,
        }
    }

    /// The name of the protocol.
    pub fn as_str(&self) -> (r: &'static str)
        ensures
            r@ == self.name(),
    {
        match self {
            IceTransportProtocol::Udp => "udp",
            IceTransportProtocol::Tcp => "tcp",
        }
    }
}

/// Why text is no address of a server.
#[derive(Debug, Clone, PartialEq, Eq)]
pub enum UriError {
    MissingScheme,
    InvalidPort,
    UnsupportedScheme(String),
    UnsupportedTransport(String),
    /// A STUN address with a transport parameter.
    StunTransport,
    /// No address was found for the host.
    Unresolved,
}

/// Why text is no address of a server.
#[verifier::ext_equal]
pub enum UriErrorView {
    MissingScheme,
    InvalidPort,
    UnsupportedScheme(Seq<char>),
    UnsupportedTransport(Seq<char>),
    StunTransport,
    Unresolved,
}

impl View for UriError {
    type V = UriErrorView;

    open spec fn view(&self) -> UriErrorView {
        match self {
            UriError::MissingScheme => UriErrorView::MissingScheme,
            UriError::InvalidPort => UriErrorView::InvalidPort,
            UriError::UnsupportedScheme(s) => UriErrorView::UnsupportedScheme(s@),
            UriError::UnsupportedTransport(s) => UriErrorView::UnsupportedTransport(s@),
            UriError::StunTransport => UriErrorView::StunTransport,
            UriError::Unresolved => UriErrorView::Unresolved,
        }
    }
}

/// The address of a server.
#[derive(Debug, Clone, PartialEq, Eq)]
pub struct IceServerUri {
    pub kind: IceUriKind,
    pub host: String,
    pub port: u16,
    pub transport: IceTransportProtocol,
}

/// What the address of a server says.
#[verifier::ext_equal]
pub struct UriView {
    pub kind: IceUriKind,
    pub host: Seq<char>,
    pub port: u16,
    pub transport: IceTransportProtocol,
}

impl View for IceServerUri {
    type V = UriView;

    open spec fn view(&self) -> UriView {
        UriView {
            kind: self.kind,
            host: self.host@,
            port: self.port,
            transport: self.transport,
        }
    }
}

/// The port of a scheme.
pub open spec fn scheme_port(scheme: Seq<char>) -> Option<u16> {
    if scheme == "stun"@ || scheme == "turn"@ {
        Some(3478)
    } else if scheme == "stuns"@ || scheme == "turns"@ {
        Some(5349)
    } else {
        None
    }
}

/// The transport of a scheme.
pub open spec fn scheme_transport(scheme: Seq<char>) -> Option<IceTransportProtocol> {
    if scheme == "stun"@ || scheme == "turn"@ {
        Some(IceTransportProtocol::Udp)
    } else if scheme == "stuns"@ || scheme == "turns"@ {
        Some(IceTransportProtocol::Tcp)
    } else {
        None
    }
}

/// The kind of a server with this scheme.
pub open spec fn scheme_kind(scheme: Seq<char>) -> Option<IceUriKind> {
    if scheme == "stun"@ || scheme == "stuns"@ {
        Some(IceUriKind::Stun)
    } else if scheme == "turn"@ || scheme == "turns"@ {
        Some(IceUriKind::Turn)
    } else {
        None
    }
}

/// The transport that one parameter names, if it is a transport parameter.
pub open spec fn param_transport(param: Seq<char>) -> Option<Result<IceTransportProtocol, UriErrorView>> {
    let k = text::first_at(param, 0, '=');
    if k < param.len() && param.subrange(0, k) == "transport"@ {
        let value = text::lower(param.subrange(k + 1, param.len() as int));
        Some(
            if value == "udp"@ {
                Ok(IceTransportProtocol::Udp)
            } else if value == "tcp"@ {
                Ok(IceTransportProtocol::Tcp)
            } else {
                Err(UriErrorView::UnsupportedTransport(value))
            },
        )
    } else {
        None
    }
}

/// The transport after the parameters of a query, of which the last decides. `current` is the
/// transport before them.
pub open spec fn query_transport(query: Seq<char>, current: IceTransportProtocol) -> Result<
    IceTransportProtocol,
    UriErrorView,
>
    decreases query.len(),
{
    let k = text::first_at(query, 0, '&');
    let last = k < 0 || k >= query.len();
    let param = if last {
        query
    } else {
        query.subrange(0, k)
    };
    let here = match param_transport(param) {
        Some(r) => r,
        None => Ok(current),
    };
    match here {
        Err(e) => Err(e),
        Ok(t) => if last {
            Ok(t)
        } else {
            query_transport(query.subrange(k + 1, query.len() as int), t)
        },
    }
}

/// Whether `needle` occurs in `cs`.
pub open spec fn occurs(cs: Seq<char>, needle: Seq<char>) -> bool {
    exists|i: int|
        0 <= i && i + needle.len() <= cs.len() && #[trigger] cs.subrange(i, i + needle.len())
            == needle
}

/// Where the last `c` stands, or -1 where there is none.
pub open spec fn last_at(cs: Seq<char>, c: char) -> int
    decreases cs.len(),
{
    if cs.len() == 0 {
        -1
    } else if cs.last() == c {
        cs.len() - 1
    } else {
        last_at(cs.drop_last(), c)
    }
}

/// The host and the port of an address, the port being that of the scheme where none is given.
pub open spec fn host_and_port(host_part: Seq<char>, scheme: Seq<char>) -> Result<
    (Seq<char>, u16),
    UriErrorView,
> {
    let k = last_at(host_part, ':');
    if k >= 0 {
        match text::parsed_number(host_part.subrange(k + 1, host_part.len() as int), 65535) {
            Some(port) => Ok((host_part.subrange(0, k), port as u16)),
            None => Err(UriErrorView::InvalidPort),
        }
    } else {
        match scheme_port(scheme) {
            Some(port) => Ok((host_part, port)),
            None => Err(UriErrorView::UnsupportedScheme(scheme)),
        }
    }
}

/// The address of a server that text stands for.
pub open spec fn uri_parsed(cs: Seq<char>) -> Result<UriView, UriErrorView> {
    let n = cs.len() as int;
    let k = text::first_at(cs, 0, ':');
    if k >= n {
        Err(UriErrorView::MissingScheme)
    } else {
        let scheme = cs.subrange(0, k);
        let rest = cs.subrange(k + 1, n);
        let q = text::first_at(rest, 0, '?');
        let host_part = rest.subrange(0, q);
        let query = if q < rest.len() {
            rest.subrange(q + 1, rest.len() as int)
        } else {
            seq![]
        };
        match host_and_port(host_part, scheme) {
            Err(e) => Err(e),
            Ok((host, port)) => match scheme_transport(scheme) {
                None => Err(UriErrorView::UnsupportedScheme(scheme)),
                Some(t) => match query_transport(query, t) {
                    Err(e) => Err(e),
                    Ok(transport) => if text::starts_with(scheme, "stun"@) && occurs(
                        query,
                        "transport"@,
                    ) {
                        Err(UriErrorView::StunTransport)
                    } else {
                        match scheme_kind(scheme) {
                            Some(kind) => Ok(UriView { kind, host, port, transport }),
                            None => Err(UriErrorView::UnsupportedScheme(scheme)),
                        }
                    },
                },
            },
        }
    }
}

/// The port of a scheme.
pub fn default_port_for_scheme(scheme: &[char]) -> (r: Result<u16, UriError>)
    ensures
        match r {
            Ok(port) => scheme_port(scheme@) == Some(port),
            Err(e) => scheme_port(scheme@) is None && e@ == UriErrorView::UnsupportedScheme(
                scheme@,
            ),
        },
{
    if text::chars_are(scheme, "stun") || text::chars_are(scheme, "turn") {
        Ok(3478)
    } else if text::chars_are(scheme, "stuns") || text::chars_are(scheme, "turns") {
        Ok(5349)
    } else {
        Err(UriError::UnsupportedScheme(text::string_of(scheme)))
    }
}

/// The transport of a scheme.
pub fn default_transport_for_scheme(scheme: &[char]) -> (r: Result<IceTransportProtocol, UriError>)
    ensures
        match r {
            Ok(t) => scheme_transport(scheme@) == Some(t),
            Err(e) => scheme_transport(scheme@) is None && e@ == UriErrorView::UnsupportedScheme(
                scheme@,
            ),
        },
{
    if text::chars_are(scheme, "stun") || text::chars_are(scheme, "turn") {
        Ok(IceTransportProtocol::Udp)
    } else if text::chars_are(scheme, "stuns") || text::chars_are(scheme, "turns") {
        Ok(IceTransportProtocol::Tcp)
    } else {
        Err(UriError::UnsupportedScheme(text::string_of(scheme)))
    }
}

fn find_last(cs: &[char], c: char) -> (r: Option<usize>)
    ensures
        match r {
            Some(k) => last_at(cs@, c) == k && k < cs@.len(),
            None => last_at(cs@, c) == -1,
        },
{
    let mut i: usize = cs.len();
    assert(cs@.subrange(0, i as int) =~= cs@);
    while i > 0
        invariant
            i <= cs@.len(),
            last_at(cs@, c) == last_at(cs@.subrange(0, i as int), c),
        decreases i,
    {
        let ghost head = cs@.subrange(0, i as int);
        assert(head.drop_last() =~= cs@.subrange(0, i - 1));
        assert(head.last() == cs@[i - 1]);
        if cs[i - 1] == c {
            return Some(i - 1);
        }
        i -= 1;
    }
    None
}

fn has_occurrence(cs: &[char], needle: &str) -> (r: bool)
    ensures
        r == occurs(cs@, needle@),
{
    let p = text::chars_of(needle);
    let n: usize = cs.len();
    let m: usize = p.len();
    if m > n {
        return false;
    }
    let mut i: usize = 0;
    while i <= n - m
        invariant
            n == cs@.len(),
            m == p@.len(),
            p@ == needle@,
            m <= n,
            i <= n - m + 1,
            forall|k: int| 0 <= k < i ==> #[trigger] cs@.subrange(k, k + m) != needle@,
        decreases n - i,
    {
        let piece = text::copy_chars(cs, i, i + m);
        if text::chars_eq(piece.as_slice(), p.as_slice()) {
            assert(cs@.subrange(i as int, i + m) == needle@);
            return true;
        }
        if i == n - m {
            assert forall|k: int|
                0 <= k && k + needle@.len() <= cs@.len() implies #[trigger] cs@.subrange(
                k,
                k + needle@.len(),
            ) != needle@ by {
                assert(cs@.subrange(k, k + m) != needle@);
            }
            return false;
        }
        i += 1;
    }
    false
}

/// Whether a result of reading is the result that `s` says.
pub open spec fn transport_is(
    r: Result<IceTransportProtocol, UriError>,
    s: Result<IceTransportProtocol, UriErrorView>,
) -> bool {
    match r {
        Ok(t) => s == Ok::<IceTransportProtocol, UriErrorView>(t),
        Err(e) => s == Err::<IceTransportProtocol, UriErrorView>(e@),
    }
}

fn read_param(param: &[char], current: IceTransportProtocol) -> (r: Result<
    IceTransportProtocol,
    UriError,
>)
    ensures
        transport_is(
            r,
            match param_transport(param@) {
                Some(x) => x,
                None => Ok(current),
            },
        ),
{
    let n: usize = param.len();
    let k: usize = text::find_char(param, 0, '=');
    if k == n {
        return Ok(current);
    }
    let key = text::copy_chars(param, 0, k);
    if !text::chars_are(key.as_slice(), "transport") {
        return Ok(current);
    }
    let value = text::copy_chars(param, k + 1, n);
    let lowered = text::to_lower(value.as_slice());
    if text::chars_are(lowered.as_slice(), "udp") {
        Ok(IceTransportProtocol::Udp)
    } else if text::chars_are(lowered.as_slice(), "tcp") {
        Ok(IceTransportProtocol::Tcp)
    } else {
        Err(UriError::UnsupportedTransport(text::string_of(lowered.as_slice())))
    }
}

fn read_query(query: &[char], current: IceTransportProtocol) -> (r: Result<
    IceTransportProtocol,
    UriError,
>)
    ensures
        transport_is(r, query_transport(query@, current)),
    decreases query@.len(),
{
    let n: usize = query.len();
    let k: usize = text::find_char(query, 0, '&');
    if k == n {
        return read_param(query, current);
    }
    let param = text::copy_chars(query, 0, k);
    let t = read_param(param.as_slice(), current)?;
    let rest = text::copy_chars(query, k + 1, n);
    read_query(rest.as_slice(), t)
}

impl IceServerUri {
    /// Reads the address of a server.
    pub fn parse(input: &str) -> (r: Result<Self, UriError>)
        ensures
            match r {
                Ok(uri) => uri_parsed(input@) == Ok::<UriView, UriErrorView>(uri@),
                Err(e) => uri_parsed(input@) == Err::<UriView, UriErrorView>(e@),
            },
    {
        let cs = text::chars_of(input);
        let n: usize = cs.len();
        let k: usize = text::find_char(cs.as_slice(), 0, ':');
        if k == n {
            return Err(UriError::MissingScheme);
        }
        let scheme = text::copy_chars(cs.as_slice(), 0, k);
        let rest = text::copy_chars(cs.as_slice(), k + 1, n);
        let q: usize = text::find_char(rest.as_slice(), 0, '?');
        let host_part = text::copy_chars(rest.as_slice(), 0, q);
        let query: Vec<char> = if q < rest.len() {
            text::copy_chars(rest.as_slice(), q + 1, rest.len())
        } else {
            let none: Vec<char> = Vec::new();
            assert(none@ =~= seq![]);
            none
        };
        let (host, port) = match find_last(host_part.as_slice(), ':') {
            Some(k) => {
                let digits = text::copy_chars(host_part.as_slice(), k + 1, host_part.len());
                match text::parse_number(digits.as_slice(), 65535) {
                    Some(port) => (
                        text::copy_chars(host_part.as_slice(), 0, k),
                        port as u16,
                    ),
                    None => {
                        return Err(UriError::InvalidPort);
                    },
                }
            },
            None => match default_port_for_scheme(scheme.as_slice()) {
                Ok(port) => (host_part, port),
                Err(e) => {
                    return Err(e);
                },
            },
        };
        let default = match default_transport_for_scheme(scheme.as_slice()) {
            Ok(t) => t,
            Err(e) => {
                return Err(e);
            },
        };
        let transport = match read_query(query.as_slice(), default) {
            Ok(t) => t,
            Err(e) => {
                return Err(e);
            },
        };
        let stun = text::chars_of("stun");
        if text::has_prefix(scheme.as_slice(), stun.as_slice()) && has_occurrence(
            query.as_slice(),
            "transport",
        ) {
            return Err(UriError::StunTransport);
        }
        let kind = if text::chars_are(scheme.as_slice(), "stun") || text::chars_are(
            scheme.as_slice(),
            "stuns",
        ) {
            IceUriKind::Stun
        } else if text::chars_are(scheme.as_slice(), "turn") || text::chars_are(
            scheme.as_slice(),
            "turns",
        ) {
            IceUriKind::Turn
        } else {
            return Err(UriError::UnsupportedScheme(text::string_of(scheme.as_slice())));
        };
        Ok(IceServerUri { kind, host: text::string_of(host.as_slice()), port, transport })
    }

    /// The text that names the server to a resolver.
    pub fn target(&self) -> (r: String)
        ensures
            r@ == self.host@ + ":"@ + text::decimal(self.port as nat),
    {
        let mut out = self.host.clone();
        out.append(":");
        text::push_decimal(&mut out, self.port as u64);
        out
    }
}

/// The first address that may be used, of those that a resolver found.
pub open spec fn usable_address(addrs: Seq<SocketAddr>, disable_ipv6: bool) -> Option<SocketAddr>
    decreases addrs.len(),
{
    if addrs.len() == 0 {
        None
    } else if disable_ipv6 && addrs[0].ip is V6 {
        usable_address(addrs.drop_first(), disable_ipv6)
    } else {
        Some(addrs[0])
    }
}

/// Picks the first address that may be used, of those that a resolver found.
pub fn resolve(addrs: &[SocketAddr], disable_ipv6: bool) -> (r: Result<SocketAddr, UriError>)
    ensures
        match r {
            Ok(a) => usable_address(addrs@, disable_ipv6) == Some(a),
            Err(e) => usable_address(addrs@, disable_ipv6) is None && e@
                == UriErrorView::Unresolved,
        },
{
    let n: usize = addrs.len();
    let mut i: usize = 0;
    assert(addrs@.subrange(0, n as int) =~= addrs@);
    while i < n
        invariant
            n == addrs@.len(),
            i <= n,
            usable_address(addrs@, disable_ipv6) == usable_address(
                addrs@.subrange(i as int, n as int),
                disable_ipv6,
            ),
        decreases n - i,
    {
        let ghost rest = addrs@.subrange(i as int, n as int);
        assert(rest.drop_first() =~= addrs@.subrange(i + 1, n as int));
        let addr = addrs[i];
        if !(disable_ipv6 && addr.is_ipv6()) {
            return Ok(addr);
        }
        i += 1;
    }
    Err(UriError::Unresolved)
}

} // verus!
