//! ICE candidates, their pairs, and the parameters that the peers exchange.
use vstd::prelude::*;
use vstd::string::*;

use crate::crypto;
use crate::encoding_laws;
use crate::text;
use crate::transports::ice::address;
use crate::transports::ice::address::{IpAddr, SocketAddr};

verus! {

#[derive(Debug, Clone, Copy, PartialEq, Eq, Structural)]
pub enum IceTransportState {
    New,
    Checking,
    Connected,
    Completed,
    Failed,
    Disconnected,
    Closed,
}

#[derive(Debug, Clone, Copy, PartialEq, Eq, Structural)]
pub enum IceGathererState {
    New,
    Gathering,
    Complete,
}

#[derive(Debug, Clone, Copy, PartialEq, Eq, Structural)]
pub enum IceRole {
    Controlling,
    Controlled,
}

/// How a candidate was found.
#[derive(Debug, Clone, Copy, PartialEq, Eq, Structural)]
pub enum IceCandidateType {
    Host,
    ServerReflexive,
    PeerReflexive,
    Relay,
}

impl IceCandidateType {
    /// The name of the type in a session description.
    pub open spec fn name(self) -> Seq<char> {
        match self {
            IceCandidateType::Host => "host"@,
            IceCandidateType::ServerReflexive => "srflx"@,
            IceCandidateType::PeerReflexive => "prflx"@,
            IceCandidateType::Relay => "relay"@,
        }
    }

    /// The name of the type in a session description.
    pub fn as_str(&self) -> (r: &'static str)
        ensures
            r@ == self.name(),
    {
        match self {
            IceCandidateType::Host => "host",
            IceCandidateType::ServerReflexive => "srflx",
            IceCandidateType::PeerReflexive => "prflx",
            IceCandidateType::Relay => "relay",
        }
    }

    /// How much the type is preferred, from 0 to 126.
    pub open spec fn preference(self) -> nat {
        match self {
            IceCandidateType::Host => 126,
            IceCandidateType::PeerReflexive => 110,
            IceCandidateType::ServerReflexive => 100,
            IceCandidateType::Relay => 0,
        }
    }

    /// The type with this name.
    pub open spec fn of_name(cs: Seq<char>) -> Option<IceCandidateType> {
        if cs == "host"@ {
            Some(IceCandidateType::Host)
        } else if cs == "srflx"@ {
            Some(IceCandidateType::ServerReflexive)
        } else if cs == "prflx"@ {
            Some(IceCandidateType::PeerReflexive)
        } else if cs == "relay"@ {
            Some(IceCandidateType::Relay)
        } else {
            None
        }
    }

    /// The type with this name.
    pub fn from_name(cs: &[char]) -> (r: Option<IceCandidateType>)
        ensures
            r == IceCandidateType::of_name(cs@),
    {
        if text::chars_are(cs, "host") {
            Some(IceCandidateType::Host)
        } else if text::chars_are(cs, "srflx") {
            Some(IceCandidateType::ServerReflexive)
        } else if text::chars_are(cs, "prflx") {
            Some(IceCandidateType::PeerReflexive)
        } else if text::chars_are(cs, "relay") {
            Some(IceCandidateType::Relay)
        } else {
            None
        }
    }
}

/// Why text is no candidate.
#[derive(Debug, Clone, Copy, PartialEq, Eq, Structural)]
pub enum CandidateError {
    /// Fewer than eight words.
    Invalid,
    /// A component, priority or port that is no number, or too great.
    Number,
    /// An address that cannot be read.
    Address,
    /// A type that is not known.
    UnknownType,
}

/// An address at which a peer may be reached.
#[derive(Debug, Clone, PartialEq, Eq)]
pub struct IceCandidate {
    pub foundation: String,
    pub priority: u32,
    pub address: SocketAddr,
    pub typ: IceCandidateType,
    pub transport: String,
    pub related_address: Option<SocketAddr>,
    pub component: u16,
}

/// What a candidate says.
#[verifier::ext_equal]
pub struct CandidateView {
    pub foundation: Seq<char>,
    pub priority: u32,
    pub address: SocketAddr,
    pub typ: IceCandidateType,
    pub transport: Seq<char>,
    pub related_address: Option<SocketAddr>,
    pub component: u16,
}

impl View for IceCandidate {
    type V = CandidateView;

    open spec fn view(&self) -> CandidateView {
        CandidateView {
            foundation: self.foundation@,
            priority: self.priority,
            address: self.address,
            typ: self.typ,
            transport: self.transport@,
            related_address: self.related_address,
            component: self.component,
        }
    }
}

/// The priority of a candidate (RFC 8445): the preference of its type, one local preference for
/// all, and the component. There are 255 components, from 1 on; any other number adds nothing.
pub open spec fn priority_of(typ: IceCandidateType, component: u16) -> u32 {
    (typ.preference() * 0x100_0000 + 65535 * 256 + (if 0 < component < 256 {
        256 - component
    } else {
        0
    })) as u32
}

/// A candidate of the given type with the usual priority.
pub open spec fn candidate_of(
    prefix: Seq<char>,
    typ: IceCandidateType,
    address: SocketAddr,
    transport: Seq<char>,
    related_address: Option<SocketAddr>,
    component: u16,
) -> CandidateView {
    CandidateView {
        foundation: prefix + address.ip.text(),
        priority: priority_of(typ, component),
        address,
        typ,
        transport,
        related_address,
        component,
    }
}

/// The words of a candidate in a session description.
pub open spec fn candidate_words(c: CandidateView) -> Seq<Seq<char>> {
    let first = seq![
        c.foundation,
        text::decimal(c.component as nat),
        text::lower(c.transport),
        text::decimal(c.priority as nat),
        c.address.ip.text(),
        text::decimal(c.address.port as nat),
        "typ"@,
        c.typ.name(),
    ];
    match c.related_address {
        Some(a) => first + seq!["raddr"@, a.ip.text(), "rport"@, text::decimal(a.port as nat)],
        None => first,
    }
}

/// The candidate that text stands for.
pub open spec fn candidate_parsed(cs: Seq<char>) -> Result<CandidateView, CandidateError> {
    let ws = text::words(cs);
    if ws.len() < 8 {
        Err(CandidateError::Invalid)
    } else {
        match (
            text::parsed_number(ws[1], 65535),
            text::parsed_number(ws[3], 0xFFFF_FFFF),
            text::parsed_number(ws[5], 65535),
        ) {
            (Some(component), Some(priority), Some(port)) => match address::host_parsed(
                ws[4],
                port as u16,
            ) {
                None => Err(CandidateError::Address),
                Some(address) => match IceCandidateType::of_name(ws[7]) {
                    None => Err(CandidateError::UnknownType),
                    Some(typ) => Ok(
                        CandidateView {
                            foundation: text::without_prefix(ws[0], "candidate:"@),
                            priority: priority as u32,
                            address,
                            typ,
                            transport: ws[2],
                            related_address: None,
                            component: component as u16,
                        },
                    ),
                },
            },
            _ => Err(CandidateError::Number),
        }
    }
}

impl IceCandidate {
    /// A candidate on an address of this machine.
    pub fn host(address: SocketAddr, component: u16) -> (r: Self)
        ensures
            r@ == candidate_of(
                "host:"@,
                IceCandidateType::Host,
                address,
                "udp"@,
                None,
                component,
            ),
    {
        IceCandidate {
            foundation: text::joined("host:", address.ip.to_text().as_str()),
            priority: IceCandidate::priority_for(IceCandidateType::Host, component),
            address,
            typ: IceCandidateType::Host,
            transport: String::from_str("udp"),
            related_address: None,
            component,
        }
    }

    /// A candidate on the address that a server saw.
    pub fn server_reflexive(base: SocketAddr, mapped: SocketAddr, component: u16) -> (r: Self)
        ensures
            r@ == candidate_of(
                "srflx:"@,
                IceCandidateType::ServerReflexive,
                mapped,
                "udp"@,
                Some(base),
                component,
            ),
    {
        IceCandidate {
            foundation: text::joined("srflx:", mapped.ip.to_text().as_str()),
            priority: IceCandidate::priority_for(IceCandidateType::ServerReflexive, component),
            address: mapped,
            typ: IceCandidateType::ServerReflexive,
            transport: String::from_str("udp"),
            related_address: Some(base),
            component,
        }
    }

    /// A candidate on an address that a server relays.
    pub fn relay(mapped: SocketAddr, component: u16, transport: &str) -> (r: Self)
        ensures
            r@ == candidate_of(
                "relay:"@,
                IceCandidateType::Relay,
                mapped,
                transport@,
                None,
                component,
            ),
    {
        IceCandidate {
            foundation: text::joined("relay:", mapped.ip.to_text().as_str()),
            priority: IceCandidate::priority_for(IceCandidateType::Relay, component),
            address: mapped,
            typ: IceCandidateType::Relay,
            transport: String::from_str(transport),
            related_address: None,
            component,
        }
    }

    /// The priority of a candidate.
    pub fn priority_for(typ: IceCandidateType, component: u16) -> (r: u32)
        ensures
            r == priority_of(typ, component),
    {
        let type_pref: u32 = match typ {
            IceCandidateType::Host => 126,
            IceCandidateType::PeerReflexive => 110,
            IceCandidateType::ServerReflexive => 100,
            IceCandidateType::Relay => 0,
        };
        let component_pref: u32 = if 0 < component && component < 256 {
            256 - component as u32
        } else {
            0
        };
        type_pref * 0x100_0000 + 65535 * 256 + component_pref
    }

    /// The candidate as it stands in a session description.
    pub fn to_sdp(&self) -> (r: String)
        ensures
            r@ == text::spaced(candidate_words(self@)),
    {
        let transport = text::chars_of(self.transport.as_str());
        let lowered = text::to_lower(transport.as_slice());
        let mut parts: Vec<String> = Vec::new();
        parts.push(self.foundation.clone());
        parts.push(text::decimal_string(self.component as u64));
        parts.push(text::string_of(lowered.as_slice()));
        parts.push(text::decimal_string(self.priority as u64));
        parts.push(self.address.ip.to_text());
        parts.push(text::decimal_string(self.address.port as u64));
        parts.push(String::from_str("typ"));
        parts.push(String::from_str(self.typ.as_str()));
        if let Some(addr) = self.related_address {
            parts.push(String::from_str("raddr"));
            parts.push(addr.ip.to_text());
            parts.push(String::from_str("rport"));
            parts.push(text::decimal_string(addr.port as u64));
        }
        assert(text::string_views(parts@) =~= candidate_words(self@));
        text::join_spaced(parts.as_slice())
    }

    /// Reads a candidate of a session description. A related address is not read.
    pub fn from_sdp(sdp: &str) -> (r: Result<Self, CandidateError>)
        ensures
            match r {
                Ok(c) => candidate_parsed(sdp@) == Ok::<CandidateView, CandidateError>(c@),
                Err(e) => candidate_parsed(sdp@) == Err::<CandidateView, CandidateError>(e),
            },
    {
        let cs = text::chars_of(sdp);
        let parts = text::split_words(cs.as_slice());
        let ghost ws = text::words(sdp@);
        if parts.len() < 8 {
            assert(ws.len() == parts@.len());
            return Err(CandidateError::Invalid);
        }
        assert(forall|i: int| 0 <= i < 8 ==> (#[trigger] parts@[i])@ == ws[i]);
        let foundation = text::trim_prefix(parts[0].as_slice(), "candidate:");
        let component = match text::parse_number(parts[1].as_slice(), 65535) {
            Some(x) => x as u16,
            None => {
                return Err(CandidateError::Number);
            },
        };
        let priority = match text::parse_number(parts[3].as_slice(), 0xFFFF_FFFF) {
            Some(x) => x as u32,
            None => {
                return Err(CandidateError::Number);
            },
        };
        let port = match text::parse_number(parts[5].as_slice(), 65535) {
            Some(x) => x as u16,
            None => {
                return Err(CandidateError::Number);
            },
        };
        let address = match address::parse_host(parts[4].as_slice(), port) {
            Some(address) => address,
            None => {
                return Err(CandidateError::Address);
            },
        };
        let typ = match IceCandidateType::from_name(parts[7].as_slice()) {
            Some(typ) => typ,
            None => {
                return Err(CandidateError::UnknownType);
            },
        };
        Ok(
            IceCandidate {
                foundation: text::string_of(foundation.as_slice()),
                priority,
                address,
                typ,
                transport: text::string_of(parts[2].as_slice()),
                related_address: None,
                component,
            },
        )
    }

    /// A copy of the candidate.
    pub fn copy(&self) -> (r: Self)
        ensures
            r@ == self@,
    {
        IceCandidate {
            foundation: self.foundation.clone(),
            priority: self.priority,
            address: self.address,
            typ: self.typ,
            transport: self.transport.clone(),
            related_address: self.related_address,
            component: self.component,
        }
    }
}

/// A local and a remote candidate that packets may go between.
#[derive(Debug, Clone, PartialEq, Eq)]
pub struct IceCandidatePair {
    pub local: IceCandidate,
    pub remote: IceCandidate,
    pub nominated: bool,
}

/// What a pair of candidates says.
#[verifier::ext_equal]
pub struct PairView {
    pub local: CandidateView,
    pub remote: CandidateView,
    pub nominated: bool,
}

impl View for IceCandidatePair {
    type V = PairView;

    open spec fn view(&self) -> PairView {
        PairView { local: self.local@, remote: self.remote@, nominated: self.nominated }
    }
}

/// The view of a pair, if there is one.
pub open spec fn pair_view(p: Option<IceCandidatePair>) -> Option<PairView> {
    match p {
        Some(p) => Some(p@),
        None => None,
    }
}

/// The views of some candidates.
pub open spec fn candidate_views(cs: Seq<IceCandidate>) -> Seq<CandidateView> {
    cs.map_values(|c: IceCandidate| c@)
}

/// Copies some candidates.
pub fn copy_candidates(cs: &Vec<IceCandidate>) -> (r: Vec<IceCandidate>)
    ensures
        candidate_views(r@) == candidate_views(cs@),
{
    let n: usize = cs.len();
    let mut out: Vec<IceCandidate> = Vec::new();
    let mut i: usize = 0;
    while i < n
        invariant
            n == cs@.len(),
            i <= n,
            out@.len() == i,
            forall|k: int| 0 <= k < i ==> (#[trigger] out@[k])@ == cs@[k]@,
        decreases n - i,
    {
        out.push(cs[i].copy());
        i += 1;
    }
    assert(candidate_views(out@) =~= candidate_views(cs@));
    out
}

impl IceCandidatePair {
    /// A copy of the pair.
    pub fn copy(&self) -> (r: Self)
        ensures
            r@ == self@,
    {
        IceCandidatePair {
            local: self.local.copy(),
            remote: self.remote.copy(),
            nominated: self.nominated,
        }
    }

    pub fn new(local: IceCandidate, remote: IceCandidate) -> (r: Self)
        ensures
            r@ == (PairView { local: local@, remote: remote@, nominated: false }),
    {
        IceCandidatePair { local, remote, nominated: false }
    }
}

/// What the peers exchange to authenticate connectivity checks.
#[derive(Debug, Clone)]
pub struct IceParameters {
    pub username_fragment: String,
    pub password: String,
    pub ice_lite: bool,
    pub tie_breaker: u64,
}

/// What the parameters of one end say.
#[verifier::ext_equal]
pub struct ParametersView {
    pub username_fragment: Seq<char>,
    pub password: Seq<char>,
    pub ice_lite: bool,
    pub tie_breaker: u64,
}

impl View for IceParameters {
    type V = ParametersView;

    open spec fn view(&self) -> ParametersView {
        ParametersView {
            username_fragment: self.username_fragment@,
            password: self.password@,
            ice_lite: self.ice_lite,
            tie_breaker: self.tie_breaker,
        }
    }
}

/// The view of the parameters of one end, if they are known.
pub open spec fn parameters_view(p: Option<IceParameters>) -> Option<ParametersView> {
    match p {
        Some(p) => Some(p@),
        None => None,
    }
}

/// Parameters as they are drawn: 8 bytes to name an end and 16 as its password, in hexadecimal.
pub open spec fn is_drawn(v: ParametersView) -> bool {
    &&& exists|f: Seq<u8>, p: Seq<u8>|
        f.len() == 8 && p.len() == 16 && v.username_fragment == #[trigger] text::hex(f)
            && v.password == #[trigger] text::hex(p)
    &&& !v.ice_lite
}

impl IceParameters {
    /// Parameters with a random tie breaker.
    pub fn new(username_fragment: String, password: String) -> (r: Self)
        ensures
            r.username_fragment@ == username_fragment@,
            r.password@ == password@,
            !r.ice_lite,
    {
        IceParameters {
            username_fragment,
            password,
            ice_lite: false,
            tie_breaker: crypto::random_u64(),
        }
    }

    /// The parameters that random bytes give: 16 and 32 hexadecimal digits.
    pub fn from_random(fragment: &[u8], password: &[u8], tie_breaker: u64) -> (r: Self)
        ensures
            r.username_fragment@ == text::hex(fragment@),
            r.password@ == text::hex(password@),
            !r.ice_lite,
            r.tie_breaker == tie_breaker,
    {
        IceParameters {
            username_fragment: text::hex_encode(fragment),
            password: text::hex_encode(password),
            ice_lite: false,
            tie_breaker,
        }
    }

    /// Random parameters: 16 hexadecimal digits to name this end and 32 as its password.
    pub fn generate() -> (r: Self)
        ensures
            is_drawn(r@),
            r.username_fragment@.len() == 16,
            r.password@.len() == 32,
    {
        let fragment = crypto::random_bytes(8);
        let password = crypto::random_bytes(16);
        proof {
            text::lemma_hex_len(fragment@);
            text::lemma_hex_len(password@);
        }
        IceParameters::from_random(fragment.as_slice(), password.as_slice(), crypto::random_u64())
    }

    /// A copy of the parameters.
    pub fn copy(&self) -> (r: Self)
        ensures
            r@ == self@,
    {
        IceParameters {
            username_fragment: self.username_fragment.clone(),
            password: self.password.clone(),
            ice_lite: self.ice_lite,
            tie_breaker: self.tie_breaker,
        }
    }
}

proof fn lemma_names_are_words(typ: IceCandidateType)
    ensures
        text::is_word("typ"@),
        text::is_word("raddr"@),
        text::is_word("rport"@),
        text::is_word(typ.name()),
        IceCandidateType::of_name(typ.name()) == Some(typ),
{
    reveal_strlit("typ");
    reveal_strlit("raddr");
    reveal_strlit("rport");
    reveal_strlit("host");
    reveal_strlit("srflx");
    reveal_strlit("prflx");
    reveal_strlit("relay");
    assert("host"@[0] == 'h');
    assert("srflx"@[0] == 's');
    assert("prflx"@[0] == 'p');
    assert("relay"@[0] == 'r');
}

proof fn lemma_lower_word(w: Seq<char>)
    requires
        text::is_word(w),
    ensures
        text::is_word(text::lower(w)),
{
    let l = text::lower(w);
    assert forall|i: int| 0 <= i < l.len() implies !text::is_space(#[trigger] l[i]) by {
        assert(!text::is_space(w[i]));
    }
}

proof fn lemma_words_of_candidate(c: CandidateView)
    requires
        c.address.ip is V4,
        text::is_word(c.foundation),
        text::is_word(c.transport),
    ensures
        text::words(text::spaced(candidate_words(c))) == candidate_words(c),
{
    let ws = candidate_words(c);
    lemma_names_are_words(c.typ);
    lemma_lower_word(c.transport);
    text::lemma_decimal(c.component as nat);
    text::lemma_decimal(c.priority as nat);
    text::lemma_decimal(c.address.port as nat);
    address::law_v4_text(c.address.ip->V4_0);
    if let Some(a) = c.related_address {
        address::lemma_ip_word(a.ip);
        text::lemma_decimal(a.port as nat);
    }
    assert forall|i: int| 0 <= i < ws.len() implies text::is_word(#[trigger] ws[i]) by {
        if i < 8 {
            assert(i == 0 || i == 1 || i == 2 || i == 3 || i == 4 || i == 5 || i == 6 || i == 7);
        } else {
            assert(i == 8 || i == 9 || i == 10 || i == 11);
        }
    }
    text::lemma_words_of_spaced(ws);
}

proof fn lemma_v4_host(x: u32, port: u16)
    ensures
        address::host_parsed(address::v4_text(x), port) == Some(
            SocketAddr { ip: IpAddr::V4(x), port, scope_id: 0 },
        ),
{
    let ip = address::v4_text(x);
    let first = text::decimal(address::octet(x, 0));
    address::law_v4_text(x);
    text::lemma_decimal(address::octet(x, 0));
    assert(ip[0] == first[0]);
    assert(text::is_digit(first[0]));
}

/// The first words of a candidate on an IPv4 address, one by one.
proof fn lemma_first_words(c: CandidateView)
    requires
        c.address.ip is V4,
    ensures
        ({
            let ws = candidate_words(c);
            &&& ws.len() >= 8
            &&& ws[0] == c.foundation
            &&& ws[1] == text::decimal(c.component as nat)
            &&& ws[2] == text::lower(c.transport)
            &&& ws[3] == text::decimal(c.priority as nat)
            &&& ws[4] == address::v4_text(c.address.ip->V4_0)
            &&& ws[5] == text::decimal(c.address.port as nat)
            &&& ws[7] == c.typ.name()
        }),
{
}

/// The numbers among the words of a candidate.
proof fn lemma_numbers_read(c: CandidateView)
    ensures
        text::parsed_number(text::decimal(c.component as nat), 65535) == Some(c.component as nat),
        text::parsed_number(text::decimal(c.priority as nat), 0xFFFF_FFFF) == Some(
            c.priority as nat,
        ),
        text::parsed_number(text::decimal(c.address.port as nat), 65535) == Some(
            c.address.port as nat,
        ),
{
    text::lemma_parsed_decimal(c.component as nat, 65535);
    text::lemma_parsed_decimal(c.priority as nat, 0xFFFF_FFFF);
    text::lemma_parsed_decimal(c.address.port as nat, 65535);
}

/// What the words of a candidate on an IPv4 address stand for, one by one.
proof fn lemma_words_read(c: CandidateView)
    requires
        c.address.ip is V4,
        c.address.wf(),
    ensures
        ({
            let ws = candidate_words(c);
            &&& ws.len() >= 8
            &&& ws[0] == c.foundation
            &&& text::parsed_number(ws[1], 65535) == Some(c.component as nat)
            &&& ws[2] == text::lower(c.transport)
            &&& text::parsed_number(ws[3], 0xFFFF_FFFF) == Some(c.priority as nat)
            &&& address::host_parsed(ws[4], c.address.port) == Some(c.address)
            &&& text::parsed_number(ws[5], 65535) == Some(c.address.port as nat)
            &&& IceCandidateType::of_name(ws[7]) == Some(c.typ)
        }),
{
    lemma_first_words(c);
    lemma_names_are_words(c.typ);
    lemma_numbers_read(c);
    lemma_v4_host(c.address.ip->V4_0, c.address.port);
    assert(c.address.ip == IpAddr::V4(c.address.ip->V4_0));
}

/// A candidate on an IPv4 address is read back from its text, but for its related address, and
/// with its transport in lower case. The foundation and the transport are words, and the
/// foundation does not start with the name of the attribute.
pub proof fn law_parse_of_candidate(c: CandidateView)
    requires
        c.address.ip is V4,
        c.address.wf(),
        text::is_word(c.foundation),
        text::is_word(c.transport),
        !text::starts_with(c.foundation, "candidate:"@),
    ensures
        candidate_parsed(text::spaced(candidate_words(c))) == Ok::<CandidateView, CandidateError>(
            CandidateView {
                transport: text::lower(c.transport),
                related_address: None,
                ..c
            },
        ),
{
    lemma_words_of_candidate(c);
    lemma_words_read(c);
}

/// A candidate is read in the same way where the name of the attribute stands before it.
pub proof fn law_parse_of_attribute(c: CandidateView)
    requires
        c.address.ip is V4,
        c.address.wf(),
        text::is_word(c.foundation),
        text::is_word(c.transport),
        !text::starts_with(c.foundation, "candidate:"@),
    ensures
        candidate_parsed(
            text::spaced(
                candidate_words(
                    CandidateView { foundation: "candidate:"@ + c.foundation, ..c },
                ),
            ),
        ) == candidate_parsed(text::spaced(candidate_words(c))),
{
    let d = CandidateView { foundation: "candidate:"@ + c.foundation, ..c };
    reveal_strlit("candidate:");
    assert forall|i: int| 0 <= i < d.foundation.len() implies !text::is_space(
        #[trigger] d.foundation[i],
    ) by {
        if i >= 10 {
            assert(d.foundation[i] == c.foundation[i - 10]);
        }
    }
    law_parse_of_candidate(c);
    lemma_words_of_candidate(d);
    lemma_words_read(d);
    encoding_laws::law_without_prefix(c.foundation, "candidate:"@);
}

} // verus!
