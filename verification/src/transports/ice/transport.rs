//! The state of connectivity establishment: who the peers are, which pairs of candidates to check,
//! and what packets mean.
use vstd::prelude::*;
use vstd::string::*;
use vstd::utf8::*;

use crate::config::RtcConfiguration;
use crate::text;
use crate::transports::ice::address::{IpAddr, SocketAddr};
use crate::transports::ice::candidate;
use crate::transports::ice::candidate::{
    CandidateView, IceCandidate, IceCandidatePair, IceCandidateType, IceGathererState,
    IceParameters, IceRole, IceTransportState, PairView, ParametersView,
};
use crate::transports::ice::gatherer;
use crate::transports::ice::gatherer::{GathererView, IceGatherer};
use crate::transports::ice::stun;
use crate::transports::ice::stun::{
    DecodedView, StunAttribute, StunClass, StunDecoded, StunError, StunMessage, StunMethod,
};
use crate::wire;

verus! {

/// Why a pair of candidates does not work, or cannot be checked.
#[derive(Debug, Clone, Copy, PartialEq, Eq, Structural)]
pub enum CheckError {
    NotUdp,
    NoRemoteParameters,
    /// The relay refused a permission, with this code if it gave one.
    PermissionRefused(Option<u16>),
    PermissionTimeout,
    NoTurnClient,
    NoSocket,
    Closed,
    Timeout,
    TransactionMismatch,
    Method,
    Refused,
    /// A message could not be written.
    Stun(StunError),
}

impl CheckError {
    /// The text of the failure.
    pub open spec fn text(&self) -> Seq<char> {
        match self {
            CheckError::NotUdp => "only UDP connectivity checks are supported"@,
            CheckError::NoRemoteParameters => "no remote params"@,
            CheckError::PermissionRefused(code) => match code {
                Some(n) => "CreatePermission failed: Some("@ + text::decimal(*n as nat) + ")"@,
                None => "CreatePermission failed: None"@,
            },
            CheckError::PermissionTimeout => "CreatePermission timeout"@,
            CheckError::NoTurnClient => "TURN client not found for relay candidate"@,
            CheckError::NoSocket => "no socket found for local candidate"@,
            CheckError::Closed => "channel closed"@,
            CheckError::Timeout => "timeout"@,
            CheckError::TransactionMismatch => "binding response transaction mismatch"@,
            CheckError::Method => "unexpected STUN method in binding response"@,
            CheckError::Refused => "binding request failed"@,
            CheckError::Stun(e) => e.text(),
        }
    }

    /// The text of the failure.
    pub fn message(&self) -> (r: String)
        ensures
            r@ == self.text(),
    {
        let s: &str = match self {
            CheckError::NotUdp => "only UDP connectivity checks are supported",
            CheckError::NoRemoteParameters => "no remote params",
            CheckError::PermissionRefused(code) => match code {
                Some(n) => {
                    let mut out = String::from_str("CreatePermission failed: Some(");
                    text::push_decimal(&mut out, *n as u64);
                    out.append(")");
                    return out;
                },
                None => "CreatePermission failed: None",
            },
            CheckError::PermissionTimeout => "CreatePermission timeout",
            CheckError::NoTurnClient => "TURN client not found for relay candidate",
            CheckError::NoSocket => "no socket found for local candidate",
            CheckError::Closed => "channel closed",
            CheckError::Timeout => "timeout",
            CheckError::TransactionMismatch => "binding response transaction mismatch",
            CheckError::Method => "unexpected STUN method in binding response",
            CheckError::Refused => "binding request failed",
            CheckError::Stun(e) => {
                return e.message();
            },
        };
        String::from_str(s)
    }
}

/// What became of a request that was sent.
#[derive(Debug, Clone, PartialEq, Eq)]
pub enum CheckReply {
    /// The response.
    Message(StunDecoded),
    /// No one waits for it any longer.
    Closed,
    /// Nothing came in time.
    Timeout,
}

/// What a packet leads to.
#[derive(Debug, Clone, PartialEq, Eq)]
pub enum IcePacket {
    Ignored,
    /// A packet to send back to where it came from.
    Respond(Vec<u8>),
    /// The response to a request that is pending.
    Completed(StunDecoded),
    /// Data for the receiver.
    Data(Vec<u8>),
}

/// What a packet leads to.
#[verifier::ext_equal]
pub enum IcePacketView {
    Ignored,
    Respond(Seq<u8>),
    Completed(DecodedView),
    Data(Seq<u8>),
}

impl View for IcePacket {
    type V = IcePacketView;

    open spec fn view(&self) -> IcePacketView {
        match self {
            IcePacket::Ignored => IcePacketView::Ignored,
            IcePacket::Respond(b) => IcePacketView::Respond(b@),
            IcePacket::Completed(d) => IcePacketView::Completed(d@),
            IcePacket::Data(b) => IcePacketView::Data(b@),
        }
    }
}

/// Which socket packets of the selected pair go through.
#[derive(Debug, Clone, Copy, PartialEq, Eq, Structural)]
pub enum SocketChoice {
    /// The relay with this relayed address.
    Turn(SocketAddr),
    /// The socket of the candidate at this address.
    Udp(SocketAddr),
}

/// Which socket packets from a candidate of this end go through.
pub open spec fn route(local: CandidateView) -> SocketChoice {
    if local.typ == IceCandidateType::Relay {
        SocketChoice::Turn(local.address)
    } else {
        SocketChoice::Udp(local.address)
    }
}

/// Which socket packets from a candidate of this end go through.
pub fn socket_for(local: &IceCandidate) -> (r: SocketChoice)
    ensures
        r == route(local@),
{
    if local.typ == IceCandidateType::Relay {
        SocketChoice::Turn(local.address)
    } else {
        SocketChoice::Udp(local.address)
    }
}

/// The state of connectivity establishment.
#[derive(Debug, Clone)]
pub struct IceTransport {
    state: IceTransportState,
    role: IceRole,
    selected_pair: Option<IceCandidatePair>,
    local_candidates: Vec<IceCandidate>,
    remote_candidates: Vec<IceCandidate>,
    gather_state: IceGathererState,
    config: RtcConfiguration,
    gatherer: IceGatherer,
    local_parameters: IceParameters,
    remote_parameters: Option<IceParameters>,
    pending: Vec<[u8; 12]>,
}

/// The state of connectivity establishment. `local_candidates` are those that gathering ended
/// with; `pending` are the transactions whose response is awaited.
#[verifier::ext_equal]
pub struct IceView {
    pub state: IceTransportState,
    pub role: IceRole,
    pub selected_pair: Option<PairView>,
    pub local_candidates: Seq<CandidateView>,
    pub remote_candidates: Seq<CandidateView>,
    pub gather_state: IceGathererState,
    pub config: RtcConfiguration,
    pub gatherer: GathererView,
    pub local_parameters: ParametersView,
    pub remote_parameters: Option<ParametersView>,
    pub pending: Set<Seq<u8>>,
}

/// The transactions in a list.
pub open spec fn transactions(pending: Seq<[u8; 12]>) -> Set<Seq<u8>> {
    Set::new(|tx: Seq<u8>| exists|i: int| 0 <= i < pending.len() && (#[trigger] pending[i])@ == tx)
}

impl View for IceTransport {
    type V = IceView;

    closed spec fn view(&self) -> IceView {
        IceView {
            state: self.state,
            role: self.role,
            selected_pair: candidate::pair_view(self.selected_pair),
            local_candidates: candidate::candidate_views(self.local_candidates@),
            remote_candidates: candidate::candidate_views(self.remote_candidates@),
            gather_state: self.gather_state,
            config: self.config,
            gatherer: self.gatherer@,
            local_parameters: self.local_parameters@,
            remote_parameters: candidate::parameters_view(self.remote_parameters),
            pending: transactions(self.pending@),
        }
    }
}

/// A transport that has done nothing.
pub open spec fn new_transport(config: RtcConfiguration, parameters: ParametersView) -> IceView {
    IceView {
        state: IceTransportState::New,
        role: IceRole::Controlled,
        selected_pair: None,
        local_candidates: seq![],
        remote_candidates: seq![],
        gather_state: IceGathererState::New,
        config,
        gatherer: gatherer::new_gatherer(config.disable_ipv6),
        local_parameters: parameters,
        remote_parameters: None,
        pending: Set::empty(),
    }
}

/// A local candidate with each remote one of the same transport.
pub open spec fn pairs_with(local: CandidateView, remotes: Seq<CandidateView>) -> Seq<PairView>
    decreases remotes.len(),
{
    if remotes.len() == 0 {
        seq![]
    } else {
        let first = pairs_with(local, remotes.drop_last());
        if local.transport == remotes.last().transport {
            first.push(PairView { local, remote: remotes.last(), nominated: false })
        } else {
            first
        }
    }
}

/// All pairs of a local and a remote candidate of the same transport.
pub open spec fn pairs_of(locals: Seq<CandidateView>, remotes: Seq<CandidateView>) -> Seq<PairView>
    decreases locals.len(),
{
    if locals.len() == 0 {
        seq![]
    } else {
        pairs_of(locals.drop_last(), remotes) + pairs_with(locals.last(), remotes)
    }
}

/// The views of some pairs.
pub open spec fn pair_views(ps: Seq<IceCandidatePair>) -> Seq<PairView> {
    ps.map_values(|p: IceCandidatePair| p@)
}

/// The attributes of a connectivity check.
pub open spec fn check_attributes(
    local: ParametersView,
    remote: ParametersView,
    priority: u32,
    role: IceRole,
) -> Seq<(u16, Seq<u8>)> {
    seq![
        (stun::ATTR_SOFTWARE, encode_utf8("rustrtc"@)),
        (
            stun::ATTR_USERNAME,
            encode_utf8(remote.username_fragment + seq![':'] + local.username_fragment),
        ),
        (stun::ATTR_PRIORITY, wire::enc32(priority)),
    ] + match role {
        IceRole::Controlling => seq![
            (stun::ATTR_ICE_CONTROLLING, wire::enc64(local.tie_breaker)),
            (stun::ATTR_USE_CANDIDATE, seq![]),
        ],
        IceRole::Controlled => seq![
            (stun::ATTR_ICE_CONTROLLED, wire::enc64(local.tie_breaker)),
        ],
    }
}

/// The packet that checks a pair, or why there is none.
pub open spec fn check_packet(
    v: IceView,
    local: CandidateView,
    remote: CandidateView,
    role: IceRole,
    tx: Seq<u8>,
) -> Result<Seq<u8>, CheckError> {
    if remote.transport != "udp"@ {
        Err(CheckError::NotUdp)
    } else {
        match v.remote_parameters {
            None => Err(CheckError::NoRemoteParameters),
            Some(p) => {
                let attrs = check_attributes(v.local_parameters, p, local.priority, role);
                let key = Some(encode_utf8(p.password));
                if stun::message_fits(attrs, key, true) {
                    Ok(
                        stun::message_bytes(
                            stun::message_type(StunClass::Request, StunMethod::Binding),
                            tx,
                            attrs,
                            key,
                            true,
                        ),
                    )
                } else {
                    Err(CheckError::Stun(StunError::TooLong))
                }
            },
        }
    }
}

/// The bytes of a result that holds some.
pub open spec fn packet_view(r: Result<Vec<u8>, CheckError>) -> Result<Seq<u8>, CheckError> {
    match r {
        Ok(b) => Ok(b@),
        Err(e) => Err(e),
    }
}

/// Whether a pair works, by the reply to the check `tx`.
pub open spec fn check_result(tx: Seq<u8>, reply: CheckReply) -> Result<(), CheckError> {
    match reply {
        CheckReply::Closed => Err(CheckError::Closed),
        CheckReply::Timeout => Err(CheckError::Timeout),
        CheckReply::Message(m) => if m@.transaction_id != tx {
            Err(CheckError::TransactionMismatch)
        } else if m.method != StunMethod::Binding {
            Err(CheckError::Method)
        } else if m.class != StunClass::SuccessResponse {
            Err(CheckError::Refused)
        } else {
            Ok(())
        },
    }
}

/// Whether a relay permits packets to the peer, by its reply.
pub open spec fn permission_result(reply: CheckReply) -> Result<(), CheckError> {
    match reply {
        CheckReply::Message(m) => if m.class == StunClass::ErrorResponse {
            Err(CheckError::PermissionRefused(m.error_code))
        } else {
            Ok(())
        },
        _ => Err(CheckError::PermissionTimeout),
    }
}

/// The answer to a request from `addr`.
pub open spec fn answer(password: Seq<char>, tx: Seq<u8>, addr: SocketAddr) -> Seq<u8> {
    stun::message_bytes(
        stun::message_type(StunClass::SuccessResponse, StunMethod::Binding),
        tx,
        seq![(stun::ATTR_XOR_MAPPED_ADDRESS, stun::xor_address_value(addr, tx))],
        Some(encode_utf8(password)),
        true,
    )
}

/// What a packet from `addr` leads to.
pub open spec fn packet_meaning(v: IceView, packet: Seq<u8>, addr: SocketAddr) -> IcePacketView {
    if packet.len() == 0 {
        IcePacketView::Ignored
    } else if packet[0] >= 2 {
        IcePacketView::Data(packet)
    } else {
        match stun::stun_decoded(packet) {
            Err(_) => IcePacketView::Ignored,
            Ok(d) => match d.class {
                StunClass::Request => IcePacketView::Respond(
                    answer(v.local_parameters.password, d.transaction_id, addr),
                ),
                StunClass::SuccessResponse => if v.pending.contains(d.transaction_id) {
                    IcePacketView::Completed(d)
                } else {
                    IcePacketView::Ignored
                },
                _ => IcePacketView::Ignored,
            },
        }
    }
}

/// Whether a packet is a binding message of this class and transaction.
pub open spec fn is_message(packet: Seq<u8>, class: StunClass, tx: Seq<u8>) -> bool {
    &&& packet.len() > 0
    &&& packet[0] < 2
    &&& stun::stun_decoded(packet) matches Ok(d) && {
        &&& d.class == class
        &&& d.method == StunMethod::Binding
        &&& d.transaction_id == tx
    }
}

/// A check and its answer make the pair work: the end that is checked answers the request, and
/// the answer completes the check at the end that made it, which then counts as passed.
pub proof fn law_check_completes(
    checking: IceView,
    checked: IceView,
    request: Seq<u8>,
    response: Seq<u8>,
    tx: Seq<u8>,
    here: SocketAddr,
    there: SocketAddr,
    reply: StunDecoded,
)
    requires
        checking.pending.contains(tx),
        is_message(request, StunClass::Request, tx),
        response == answer(checked.local_parameters.password, tx, here),
        is_message(response, StunClass::SuccessResponse, tx),
        stun::stun_decoded(response) == Ok::<DecodedView, StunError>(reply@),
    ensures
        packet_meaning(checked, request, here) == IcePacketView::Respond(response),
        packet_meaning(checking, response, there) == IcePacketView::Completed(reply@),
        !pending_after(checking, packet_meaning(checking, response, there)).contains(tx),
        check_result(tx, CheckReply::Message(reply)) == Ok::<(), CheckError>(()),
{
}

/// What is still pending after a packet was taken.
pub open spec fn pending_after(v: IceView, meaning: IcePacketView) -> Set<Seq<u8>> {
    match meaning {
        IcePacketView::Completed(d) => v.pending.remove(d.transaction_id),
        _ => v.pending,
    }
}

proof fn lemma_no_transactions(pending: Seq<[u8; 12]>)
    requires
        pending.len() == 0,
    ensures
        transactions(pending) == Set::<Seq<u8>>::empty(),
{
    assert(transactions(pending) =~= Set::<Seq<u8>>::empty());
}

proof fn lemma_transaction_added(pending: Seq<[u8; 12]>, tx: [u8; 12])
    ensures
        transactions(pending.push(tx)) == transactions(pending).insert(tx@),
{
    let more = pending.push(tx);
    assert forall|t: Seq<u8>| transactions(more).contains(t) <==> transactions(pending).insert(
        tx@,
    ).contains(t) by {
        if transactions(pending).contains(t) {
            let i = choose|i: int| 0 <= i < pending.len() && (#[trigger] pending[i])@ == t;
            assert(more[i]@ == t);
        }
        if t == tx@ {
            assert(more[pending.len() as int]@ == t);
        }
        if transactions(more).contains(t) && t != tx@ {
            let i = choose|i: int| 0 <= i < more.len() && (#[trigger] more[i])@ == t;
            assert(pending[i]@ == t);
        }
    }
    assert(transactions(more) =~= transactions(pending).insert(tx@));
}

/// The transactions in a list without `tx`.
fn without(pending: &Vec<[u8; 12]>, tx: &[u8]) -> (r: (Vec<[u8; 12]>, bool))
    ensures
        transactions(r.0@) == transactions(pending@).remove(tx@),
        r.1 == transactions(pending@).contains(tx@),
{
    let n: usize = pending.len();
    let mut out: Vec<[u8; 12]> = Vec::new();
    let mut found = false;
    let mut i: usize = 0;
    proof {
        lemma_no_transactions(out@);
        lemma_no_transactions(pending@.subrange(0, 0));
        assert(transactions(out@) =~= transactions(pending@.subrange(0, 0)).remove(tx@));
    }
    while i < n
        invariant
            n == pending@.len(),
            i <= n,
            transactions(out@) == transactions(pending@.subrange(0, i as int)).remove(tx@),
            found == transactions(pending@.subrange(0, i as int)).contains(tx@),
        decreases n - i,
    {
        let id = pending[i];
        let ghost head = pending@.subrange(0, i as int);
        proof {
            assert(pending@.subrange(0, i + 1) =~= head.push(id));
            lemma_transaction_added(head, id);
            lemma_transaction_added(out@, id);
        }
        if wire::bytes_eq(&id, tx) {
            found = true;
            assert(transactions(head).insert(id@).remove(tx@) =~= transactions(head).remove(tx@));
        } else {
            out.push(id);
            assert(transactions(head).insert(id@).remove(tx@) =~= transactions(head).remove(
                tx@,
            ).insert(id@));
        }
        i += 1;
    }
    assert(pending@.subrange(0, n as int) =~= pending@);
    (out, found)
}

/// Whether two texts are the same.
fn same_text(a: &String, b: &String) -> (r: bool)
    ensures
        r == (a@ == b@),
{
    text::str_eq(a.as_str(), b.as_str())
}

impl IceTransport {
    /// A transport with the given parameters for this end.
    pub fn with_parameters(config: RtcConfiguration, parameters: IceParameters) -> (r: Self)
        ensures
            r@ == new_transport(config, parameters@),
    {
        let gatherer = IceGatherer::new(config.disable_ipv6);
        let r = IceTransport {
            state: IceTransportState::New,
            role: IceRole::Controlled,
            selected_pair: None,
            local_candidates: Vec::new(),
            remote_candidates: Vec::new(),
            gather_state: IceGathererState::New,
            config,
            gatherer,
            local_parameters: parameters,
            remote_parameters: None,
            pending: Vec::new(),
        };
        proof {
            lemma_no_transactions(r.pending@);
            assert(candidate::candidate_views(r.local_candidates@) =~= seq![]);
            assert(candidate::candidate_views(r.remote_candidates@) =~= seq![]);
        }
        r
    }

    /// A transport with random parameters for this end.
    pub fn new(config: RtcConfiguration) -> (r: Self)
        ensures
            r@ == new_transport(config, r@.local_parameters),
            candidate::is_drawn(r@.local_parameters),
            r@.local_parameters.username_fragment.len() == 16,
            r@.local_parameters.password.len() == 32,
    {
        IceTransport::with_parameters(config, IceParameters::generate())
    }

    pub fn state(&self) -> (r: IceTransportState)
        ensures
            r == self@.state,
    {
        self.state
    }

    pub fn gather_state(&self) -> (r: IceGathererState)
        ensures
            r == self@.gatherer.state,
    {
        self.gatherer.state()
    }

    pub fn role(&self) -> (r: IceRole)
        ensures
            r == self@.role,
    {
        self.role
    }

    /// The candidates that were found so far.
    pub fn local_candidates(&self) -> (r: Vec<IceCandidate>)
        ensures
            candidate::candidate_views(r@) == self@.gatherer.candidates,
    {
        candidate::copy_candidates(self.gatherer.local_candidates())
    }

    pub fn remote_candidates(&self) -> (r: Vec<IceCandidate>)
        ensures
            candidate::candidate_views(r@) == self@.remote_candidates,
    {
        candidate::copy_candidates(&self.remote_candidates)
    }

    pub fn local_parameters(&self) -> (r: IceParameters)
        ensures
            r@ == self@.local_parameters,
    {
        self.local_parameters.copy()
    }

    pub fn config(&self) -> (r: &RtcConfiguration)
        ensures
            *r == self@.config,
    {
        &self.config
    }

    pub fn get_selected_pair(&self) -> (r: Option<IceCandidatePair>)
        ensures
            candidate::pair_view(r) == self@.selected_pair,
    {
        match &self.selected_pair {
            Some(p) => Some(p.copy()),
            None => None,
        }
    }

    /// Which socket packets of the selected pair go through.
    pub fn get_selected_socket(&self) -> (r: Option<SocketChoice>)
        ensures
            r == match self@.selected_pair {
                Some(p) => Some(route(p.local)),
                None => None,
            },
    {
        match &self.selected_pair {
            Some(p) => Some(socket_for(&p.local)),
            None => None,
        }
    }

    /// Starts to gather candidates. Whether there is anything left to do: where there is nothing
    /// for the gatherer, gathering ends at once.
    pub fn start_gathering(&mut self) -> (r: bool)
        ensures
            r == (old(self)@.gather_state != IceGathererState::Complete
                && old(self)@.gatherer.state != IceGathererState::Complete),
            final(self)@ == if old(self)@.gather_state == IceGathererState::Complete {
                old(self)@
            } else if r {
                IceView {
                    gather_state: IceGathererState::Gathering,
                    gatherer: GathererView {
                        state: IceGathererState::Gathering,
                        seen: Set::empty(),
                        ..old(self)@.gatherer
                    },
                    ..old(self)@
                }
            } else {
                IceView {
                    gather_state: IceGathererState::Complete,
                    local_candidates: old(self)@.gatherer.candidates,
                    ..old(self)@
                }
            },
    {
        if self.gather_state == IceGathererState::Complete {
            return false;
        }
        if self.gather_state == IceGathererState::New {
            self.gather_state = IceGathererState::Gathering;
        }
        if self.gatherer.gather() {
            true
        } else {
            self.local_candidates = candidate::copy_candidates(self.gatherer.local_candidates());
            self.gather_state = IceGathererState::Complete;
            false
        }
    }

    /// Takes note of a socket on `port`; `lan` is the address of this machine on its network.
    pub fn gather_host_candidates(
        &mut self,
        port: u16,
        lan: Option<IpAddr>,
    )
        ensures
            final(self)@ == (IceView {
                gatherer: gatherer::hosts_pushed(old(self)@.gatherer, port, lan),
                ..old(self)@
            }),
    {
        self.gatherer.gather_host_candidates(port, lan);
    }

    /// Takes note of a candidate of this end.
    pub fn push_candidate(&mut self, c: IceCandidate)
        ensures
            final(self)@ == (IceView {
                gatherer: gatherer::pushed(old(self)@.gatherer, c@),
                ..old(self)@
            }),
    {
        self.gatherer.push_candidate(c);
    }

    /// All candidates of this end were found.
    pub fn finish_gathering(&mut self)
        ensures
            final(self)@ == (IceView {
                gather_state: IceGathererState::Complete,
                local_candidates: old(self)@.gatherer.candidates,
                gatherer: GathererView {
                    state: IceGathererState::Complete,
                    ..old(self)@.gatherer
                },
                ..old(self)@
            }),
    {
        self.gatherer.complete();
        self.local_candidates = candidate::copy_candidates(self.gatherer.local_candidates());
        self.gather_state = IceGathererState::Complete;
    }

    /// Starts to check pairs, with the parameters of the other end.
    pub fn start(&mut self, remote: IceParameters)
        ensures
            final(self)@ == (IceView {
                remote_parameters: Some(remote@),
                state: IceTransportState::Checking,
                ..old(self)@
            }),
    {
        self.remote_parameters = Some(remote);
        self.state = IceTransportState::Checking;
    }

    /// Uses the first candidate of this end and the given address of the other, without checks.
    /// False where this end has no candidate.
    pub fn start_direct(&mut self, remote_addr: SocketAddr) -> (r: bool)
        ensures
            r == (old(self)@.gatherer.candidates.len() > 0),
            final(self)@ == if r {
                IceView {
                    selected_pair: Some(
                        PairView {
                            local: old(self)@.gatherer.candidates[0],
                            remote: gatherer::host_candidate(remote_addr),
                            nominated: false,
                        },
                    ),
                    state: IceTransportState::Connected,
                    ..old(self)@
                }
            } else {
                old(self)@
            },
    {
        let locals = candidate::copy_candidates(self.gatherer.local_candidates());
        assert(candidate::candidate_views(locals@).len() == locals@.len());
        if locals.len() == 0 {
            return false;
        }
        let local = locals[0].copy();
        assert(local@ == candidate::candidate_views(locals@)[0]);
        let remote = IceCandidate::host(remote_addr, 1);
        self.selected_pair = Some(IceCandidatePair::new(local, remote));
        self.state = IceTransportState::Connected;
        true
    }

    pub fn stop(&mut self)
        ensures
            final(self)@ == (IceView { state: IceTransportState::Closed, ..old(self)@ }),
    {
        self.state = IceTransportState::Closed;
    }

    pub fn set_role(&mut self, role: IceRole)
        ensures
            final(self)@ == (IceView { role, ..old(self)@ }),
    {
        self.role = role;
    }

    pub fn add_remote_candidate(&mut self, c: IceCandidate)
        ensures
            final(self)@ == (IceView {
                remote_candidates: old(self)@.remote_candidates.push(c@),
                ..old(self)@
            }),
    {
        let ghost before = self.remote_candidates@;
        let ghost view = c@;
        self.remote_candidates.push(c);
        assert(candidate::candidate_views(self.remote_candidates@) =~= candidate::candidate_views(
            before,
        ).push(view));
    }

    /// Uses a pair: packets can flow.
    pub fn select_pair(&mut self, pair: IceCandidatePair)
        ensures
            final(self)@ == (IceView {
                selected_pair: Some(pair@),
                state: IceTransportState::Connected,
                ..old(self)@
            }),
    {
        self.selected_pair = Some(pair);
        self.state = IceTransportState::Connected;
    }

    /// All pairs of a round were checked, and none works: where no pair was found otherwise,
    /// connectivity establishment failed.
    pub fn checks_failed(&mut self)
        ensures
            final(self)@ == if old(self)@.state == IceTransportState::Checking {
                IceView { state: IceTransportState::Failed, ..old(self)@ }
            } else {
                old(self)@
            },
    {
        if self.state == IceTransportState::Checking {
            self.state = IceTransportState::Failed;
        }
    }

    /// The pairs to check, in order. None unless pairs are being checked.
    pub fn try_connectivity_checks(&self) -> (r: Vec<IceCandidatePair>)
        ensures
            pair_views(r@) == if self@.state == IceTransportState::Checking {
                pairs_of(self@.local_candidates, self@.remote_candidates)
            } else {
                seq![]
            },
    {
        let mut out: Vec<IceCandidatePair> = Vec::new();
        assert(pair_views(out@) =~= seq![]);
        if self.state != IceTransportState::Checking {
            return out;
        }
        let ghost locals = self@.local_candidates;
        let ghost remotes = self@.remote_candidates;
        let n: usize = self.local_candidates.len();
        let m: usize = self.remote_candidates.len();
        let mut i: usize = 0;
        while i < n
            invariant
                n == self.local_candidates@.len(),
                m == self.remote_candidates@.len(),
                locals == candidate::candidate_views(self.local_candidates@),
                remotes == candidate::candidate_views(self.remote_candidates@),
                i <= n,
                pair_views(out@) == pairs_of(locals.subrange(0, i as int), remotes),
            decreases n - i,
        {
            let ghost done = pairs_of(locals.subrange(0, i as int), remotes);
            let ghost local = locals[i as int];
            let mut k: usize = 0;
            assert(done + pairs_with(local, remotes.subrange(0, 0)) =~= done);
            while k < m
                invariant
                    i < n,
                    n == self.local_candidates@.len(),
                    m == self.remote_candidates@.len(),
                    locals == candidate::candidate_views(self.local_candidates@),
                    remotes == candidate::candidate_views(self.remote_candidates@),
                    local == locals[i as int],
                    k <= m,
                    pair_views(out@) == done + pairs_with(local, remotes.subrange(0, k as int)),
                decreases m - k,
            {
                let ghost head = remotes.subrange(0, k + 1);
                assert(head.drop_last() =~= remotes.subrange(0, k as int));
                assert(head.last() == remotes[k as int]);
                let l = &self.local_candidates[i];
                let r = &self.remote_candidates[k];
                if same_text(&l.transport, &r.transport) {
                    let pair = IceCandidatePair::new(l.copy(), r.copy());
                    proof {
                        let before = pairs_with(local, remotes.subrange(0, k as int));
                        assert(pair_views(out@.push(pair)) =~= pair_views(out@).push(pair@));
                        assert((done + before).push(pair@) =~= done + before.push(pair@));
                    }
                    out.push(pair);
                }
                k += 1;
            }
            i += 1;
            proof {
                assert(remotes.subrange(0, m as int) =~= remotes);
                let head = locals.subrange(0, i as int);
                assert(head.drop_last() =~= locals.subrange(0, i - 1));
                assert(head.last() == local);
            }
        }
        assert(locals.subrange(0, n as int) =~= locals);
        out
    }

    /// The packet that checks a pair in the transaction `tx`, whose response is then awaited.
    pub fn binding_check(
        &mut self,
        local: &IceCandidate,
        remote: &IceCandidate,
        role: IceRole,
        tx: [u8; 12],
    ) -> (r: Result<Vec<u8>, CheckError>)
        ensures
            packet_view(r) == check_packet(old(self)@, local@, remote@, role, tx@),
            r matches Ok(p) ==> is_message(p@, StunClass::Request, tx@),
            final(self)@ == if r is Ok {
                IceView { pending: old(self)@.pending.insert(tx@), ..old(self)@ }
            } else {
                old(self)@
            },
    {
        if !text::str_eq(remote.transport.as_str(), "udp") {
            return Err(CheckError::NotUdp);
        }
        let packet = match &self.remote_parameters {
            None => {
                return Err(CheckError::NoRemoteParameters);
            },
            Some(p) => {
                let msg = check_message(&self.local_parameters, p, local.priority, role, tx);
                match msg.encode(Some(p.password.as_str().as_bytes()), true) {
                    Ok(packet) => packet,
                    Err(e) => {
                        return Err(CheckError::Stun(e));
                    },
                }
            },
        };
        proof {
            let p = old(self)@.remote_parameters->0;
            lemma_first_byte(
                StunClass::Request,
                tx@,
                check_attributes(old(self)@.local_parameters, p, local@.priority, role),
                Some(encode_utf8(p.password)),
            );
        }
        self.await_response(tx);
        Ok(packet)
    }

    /// Awaits the response to the request `tx`.
    pub fn await_response(&mut self, tx: [u8; 12])
        ensures
            final(self)@ == (IceView {
                pending: old(self)@.pending.insert(tx@),
                ..old(self)@
            }),
    {
        proof {
            lemma_transaction_added(self.pending@, tx);
        }
        self.pending.push(tx);
    }

    /// Whether a pair works, by the reply to the check `tx`. A check that had no reply in time is
    /// no longer awaited.
    pub fn binding_checked(&mut self, tx: [u8; 12], reply: CheckReply) -> (r: Result<
        (),
        CheckError,
    >)
        ensures
            r == check_result(tx@, reply),
            final(self)@ == if reply is Timeout {
                IceView { pending: old(self)@.pending.remove(tx@), ..old(self)@ }
            } else {
                old(self)@
            },
    {
        match reply {
            CheckReply::Closed => Err(CheckError::Closed),
            CheckReply::Timeout => {
                let (rest, _) = without(&self.pending, &tx);
                self.pending = rest;
                Err(CheckError::Timeout)
            },
            CheckReply::Message(m) => {
                if !wire::bytes_eq(&m.transaction_id, &tx) {
                    Err(CheckError::TransactionMismatch)
                } else if m.method != StunMethod::Binding {
                    Err(CheckError::Method)
                } else if m.class != StunClass::SuccessResponse {
                    Err(CheckError::Refused)
                } else {
                    Ok(())
                }
            },
        }
    }

    /// Whether a relay permits packets to the peer, by the reply to the request `tx`. A request
    /// that had no reply is no longer awaited.
    pub fn permission_checked(&mut self, tx: [u8; 12], reply: CheckReply) -> (r: Result<
        (),
        CheckError,
    >)
        ensures
            r == permission_result(reply),
            final(self)@ == if reply is Message {
                old(self)@
            } else {
                IceView { pending: old(self)@.pending.remove(tx@), ..old(self)@ }
            },
    {
        match reply {
            CheckReply::Message(m) => {
                if m.class == StunClass::ErrorResponse {
                    Err(CheckError::PermissionRefused(m.error_code))
                } else {
                    Ok(())
                }
            },
            _ => {
                let (rest, _) = without(&self.pending, &tx);
                self.pending = rest;
                Err(CheckError::PermissionTimeout)
            },
        }
    }

    /// Takes a packet from `addr`.
    pub fn handle_packet(&mut self, packet: &[u8], addr: SocketAddr) -> (r: IcePacket)
        ensures
            r@ == packet_meaning(old(self)@, packet@, addr),
            final(self)@ == (IceView {
                pending: pending_after(old(self)@, packet_meaning(old(self)@, packet@, addr)),
                ..old(self)@
            }),
    {
        if packet.len() == 0 {
            return IcePacket::Ignored;
        }
        if packet[0] >= 2 {
            let data = wire::copy_range(packet, 0, packet.len());
            assert(data@ =~= packet@);
            return IcePacket::Data(data);
        }
        match StunMessage::decode(packet) {
            Err(_) => IcePacket::Ignored,
            Ok(d) => match d.class {
                StunClass::Request => IcePacket::Respond(
                    self.handle_stun_request(d.transaction_id, addr),
                ),
                StunClass::SuccessResponse => {
                    let (rest, found) = without(&self.pending, &d.transaction_id);
                    if found {
                        self.pending = rest;
                        IcePacket::Completed(d)
                    } else {
                        IcePacket::Ignored
                    }
                },
                _ => IcePacket::Ignored,
            },
        }
    }

    /// The answer to a request from `addr`. Who reads it learns that address.
    pub fn handle_stun_request(&self, tx: [u8; 12], addr: SocketAddr) -> (r: Vec<u8>)
        ensures
            r@ == answer(self@.local_parameters.password, tx@, addr),
            is_message(r@, StunClass::SuccessResponse, tx@),
            stun::stun_decoded(r@) matches Ok(d) && d.xor_mapped_address == Some(addr.unscoped()),
    {
        let msg = StunMessage::binding_success_response(tx, addr);
        let ghost raws = stun::raw_attributes(msg.attributes@, tx@);
        let ghost key = Some(encode_utf8(self.local_parameters.password@));
        proof {
            assert(raws =~= seq![(stun::ATTR_XOR_MAPPED_ADDRESS, stun::xor_address_value(addr, tx@))]);
            lemma_answer_fits(addr, tx@, key, raws);
            lemma_answer_learned(addr, tx@, key);
            lemma_first_byte(StunClass::SuccessResponse, tx@, raws, key);
        }
        match msg.encode(Some(self.local_parameters.password.as_str().as_bytes()), true) {
            Ok(packet) => packet,
            Err(_) => {
                assert(false);
                Vec::new()
            },
        }
    }
}

/// The first byte of a binding request or a success response.
proof fn lemma_first_byte(
    class: StunClass,
    tx: Seq<u8>,
    attrs: Seq<(u16, Seq<u8>)>,
    key: Option<Seq<u8>>,
)
    requires
        class == StunClass::Request || class == StunClass::SuccessResponse,
    ensures
        stun::message_bytes(
            stun::message_type(class, StunMethod::Binding),
            tx,
            attrs,
            key,
            true,
        )[0] < 2,
        stun::message_bytes(
            stun::message_type(class, StunMethod::Binding),
            tx,
            attrs,
            key,
            true,
        ).len() > 0,
{
}

proof fn lemma_answer_fits(
    addr: SocketAddr,
    tx: Seq<u8>,
    key: Option<Seq<u8>>,
    raws: Seq<(u16, Seq<u8>)>,
)
    requires
        raws == seq![(stun::ATTR_XOR_MAPPED_ADDRESS, stun::xor_address_value(addr, tx))],
    ensures
        stun::message_fits(raws, key, true),
{
    assert(raws.drop_last() =~= seq![]);
    assert(stun::attrs_bytes(raws.drop_last()) =~= seq![]);
    assert(stun::xor_address_value(addr, tx).len() <= 20);
    assert(stun::attrs_bytes(raws).len() <= 24);
}

proof fn lemma_answer_learned(addr: SocketAddr, tx: Seq<u8>, key: Option<Seq<u8>>)
    requires
        tx.len() == 12,
    ensures
        stun::learned(
            StunClass::SuccessResponse,
            StunMethod::Binding,
            tx,
            stun::sent(
                stun::message_type(StunClass::SuccessResponse, StunMethod::Binding),
                tx,
                seq![(stun::ATTR_XOR_MAPPED_ADDRESS, stun::xor_address_value(addr, tx))],
                key,
                true,
            ),
        ).xor_mapped_address == Some(addr.unscoped()),
{
    let sent = stun::sent(
        stun::message_type(StunClass::SuccessResponse, StunMethod::Binding),
        tx,
        seq![(stun::ATTR_XOR_MAPPED_ADDRESS, stun::xor_address_value(addr, tx))],
        key,
        true,
    );
    stun::lemma_first_value(sent, stun::ATTR_XOR_MAPPED_ADDRESS, 0);
    stun::law_address_is_read_back(addr, tx);
}

/// The message of a connectivity check.
fn check_message(
    local: &IceParameters,
    remote: &IceParameters,
    priority: u32,
    role: IceRole,
    tx: [u8; 12],
) -> (msg: StunMessage)
    ensures
        msg.class == StunClass::Request,
        msg.method == StunMethod::Binding,
        msg.transaction_id == tx,
        stun::raw_attributes(msg.attributes@, tx@) == check_attributes(
            local@,
            remote@,
            priority,
            role,
        ),
{
    let mut msg = StunMessage::binding_request(tx, Some("rustrtc"));
    let mut username = remote.username_fragment.clone();
    username.push(':');
    username.append(local.username_fragment.as_str());
    assert(username@ =~= remote.username_fragment@ + seq![':'] + local.username_fragment@);
    msg.attributes.push(StunAttribute::Username(username));
    msg.attributes.push(StunAttribute::Priority(priority));
    match role {
        IceRole::Controlling => {
            msg.attributes.push(StunAttribute::IceControlling(local.tie_breaker));
            msg.attributes.push(StunAttribute::UseCandidate);
        },
        IceRole::Controlled => {
            msg.attributes.push(StunAttribute::IceControlled(local.tie_breaker));
        },
    }
    assert(stun::raw_attributes(msg.attributes@, tx@) =~= check_attributes(
        local@,
        remote@,
        priority,
        role,
    ));
    msg
}

} // verus!
