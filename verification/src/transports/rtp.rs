//! Media packets over a connection: their protection, and who gets those that come.
use std::collections::HashMap;
use vstd::prelude::*;
use vstd::string::*;

use crate::crypto;
use crate::errors::{RtpError, SrtpError, SrtpErrorView};
use crate::rtp::packet;
use crate::rtp::packet::PacketView;
use crate::rtp::rtcp;
use crate::rtp::rtcp::RtcpView;
use crate::rtp::{RtcpPacket, RtpPacket};
use crate::srtp;
use crate::srtp::{SrtpSession, SrtpView};
use crate::text;
use crate::wire;

verus! {

broadcast use vstd::std_specs::hash::group_hash_axioms;

/// Why a packet cannot be sent.
#[derive(Debug, Clone, PartialEq, Eq)]
pub enum RtpSendError {
    Rtp(RtpError),
    Srtp(SrtpError),
    /// Packets must be protected, and the keys are not known yet.
    NotReady,
}

/// Why a packet cannot be sent.
#[verifier::ext_equal]
pub enum SendErrorView {
    Rtp(RtpError),
    Srtp(SrtpErrorView),
    NotReady,
}

impl View for RtpSendError {
    type V = SendErrorView;

    open spec fn view(&self) -> SendErrorView {
        match self {
            RtpSendError::Rtp(e) => SendErrorView::Rtp(*e),
            RtpSendError::Srtp(e) => SendErrorView::Srtp(e@),
            RtpSendError::NotReady => SendErrorView::NotReady,
        }
    }
}

impl RtpSendError {
    /// The text of the failure.
    pub open spec fn text(&self) -> Seq<char> {
        match self {
            RtpSendError::Rtp(e) => e.text(),
            RtpSendError::Srtp(e) => e.text(),
            RtpSendError::NotReady => "SRTP required but session not ready"@,
        }
    }

    /// The text of the failure.
    pub fn message(&self) -> (r: String)
        ensures
            r@ == self.text(),
    {
        match self {
            RtpSendError::Rtp(e) => e.message(),
            RtpSendError::Srtp(e) => e.message(),
            RtpSendError::NotReady => String::from_str("SRTP required but session not ready"),
        }
    }
}

/// RTCP packets to send.
#[derive(Debug, Clone, PartialEq, Eq)]
pub enum RtcpOutgoing {
    /// To be protected under the session's keys first.
    Protect(Vec<u8>),
    Plain(Vec<u8>),
}

/// Who gets what.
#[derive(Debug, Clone, PartialEq)]
pub enum RtpDelivery {
    Nothing,
    /// RTCP packets for their listener.
    Rtcp(u64, Vec<RtcpPacket>),
    /// A media packet for its listener.
    Rtp(u64, RtpPacket),
}

/// Who gets what.
#[verifier::ext_equal]
pub enum DeliveryView {
    Nothing,
    Rtcp(u64, Seq<RtcpView>),
    Rtp(u64, PacketView),
}

impl View for RtpDelivery {
    type V = DeliveryView;

    open spec fn view(&self) -> DeliveryView {
        match self {
            RtpDelivery::Nothing => DeliveryView::Nothing,
            RtpDelivery::Rtcp(l, ps) => DeliveryView::Rtcp(*l, rtcp::rtcp_views(ps@)),
            RtpDelivery::Rtp(l, p) => DeliveryView::Rtp(*l, p@),
        }
    }
}

/// The protection of media packets and the listeners for them. A listener is known by a number.
pub struct RtpTransport {
    srtp_session: Option<SrtpSession>,
    listeners: HashMap<u32, u64>,
    rtcp_listener: Option<u64>,
    rid_listeners: Vec<(String, u64)>,
    rid_extension_id: Option<u8>,
    srtp_required: bool,
}

/// The protection of media packets and the listeners for them: by synchronization source, for
/// RTCP, and by the name of a stream.
#[verifier::ext_equal]
pub struct RtpTransportView {
    pub sending: Option<SrtpView>,
    pub receiving: Option<SrtpView>,
    pub listeners: Map<u32, u64>,
    pub rtcp_listener: Option<u64>,
    pub rid_listeners: Map<Seq<char>, u64>,
    pub rid_extension_id: Option<u8>,
    pub srtp_required: bool,
}

/// The listeners in a list, by name; the last one counts.
pub open spec fn rid_map(list: Seq<(String, u64)>) -> Map<Seq<char>, u64>
    decreases list.len(),
{
    if list.len() == 0 {
        Map::empty()
    } else {
        rid_map(list.drop_last()).insert(list.last().0@, list.last().1)
    }
}

impl View for RtpTransport {
    type V = RtpTransportView;

    closed spec fn view(&self) -> RtpTransportView {
        RtpTransportView {
            sending: match self.srtp_session {
                Some(s) => Some(s.sending()),
                None => None,
            },
            receiving: match self.srtp_session {
                Some(s) => Some(s.receiving()),
                None => None,
            },
            listeners: self.listeners@,
            rtcp_listener: self.rtcp_listener,
            rid_listeners: rid_map(self.rid_listeners@),
            rid_extension_id: self.rid_extension_id,
            srtp_required: self.srtp_required,
        }
    }
}

/// What is sent for a packet under a session that has counted it.
pub open spec fn protected(c: SrtpView, p: PacketView) -> Result<Seq<u8>, SendErrorView> {
    let o = srtp::protect_outcome(c, p);
    match o.result {
        Err(e) => Err(SendErrorView::Srtp(e)),
        Ok(_) => match packet::rtp_marshaled(o.packet) {
            Err(e) => Err(SendErrorView::Rtp(e)),
            Ok(b) => Ok(b),
        },
    }
}

/// What is sent for the bytes of a packet.
pub open spec fn sent_bytes(v: RtpTransportView, buf: Seq<u8>) -> Result<Seq<u8>, SendErrorView> {
    match v.sending {
        Some(c) => match packet::rtp_parsed(buf) {
            Err(e) => Err(SendErrorView::Rtp(e)),
            Ok(p) => protected(c.after(p.header.sequence_number), p),
        },
        None => if v.srtp_required {
            Err(SendErrorView::NotReady)
        } else {
            Ok(buf)
        },
    }
}

/// What is sent for a packet.
pub open spec fn sent_packet(v: RtpTransportView, p: PacketView) -> Result<Seq<u8>, SendErrorView> {
    match v.sending {
        Some(c) => protected(c.after(p.header.sequence_number), p),
        None => if v.srtp_required {
            Err(SendErrorView::NotReady)
        } else {
            match packet::rtp_marshaled(p) {
                Err(e) => Err(SendErrorView::Rtp(e)),
                Ok(b) => Ok(b),
            }
        },
    }
}

/// The state after a packet with this sequence number was protected.
pub open spec fn counted(v: RtpTransportView, sequence: u16) -> RtpTransportView {
    RtpTransportView {
        sending: match v.sending {
            Some(c) => Some(c.after(sequence)),
            None => None,
        },
        ..v
    }
}

/// The bytes of a result that holds some.
pub open spec fn bytes_view(r: Result<Vec<u8>, RtpSendError>) -> Result<Seq<u8>, SendErrorView> {
    match r {
        Ok(b) => Ok(b@),
        Err(e) => Err(e@),
    }
}

/// What a media packet holds once its protection was removed, if it is authentic.
pub open spec fn opened_rtp(c: SrtpView, raw: Seq<u8>) -> Option<Seq<u8>> {
    match packet::rtp_parsed(raw) {
        Err(_) => None,
        Ok(p) => {
            let o = srtp::unprotect_outcome(c, p);
            match o.result {
                Err(_) => None,
                Ok(_) => match packet::rtp_marshaled(o.packet) {
                    Err(_) => None,
                    Ok(b) => Some(b),
                },
            }
        },
    }
}

/// What a received packet holds once its protection was removed. `opened` is what the session
/// made of it where it is an RTCP packet. None where the packet is dropped.
pub open spec fn plain(v: RtpTransportView, raw: Seq<u8>, opened: Option<Seq<u8>>) -> Option<
    Seq<u8>,
> {
    match v.receiving {
        Some(c) => if rtcp::is_rtcp_bytes(raw) {
            opened
        } else {
            opened_rtp(c, raw)
        },
        None => if v.srtp_required {
            None
        } else {
            Some(raw)
        },
    }
}

/// The name of the stream that a packet belongs to, if it says so.
pub open spec fn rid_of(v: RtpTransportView, p: PacketView) -> Option<Seq<char>> {
    match v.rid_extension_id {
        Some(id) => match packet::element(p.header, id) {
            Some(b) => Some(text::utf8_lossy(b)),
            None => None,
        },
        None => None,
    }
}

/// The listener for a media packet: the one for the stream it names, else the one for its
/// source.
pub open spec fn listener_for(v: RtpTransportView, p: PacketView) -> Option<u64> {
    match rid_of(v, p) {
        Some(rid) => if v.rid_listeners.contains_key(rid) {
            Some(v.rid_listeners[rid])
        } else if v.listeners.contains_key(p.header.ssrc) {
            Some(v.listeners[p.header.ssrc])
        } else {
            None
        },
        None => if v.listeners.contains_key(p.header.ssrc) {
            Some(v.listeners[p.header.ssrc])
        } else {
            None
        },
    }
}

/// Who gets what of a received packet whose protection was removed.
pub open spec fn delivery(v: RtpTransportView, raw: Seq<u8>, unprotected: Option<Seq<u8>>) -> DeliveryView {
    match unprotected {
        None => DeliveryView::Nothing,
        Some(b) => if rtcp::is_rtcp_bytes(raw) {
            match v.rtcp_listener {
                None => DeliveryView::Nothing,
                Some(l) => match rtcp::rtcp_parsed(b) {
                    Err(_) => DeliveryView::Nothing,
                    Ok(ps) => DeliveryView::Rtcp(l, ps),
                },
            }
        } else {
            match packet::rtp_parsed(b) {
                Err(_) => DeliveryView::Nothing,
                Ok(p) => match listener_for(v, p) {
                    None => DeliveryView::Nothing,
                    Some(l) => DeliveryView::Rtp(l, p),
                },
            }
        },
    }
}

/// The state after a packet was received: an authentic media packet counts.
pub open spec fn after_packet(v: RtpTransportView, raw: Seq<u8>) -> RtpTransportView {
    match v.receiving {
        Some(c) => if rtcp::is_rtcp_bytes(raw) {
            v
        } else {
            match packet::rtp_parsed(raw) {
                Err(_) => v,
                Ok(p) => match srtp::unprotect_outcome(c, p).result {
                    Err(_) => v,
                    Ok(_) => RtpTransportView {
                        receiving: Some(c.after(p.header.sequence_number)),
                        ..v
                    },
                },
            }
        },
        None => v,
    }
}

/// Where packets must be protected and the keys are not known, nothing is sent and no one gets
/// anything.
pub proof fn law_nothing_in_the_clear(
    v: RtpTransportView,
    raw: Seq<u8>,
    opened: Option<Seq<u8>>,
    p: PacketView,
)
    requires
        v.srtp_required,
        v.sending is None,
        v.receiving is None,
    ensures
        delivery(v, raw, plain(v, raw, opened)) == DeliveryView::Nothing,
        sent_bytes(v, raw) == Err::<Seq<u8>, SendErrorView>(SendErrorView::NotReady),
        sent_packet(v, p) == Err::<Seq<u8>, SendErrorView>(SendErrorView::NotReady),
{
}

/// A packet that was sent under a session's keys reaches the listener at an end that can undo the
/// protection, as it was. The packet is one that the wire format keeps whole, and its marker and
/// payload type do not look like those of RTCP.
pub proof fn law_sent_is_delivered(
    receiver: RtpTransportView,
    sending: SrtpView,
    receiving: SrtpView,
    p: PacketView,
    raw: Seq<u8>,
    opened: Option<Seq<u8>>,
)
    requires
        packet::rtp_representable(p),
        protected(sending, p) == Ok::<Seq<u8>, SendErrorView>(raw),
        !rtcp::is_rtcp_bytes(raw),
        receiver.receiving == Some(receiving),
        srtp::unprotect_outcome(receiving, srtp::protect_outcome(sending, p).packet) == (
        srtp::Outcome { result: Ok(()), packet: p }),
    ensures
        delivery(receiver, raw, plain(receiver, raw, opened)) == match listener_for(receiver, p) {
            Some(l) => DeliveryView::Rtp(l, p),
            None => DeliveryView::Nothing,
        },
{
    let q = srtp::protect_outcome(sending, p).packet;
    assert(q.header == p.header);
    packet::law_parse_of_marshal(q);
    packet::law_parse_of_marshal(p);
}

/// The listeners without the one for `rid`.
fn without_rid(list: &Vec<(String, u64)>, rid: &str) -> (r: Vec<(String, u64)>)
    ensures
        rid_map(r@) == rid_map(list@).remove(rid@),
{
    let n: usize = list.len();
    let mut out: Vec<(String, u64)> = Vec::new();
    let mut i: usize = 0;
    assert(rid_map(out@) =~= rid_map(list@.subrange(0, 0)).remove(rid@));
    while i < n
        invariant
            n == list@.len(),
            i <= n,
            rid_map(out@) == rid_map(list@.subrange(0, i as int)).remove(rid@),
        decreases n - i,
    {
        let ghost head = list@.subrange(0, i + 1);
        let ghost before = rid_map(list@.subrange(0, i as int));
        proof {
            assert(head.drop_last() =~= list@.subrange(0, i as int));
            assert(head.last() == list@[i as int]);
        }
        let name = list[i].0.clone();
        let id: u64 = list[i].1;
        if text::str_eq(name.as_str(), rid) {
            assert(before.insert(rid@, id).remove(rid@) =~= before.remove(rid@));
        } else {
            let ghost grown = out@.push((name, id));
            proof {
                assert(grown.drop_last() =~= out@);
                assert(grown.last().0@ == name@);
                assert(before.insert(name@, id).remove(rid@) =~= before.remove(rid@).insert(
                    name@,
                    id,
                ));
            }
            out.push((name, id));
        }
        i += 1;
    }
    assert(list@.subrange(0, n as int) =~= list@);
    out
}

/// The listener for `rid`.
fn find_rid(list: &Vec<(String, u64)>, rid: &str) -> (r: Option<u64>)
    ensures
        r == if rid_map(list@).contains_key(rid@) {
            Some(rid_map(list@)[rid@])
        } else {
            None
        },
{
    let mut i: usize = list.len();
    assert(list@.subrange(0, i as int) =~= list@);
    while i > 0
        invariant
            i <= list@.len(),
            rid_map(list@).contains_key(rid@) == rid_map(
                list@.subrange(0, i as int),
            ).contains_key(rid@),
            rid_map(list@).contains_key(rid@) ==> rid_map(list@)[rid@] == rid_map(
                list@.subrange(0, i as int),
            )[rid@],
        decreases i,
    {
        let ghost head = list@.subrange(0, i as int);
        i -= 1;
        proof {
            assert(head.drop_last() =~= list@.subrange(0, i as int));
            assert(head.last() == list@[i as int]);
        }
        if text::str_eq(list[i].0.as_str(), rid) {
            return Some(list[i].1);
        }
    }
    None
}

impl RtpTransport {
    /// Whether the session, where there is one, is sound.
    pub closed spec fn wf(&self) -> bool {
        match self.srtp_session {
            Some(s) => s.wf(),
            None => true,
        }
    }

    /// A transport without keys and listeners.
    pub fn new(srtp_required: bool) -> (r: Self)
        ensures
            r.wf(),
            r@ == (RtpTransportView {
                sending: None,
                receiving: None,
                listeners: Map::empty(),
                rtcp_listener: None,
                rid_listeners: Map::empty(),
                rid_extension_id: None,
                srtp_required,
            }),
    {
        RtpTransport {
            srtp_session: None,
            listeners: HashMap::new(),
            rtcp_listener: None,
            rid_listeners: Vec::new(),
            rid_extension_id: None,
            srtp_required,
        }
    }

    /// Protects packets from now on.
    pub fn start_srtp(&mut self, srtp_session: SrtpSession)
        requires
            srtp_session.wf(),
        ensures
            final(self).wf(),
            final(self)@ == (RtpTransportView {
                sending: Some(srtp_session.sending()),
                receiving: Some(srtp_session.receiving()),
                ..old(self)@
            }),
    {
        self.srtp_session = Some(srtp_session);
    }

    pub fn register_listener_sync(&mut self, ssrc: u32, listener: u64)
        requires
            old(self).wf(),
        ensures
            final(self).wf(),
            final(self)@ == (RtpTransportView {
                listeners: old(self)@.listeners.insert(ssrc, listener),
                ..old(self)@
            }),
    {
        self.listeners.insert(ssrc, listener);
    }

    pub fn has_listener(&self, ssrc: u32) -> (r: bool)
        ensures
            r == self@.listeners.contains_key(ssrc),
    {
        self.listeners.contains_key(&ssrc)
    }

    pub fn register_rid_listener(&mut self, rid: String, listener: u64)
        requires
            old(self).wf(),
        ensures
            final(self).wf(),
            final(self)@ == (RtpTransportView {
                rid_listeners: old(self)@.rid_listeners.insert(rid@, listener),
                ..old(self)@
            }),
    {
        let mut list = without_rid(&self.rid_listeners, rid.as_str());
        let ghost grown = list@.push((rid, listener));
        proof {
            assert(grown.drop_last() =~= list@);
            assert(old(self)@.rid_listeners.remove(rid@).insert(rid@, listener)
                =~= old(self)@.rid_listeners.insert(rid@, listener));
        }
        list.push((rid, listener));
        self.rid_listeners = list;
    }

    pub fn set_rid_extension_id(&mut self, id: u8)
        requires
            old(self).wf(),
        ensures
            final(self).wf(),
            final(self)@ == (RtpTransportView { rid_extension_id: Some(id), ..old(self)@ }),
    {
        self.rid_extension_id = Some(id);
    }

    pub fn register_rtcp_listener(&mut self, listener: u64)
        requires
            old(self).wf(),
        ensures
            final(self).wf(),
            final(self)@ == (RtpTransportView { rtcp_listener: Some(listener), ..old(self)@ }),
    {
        self.rtcp_listener = Some(listener);
    }

    /// The RTCP listener is gone.
    pub fn rtcp_listener_closed(&mut self)
        requires
            old(self).wf(),
        ensures
            final(self).wf(),
            final(self)@ == (RtpTransportView { rtcp_listener: None, ..old(self)@ }),
    {
        self.rtcp_listener = None;
    }

    /// The listener that got a packet of this source is gone.
    pub fn listener_closed(&mut self, ssrc: u32)
        requires
            old(self).wf(),
        ensures
            final(self).wf(),
            final(self)@ == (RtpTransportView {
                listeners: old(self)@.listeners.remove(ssrc),
                ..old(self)@
            }),
    {
        self.listeners.remove(&ssrc);
    }

    /// What to send for the bytes of a packet.
    pub fn send(&mut self, buf: &[u8]) -> (r: Result<Vec<u8>, RtpSendError>)
        requires
            old(self).wf(),
        ensures
            final(self).wf(),
            bytes_view(r) == sent_bytes(old(self)@, buf@),
            old(self)@.sending matches Some(c) ==> (r is Ok <==> (packet::rtp_parsed(
                buf@,
            ) matches Ok(p) && srtp::protectable(c, p))),
            final(self)@ == match packet::rtp_parsed(buf@) {
                Ok(p) => counted(old(self)@, p.header.sequence_number),
                Err(_) => old(self)@,
            },
    {
        match &mut self.srtp_session {
            Some(session) => {
                let mut packet = match RtpPacket::parse(buf) {
                    Ok(packet) => packet,
                    Err(e) => {
                        return Err(RtpSendError::Rtp(e));
                    },
                };
                protect(session, &mut packet)
            },
            None => {
                if self.srtp_required {
                    Err(RtpSendError::NotReady)
                } else {
                    let out = wire::copy_range(buf, 0, buf.len());
                    assert(out@ =~= buf@);
                    Ok(out)
                }
            },
        }
    }

    /// What to send for a packet.
    pub fn send_rtp(&mut self, packet: &RtpPacket) -> (r: Result<Vec<u8>, RtpSendError>)
        requires
            old(self).wf(),
        ensures
            final(self).wf(),
            bytes_view(r) == sent_packet(old(self)@, packet@),
            old(self)@.sending matches Some(c) ==> (r is Ok <==> srtp::protectable(c, packet@)),
            final(self)@ == counted(old(self)@, packet@.header.sequence_number),
    {
        match &mut self.srtp_session {
            Some(session) => {
                let mut packet = packet.copy();
                protect(session, &mut packet)
            },
            None => {
                if self.srtp_required {
                    Err(RtpSendError::NotReady)
                } else {
                    match packet.marshal() {
                        Ok(out) => Ok(out),
                        Err(e) => Err(RtpSendError::Rtp(e)),
                    }
                }
            },
        }
    }

    /// What to send for RTCP packets.
    pub fn send_rtcp(&self, packets: &[RtcpPacket]) -> (r: Result<RtcpOutgoing, RtpSendError>)
        ensures
            match rtcp::rtcp_marshaled(rtcp::rtcp_views(packets@)) {
                Err(e) => r matches Err(x) && x@ == SendErrorView::Rtp(e),
                Ok(raw) => if self@.sending is Some {
                    r matches Ok(RtcpOutgoing::Protect(b)) && b@ == raw
                } else if self@.srtp_required {
                    r matches Err(x) && x@ == SendErrorView::NotReady
                } else {
                    r matches Ok(RtcpOutgoing::Plain(b)) && b@ == raw
                },
            },
    {
        let raw = match rtcp::marshal_rtcp_packets(packets) {
            Ok(raw) => raw,
            Err(e) => {
                return Err(RtpSendError::Rtp(e));
            },
        };
        if self.srtp_session.is_some() {
            Ok(RtcpOutgoing::Protect(raw))
        } else if self.srtp_required {
            Err(RtpSendError::NotReady)
        } else {
            Ok(RtcpOutgoing::Plain(raw))
        }
    }

    /// Takes a packet: who gets what. `opened` is what the session made of it where it is an RTCP
    /// packet, and none where it refused it.
    pub fn receive(&mut self, raw: &[u8], opened: Option<Vec<u8>>) -> (r: RtpDelivery)
        requires
            old(self).wf(),
        ensures
            final(self).wf(),
            r@ == delivery(
                old(self)@,
                raw@,
                plain(old(self)@, raw@, crypto::bytes_of(opened)),
            ),
            final(self)@ == after_packet(old(self)@, raw@),
    {
        let is_rtcp_packet = rtcp::is_rtcp(raw);
        let unprotected = match &mut self.srtp_session {
            Some(session) => {
                if is_rtcp_packet {
                    match opened {
                        Some(b) => b,
                        None => {
                            return RtpDelivery::Nothing;
                        },
                    }
                } else {
                    match unprotect(session, raw) {
                        Some(b) => b,
                        None => {
                            return RtpDelivery::Nothing;
                        },
                    }
                }
            },
            None => {
                if self.srtp_required {
                    return RtpDelivery::Nothing;
                }
                let out = wire::copy_range(raw, 0, raw.len());
                assert(out@ =~= raw@);
                out
            },
        };
        if is_rtcp_packet {
            match self.rtcp_listener {
                None => RtpDelivery::Nothing,
                Some(l) => match rtcp::parse_rtcp_packets(unprotected.as_slice()) {
                    Ok(packets) => RtpDelivery::Rtcp(l, packets),
                    Err(_) => RtpDelivery::Nothing,
                },
            }
        } else {
            match RtpPacket::parse(unprotected.as_slice()) {
                Err(_) => RtpDelivery::Nothing,
                Ok(packet) => match self.listener(&packet) {
                    Some(l) => RtpDelivery::Rtp(l, packet),
                    None => RtpDelivery::Nothing,
                },
            }
        }
    }

    /// The listener for a media packet.
    fn listener(&self, packet: &RtpPacket) -> (r: Option<u64>)
        ensures
            r == listener_for(self@, packet@),
    {
        if let Some(id) = self.rid_extension_id {
            if let Some(value) = packet.header.get_extension(id) {
                let rid = text::lossy_string(value.as_slice());
                let found = find_rid(&self.rid_listeners, rid.as_str());
                if found.is_some() {
                    return found;
                }
            }
        }
        match self.listeners.get(&packet.header.ssrc) {
            Some(l) => Some(*l),
            None => None,
        }
    }
}

/// Protects a packet and writes it.
fn protect(session: &mut SrtpSession, packet: &mut RtpPacket) -> (r: Result<Vec<u8>, RtpSendError>)
    requires
        old(session).wf(),
    ensures
        final(session).wf(),
        final(session).sending() == old(session).sending().after(
            old(packet)@.header.sequence_number,
        ),
        final(session).receiving() == old(session).receiving(),
        bytes_view(r) == protected(final(session).sending(), old(packet)@),
        r is Ok <==> srtp::protectable(old(session).sending(), old(packet)@),
{
    match session.protect_rtp(packet) {
        Err(e) => Err(RtpSendError::Srtp(e)),
        Ok(_) => match packet.marshal() {
            Ok(out) => Ok(out),
            Err(e) => Err(RtpSendError::Rtp(e)),
        },
    }
}

/// Removes the protection of a media packet.
fn unprotect(session: &mut SrtpSession, raw: &[u8]) -> (r: Option<Vec<u8>>)
    requires
        old(session).wf(),
    ensures
        final(session).wf(),
        final(session).sending() == old(session).sending(),
        crypto::bytes_of(r) == opened_rtp(old(session).receiving(), raw@),
        final(session).receiving() == match packet::rtp_parsed(raw@) {
            Err(_) => old(session).receiving(),
            Ok(p) => if srtp::unprotect_outcome(old(session).receiving(), p).result is Ok {
                old(session).receiving().after(p.header.sequence_number)
            } else {
                old(session).receiving()
            },
        },
{
    match RtpPacket::parse(raw) {
        Err(_) => None,
        Ok(packet) => {
            let mut packet = packet;
            match session.unprotect_rtp(&mut packet) {
                Err(_) => None,
                Ok(_) => match packet.marshal() {
                    Ok(out) => Some(out),
                    Err(_) => None,
                },
            }
        },
    }
}

} // verus!
