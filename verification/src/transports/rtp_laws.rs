//! What becomes of media packets on their way through a transport.
use vstd::prelude::*;

use crate::rtp::packet;
use crate::rtp::packet::PacketView;
use crate::rtp::rtcp;
use crate::srtp;
use crate::srtp::SrtpView;
use crate::text;
use crate::transports::rtp;
use crate::transports::rtp::{DeliveryView, RtpTransportView, SendErrorView};

verus! {

/// It makes no difference whether a packet is sent as a packet or as its bytes.
pub proof fn law_bytes_are_sent_as_packets(v: RtpTransportView, p: PacketView)
    requires
        packet::rtp_representable(p),
    ensures
        packet::rtp_marshaled(p) matches Ok(raw) && rtp::sent_bytes(v, raw) == rtp::sent_packet(
            v,
            p,
        ),
{
    packet::law_parse_of_marshal(p);
}

/// Without keys, and where none are needed, a packet goes out as its bytes, and what comes in is
/// taken as it is.
pub proof fn law_plain_packets(
    v: RtpTransportView,
    p: PacketView,
    raw: Seq<u8>,
    opened: Option<Seq<u8>>,
)
    requires
        v.sending is None,
        v.receiving is None,
        !v.srtp_required,
    ensures
        rtp::sent_bytes(v, raw) == Ok::<Seq<u8>, SendErrorView>(raw),
        rtp::plain(v, raw, opened) == Some(raw),
        packet::rtp_representable(p) ==> (rtp::sent_packet(v, p) matches Ok(sent)
            && packet::rtp_parsed(sent) matches Ok(q) && q == p),
        rtp::after_packet(v, raw) == v,
{
    if packet::rtp_representable(p) {
        packet::law_parse_of_marshal(p);
    }
}

/// Under a session's keys a packet goes out with the header that it had and the payload that the
/// session made of it once the packet was counted; what the session refuses is not sent.
pub proof fn law_protected_packets(v: RtpTransportView, c: SrtpView, p: PacketView)
    requires
        v.sending == Some(c),
        packet::rtp_representable(p),
    ensures
        ({
            let o = srtp::protect_outcome(c.after(p.header.sequence_number), p);
            match rtp::sent_packet(v, p) {
                Ok(sent) => o.result is Ok && (packet::rtp_parsed(sent) matches Ok(q) && q.header
                    == p.header && q.payload == o.packet.payload),
                Err(e) => o.result matches Err(f) && e == SendErrorView::Srtp(f),
            }
        }),
        rtp::counted(v, p.header.sequence_number).sending == Some(
            c.after(p.header.sequence_number),
        ),
        rtp::counted(v, p.header.sequence_number).receiving == v.receiving,
        rtp::counted(v, p.header.sequence_number).listeners == v.listeners,
{
    let o = srtp::protect_outcome(c.after(p.header.sequence_number), p);
    if o.result is Ok {
        packet::law_parse_of_marshal(o.packet);
    }
}

/// A packet that is not authentic reaches no one and counts for nothing.
pub proof fn law_forged_packets(
    v: RtpTransportView,
    c: SrtpView,
    raw: Seq<u8>,
    p: PacketView,
    opened: Option<Seq<u8>>,
)
    requires
        v.receiving == Some(c),
        !rtcp::is_rtcp_bytes(raw),
        packet::rtp_parsed(raw) matches Ok(q) && q == p,
        srtp::unprotect_outcome(c, p).result is Err,
    ensures
        rtp::delivery(v, raw, rtp::plain(v, raw, opened)) == DeliveryView::Nothing,
        rtp::after_packet(v, raw) == v,
{
}

/// An authentic media packet counts at the receiving end, and changes nothing else.
pub proof fn law_packets_are_counted(
    v: RtpTransportView,
    c: SrtpView,
    raw: Seq<u8>,
    p: PacketView,
)
    requires
        v.receiving == Some(c),
        !rtcp::is_rtcp_bytes(raw),
        packet::rtp_parsed(raw) matches Ok(q) && q == p,
        srtp::unprotect_outcome(c, p).result is Ok,
    ensures
        rtp::after_packet(v, raw) == (RtpTransportView {
            receiving: Some(c.after(p.header.sequence_number)),
            ..v
        }),
{
}

/// The listener for the stream that a packet names gets it; else the listener for its source; else
/// no one.
pub proof fn law_listeners(v: RtpTransportView, p: PacketView, rid: Seq<char>)
    ensures
        v.rid_extension_id is None && v.listeners.contains_key(p.header.ssrc) ==> rtp::listener_for(
            v,
            p,
        ) == Some(v.listeners[p.header.ssrc]),
        v.rid_extension_id is None && !v.listeners.contains_key(p.header.ssrc)
            ==> rtp::listener_for(v, p) is None,
        (v.rid_extension_id matches Some(id) && packet::element(p.header, id) matches Some(name)
            && text::utf8_lossy(name) == rid) ==> {
            &&& v.rid_listeners.contains_key(rid) ==> rtp::listener_for(v, p) == Some(
                v.rid_listeners[rid],
            )
            &&& !v.rid_listeners.contains_key(rid) && v.listeners.contains_key(p.header.ssrc)
                ==> rtp::listener_for(v, p) == Some(v.listeners[p.header.ssrc])
            &&& !v.rid_listeners.contains_key(rid) && !v.listeners.contains_key(p.header.ssrc)
                ==> rtp::listener_for(v, p) is None
        },
        (v.rid_extension_id matches Some(id) && packet::element(p.header, id) is None
            && v.listeners.contains_key(p.header.ssrc)) ==> rtp::listener_for(v, p) == Some(
            v.listeners[p.header.ssrc],
        ),
{
}

/// A media packet goes to its listener as it was written, whatever RTCP listener there is.
pub proof fn law_media_is_delivered(v: RtpTransportView, p: PacketView, raw: Seq<u8>)
    requires
        packet::rtp_representable(p),
        packet::rtp_marshaled(p) matches Ok(b) && b == raw,
        !rtcp::is_rtcp_bytes(raw),
    ensures
        rtp::listener_for(v, p) matches Some(l) ==> rtp::delivery(v, raw, Some(raw))
            == DeliveryView::Rtp(l, p),
        rtp::listener_for(v, p) is None ==> rtp::delivery(v, raw, Some(raw))
            == DeliveryView::Nothing,
{
    packet::law_parse_of_marshal(p);
}

/// What looks like RTCP goes to the RTCP listener and to no one else; what cannot be opened or
/// read goes to no one.
pub proof fn law_control_is_delivered(v: RtpTransportView, raw: Seq<u8>, opened: Seq<u8>)
    requires
        rtcp::is_rtcp_bytes(raw),
    ensures
        v.rtcp_listener matches Some(l) ==> match rtcp::rtcp_parsed(opened) {
            Ok(ps) => rtp::delivery(v, raw, Some(opened)) == DeliveryView::Rtcp(l, ps),
            Err(_) => rtp::delivery(v, raw, Some(opened)) == DeliveryView::Nothing,
        },
        v.rtcp_listener is None ==> rtp::delivery(v, raw, Some(opened)) == DeliveryView::Nothing,
        rtp::delivery(v, raw, None) == DeliveryView::Nothing,
        v.receiving is Some ==> rtp::plain(v, raw, Some(opened)) == Some(opened) && rtp::plain(
            v,
            raw,
            None,
        ) is None,
        rtp::after_packet(v, raw) == v,
{
}

} // verus!
