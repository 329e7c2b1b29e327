//! Where the parts of a STUN message stand, and what protects it.
use vstd::prelude::*;

use crate::crypto;
use crate::transports::ice::address::{IpAddr, SocketAddr};
use crate::transports::ice::stun;
use crate::transports::ice::stun::{DecodedView, StunClass, StunError, StunMethod};
use crate::wire;

verus! {

/// The types of messages: two bits of class in the number of the method.
pub proof fn law_message_types()
    ensures
        stun::message_type(StunClass::Request, StunMethod::Binding) == 0x0001,
        stun::message_type(StunClass::Indication, StunMethod::Binding) == 0x0011,
        stun::message_type(StunClass::SuccessResponse, StunMethod::Binding) == 0x0101,
        stun::message_type(StunClass::ErrorResponse, StunMethod::Binding) == 0x0111,
        stun::message_type(StunClass::Request, StunMethod::Allocate) == 0x0003,
        stun::message_type(StunClass::SuccessResponse, StunMethod::Allocate) == 0x0103,
        stun::message_type(StunClass::ErrorResponse, StunMethod::Allocate) == 0x0113,
        stun::message_type(StunClass::Indication, StunMethod::Send) == 0x0016,
        stun::message_type(StunClass::Indication, StunMethod::Data) == 0x0017,
        stun::message_type(StunClass::Request, StunMethod::CreatePermission) == 0x0008,
        stun::message_type(StunClass::SuccessResponse, StunMethod::CreatePermission) == 0x0108,
        stun::message_type(StunClass::ErrorResponse, StunMethod::CreatePermission) == 0x0118,
{
}

/// A message type is read back as the class and the method that it was made of.
pub proof fn law_message_type_is_read_back(class: StunClass, method: StunMethod)
    ensures
        stun::message_type(class, method) < 0x4000,
        StunClass::of_type(stun::message_type(class, method)) == class,
        StunMethod::of_code(StunMethod::code_of_type(stun::message_type(class, method))) == Some(
            method,
        ),
{
}

/// An attribute is its type, the length of its value, its value, and zeros up to a multiple of
/// four.
pub proof fn law_attribute_layout(t: u16, v: Seq<u8>)
    requires
        v.len() < 0x1_0000,
    ensures
        ({
            let s = stun::attr_bytes((t, v));
            let n = v.len() as int;
            &&& s.len() % 4 == 0
            &&& 4 + n <= s.len() < 8 + n
            &&& wire::be16(s, 0) == t
            &&& wire::be16(s, 2) == n
            &&& s.subrange(4, 4 + n) == v
            &&& forall|i: int| 4 + n <= i < s.len() ==> #[trigger] s[i] == 0
        }),
{
    let s = stun::attr_bytes((t, v));
    let n = v.len() as int;
    assert(s.subrange(0, 2) =~= wire::enc16(t));
    wire::lemma_be16_enc16(s, 0, t);
    assert(s.subrange(2, 4) =~= wire::enc16(n as u16));
    wire::lemma_be16_enc16(s, 2, n as u16);
    assert(s.subrange(4, 4 + n) =~= v);
}

/// The packet `p` with another length of what follows its header.
pub open spec fn with_length(p: Seq<u8>, len: int) -> Seq<u8> {
    p.update(2, (len / 256) as u8).update(3, (len % 256) as u8)
}

/// Whether the hash gives codes of its length.
pub open spec fn codes_have_length() -> bool {
    forall|key: Seq<u8>, data: Seq<u8>| (#[trigger] crypto::hmac_sha1(key, data)).len() == 20
}

/// The value of the first attribute of type `t` in a packet.
pub open spec fn value_in(packet: Seq<u8>, t: u16) -> Option<Seq<u8>> {
    match stun::attrs_parsed(packet.skip(20)) {
        Some(attrs) => stun::first_value(attrs, t),
        None => None,
    }
}

/// Without an attribute of a type there is no value of it.
pub proof fn lemma_no_value(attrs: Seq<(u16, Seq<u8>)>, t: u16)
    requires
        forall|i: int| 0 <= i < attrs.len() ==> (#[trigger] attrs[i]).0 != t,
    ensures
        stun::first_value(attrs, t) is None,
    decreases attrs.len(),
{
    if attrs.len() > 0 {
        assert(attrs[0].0 != t);
        let rest = attrs.drop_first();
        assert forall|i: int| 0 <= i < rest.len() implies (#[trigger] rest[i]).0 != t by {
            assert(rest[i] == attrs[i + 1]);
        }
        lemma_no_value(rest, t);
    }
}

/// Whether a packet ends with its checksum.
pub open spec fn fingerprinted(p: Seq<u8>) -> bool {
    let at = p.len() - 8;
    &&& at >= 20
    &&& wire::be16(p, at) == 0x8028
    &&& wire::be16(p, at + 2) == 4
    &&& wire::be32(p, at + 4) == stun::crc32(p.subrange(0, at)) ^ 0x5354_554E
}

/// Whether a packet with a checksum carries the code of what comes before it under `key`.
pub open spec fn signed(p: Seq<u8>, key: Seq<u8>) -> bool {
    let end = p.len() - 8;
    &&& end >= 44
    &&& wire::be16(p, end - 24) == 0x0008
    &&& wire::be16(p, end - 22) == 20
    &&& p.subrange(end - 20, end) == crypto::hmac_sha1(
        key,
        with_length(p.subrange(0, end - 24), end - 20),
    )
}

proof fn lemma_size(attrs: Seq<(u16, Seq<u8>)>, a: (u16, Seq<u8>))
    ensures
        stun::attrs_bytes(attrs.push(a)) == stun::attrs_bytes(attrs) + stun::attr_bytes(a),
{
    assert(attrs.push(a).drop_last() =~= attrs);
}

proof fn lemma_header(t: u16, len: nat, tx: Seq<u8>, body: Seq<u8>)
    requires
        tx.len() == 12,
        len < 0x1_0000,
    ensures
        ({
            let s = stun::header_bytes(t, len, tx) + body;
            &&& s.len() == 20 + body.len()
            &&& wire::be16(s, 0) == t
            &&& wire::be16(s, 2) == len
            &&& s[2] == len / 256
            &&& s[3] == len % 256
            &&& wire::be32(s, 4) == 0x2112_A442
            &&& s.subrange(8, 20) == tx
            &&& s.skip(20) == body
        }),
{
    let s = stun::header_bytes(t, len, tx) + body;
    assert(s.subrange(0, 2) =~= wire::enc16(t));
    assert(s.subrange(2, 4) =~= wire::enc16(len as u16));
    assert(s.subrange(4, 8) =~= wire::enc32(0x2112_A442));
    assert(s.subrange(8, 20) =~= tx);
    assert(s.skip(20) =~= body);
    wire::lemma_be16_enc16(s, 0, t);
    wire::lemma_be16_enc16(s, 2, len as u16);
    wire::lemma_be32_enc32(s, 4, 0x2112_A442);
    assert(s[2] == s.subrange(2, 4)[0]);
    assert(s[3] == s.subrange(2, 4)[1]);
}

/// Every message starts with its type, the length of its attributes, the magic cookie and its
/// transaction. The attributes follow in order.
#[verifier::rlimit(40)]
pub proof fn law_message_layout(
    t: u16,
    tx: Seq<u8>,
    attrs: Seq<(u16, Seq<u8>)>,
    key: Option<Seq<u8>>,
    fingerprint: bool,
)
    requires
        codes_have_length(),
        tx.len() == 12,
        stun::message_fits(attrs, key, fingerprint),
    ensures
        ({
            let p = stun::message_bytes(t, tx, attrs, key, fingerprint);
            let n = p.len() as int;
            let more: int = (if key is Some {
                24int
            } else {
                0
            }) + (if fingerprint {
                8int
            } else {
                0
            });
            &&& n >= 20 + more
            &&& wire::be16(p, 0) == t
            &&& wire::be16(p, 2) == n - 20
            &&& wire::be32(p, 4) == 0x2112_A442
            &&& p.subrange(8, 20) == tx
            &&& p.subrange(20, n - more) == stun::attrs_bytes(attrs)
            &&& stun::attrs_parsed(p.skip(20)) == Some(stun::sent(t, tx, attrs, key, fingerprint))
            &&& stun::sent(t, tx, attrs, key, fingerprint).len() == attrs.len() + (if key is Some {
                1int
            } else {
                0
            }) + (if fingerprint {
                1int
            } else {
                0
            })
            &&& stun::sent(t, tx, attrs, key, fingerprint).subrange(0, attrs.len() as int) == attrs
        }),
{
    let inner = stun::with_integrity(t, tx, attrs, key);
    let all = stun::sent(t, tx, attrs, key, fingerprint);
    let body = stun::attrs_bytes(all);
    let p = stun::message_bytes(t, tx, attrs, key, fingerprint);
    if key is Some {
        lemma_size(attrs, inner.last());
        assert(inner =~= attrs.push(inner.last()));
    }
    if fingerprint {
        lemma_size(inner, all.last());
        assert(all =~= inner.push(all.last()));
    }
    lemma_header(t, body.len(), tx, body);
    assert(all.subrange(0, attrs.len() as int) =~= attrs);
    assert(stun::all_fit(all)) by {
        assert forall|i: int| 0 <= i < all.len() implies (#[trigger] all[i]).1.len() < 0x1_0000 by {
            if i < attrs.len() {
                assert(all[i] == attrs[i]);
            }
        }
    }
    stun::law_attributes_are_read_back(all);
    let m = stun::attrs_bytes(attrs).len() as int;
    assert(p.subrange(20, 20 + m) =~= stun::attrs_bytes(attrs));
}

/// A message under a key carries the code of all that comes before, where the length in the header
/// is that of the message up to the end of the code.
#[verifier::rlimit(40)]
pub proof fn law_integrity(
    t: u16,
    tx: Seq<u8>,
    attrs: Seq<(u16, Seq<u8>)>,
    key: Seq<u8>,
    fingerprint: bool,
)
    requires
        codes_have_length(),
        tx.len() == 12,
        stun::message_fits(attrs, Some(key), fingerprint),
    ensures
        ({
            let p = stun::message_bytes(t, tx, attrs, Some(key), fingerprint);
            let end: int = if fingerprint {
                p.len() - 8
            } else {
                p.len() as int
            };
            let at = end - 24;
            &&& at >= 20
            &&& wire::be16(p, at) == 0x0008
            &&& wire::be16(p, at + 2) == 20
            &&& p.subrange(at + 4, end) == crypto::hmac_sha1(
                key,
                with_length(p.subrange(0, at), end - 20),
            )
        }),
{
    let inner = stun::with_integrity(t, tx, attrs, Some(key));
    let all = stun::sent(t, tx, attrs, Some(key), fingerprint);
    let body = stun::attrs_bytes(all);
    let first = stun::attrs_bytes(attrs);
    let code = inner.last().1;
    let p = stun::message_bytes(t, tx, attrs, Some(key), fingerprint);
    lemma_size(attrs, inner.last());
    if fingerprint {
        lemma_size(inner, all.last());
        assert(all =~= inner.push(all.last()));
    }
    lemma_header(t, body.len(), tx, body);
    law_attribute_layout(8, code);
    let a = stun::attr_bytes((8u16, code));
    let at = 20 + first.len() as int;
    let end = at + 24;
    assert(p.subrange(at, end) =~= a);
    assert(p[at] == a[0] && p[at + 1] == a[1] && p[at + 2] == a[2] && p[at + 3] == a[3]) by {
        assert(p[at] == p.subrange(at, end)[0]);
        assert(p[at + 1] == p.subrange(at, end)[1]);
        assert(p[at + 2] == p.subrange(at, end)[2]);
        assert(p[at + 3] == p.subrange(at, end)[3]);
    }
    assert(p.subrange(at + 4, end) =~= a.subrange(4, 24));
    let input = stun::header_bytes(t, first.len() + 24, tx) + first;
    lemma_header(t, first.len() + 24, tx, first);
    let patched = with_length(p.subrange(0, at), end - 20);
    assert forall|i: int| 0 <= i < at implies #[trigger] patched[i] == input[i] by {
        if i >= 20 {
            assert(p[i] == body[i - 20]);
            assert(body[i - 20] == first[i - 20]);
        }
    }
    assert(patched =~= input);
}

/// A message with a checksum ends with it: the CRC-32 of all that comes before, combined with a
/// constant.
#[verifier::rlimit(40)]
pub proof fn law_fingerprint(
    t: u16,
    tx: Seq<u8>,
    attrs: Seq<(u16, Seq<u8>)>,
    key: Option<Seq<u8>>,
)
    requires
        codes_have_length(),
        tx.len() == 12,
        stun::message_fits(attrs, key, true),
    ensures
        ({
            let p = stun::message_bytes(t, tx, attrs, key, true);
            let at = p.len() - 8;
            &&& at >= 20
            &&& wire::be16(p, at) == 0x8028
            &&& wire::be16(p, at + 2) == 4
            &&& wire::be32(p, at + 4) == stun::crc32(p.subrange(0, at)) ^ 0x5354_554E
        }),
{
    let inner = stun::with_integrity(t, tx, attrs, key);
    let first = stun::attrs_bytes(inner);
    let p = stun::message_bytes(t, tx, attrs, key, true);
    if key is Some {
        lemma_size(attrs, inner.last());
    }
    let crc = stun::crc32(stun::header_bytes(t, first.len() + 8, tx) + first) ^ 0x5354_554E;
    lemma_size(inner, (stun::ATTR_FINGERPRINT, wire::enc32(crc)));
    assert(stun::attr_bytes((0x8028u16, wire::enc32(crc))).len() == 8);
    lemma_ends(stun::header_bytes(t, first.len() + 8, tx), first, crc);
}

proof fn lemma_ends(h: Seq<u8>, first: Seq<u8>, x: u32)
    ensures
        ({
            let p = h + (first + stun::attr_bytes((0x8028u16, wire::enc32(x))));
            let at = p.len() - 8;
            &&& at == h.len() + first.len()
            &&& wire::be16(p, at) == 0x8028
            &&& wire::be16(p, at + 2) == 4
            &&& wire::be32(p, at + 4) == x
            &&& p.subrange(0, at) == h + first
        }),
{
    let a = stun::attr_bytes((0x8028u16, wire::enc32(x)));
    let p = h + (first + a);
    let at = (h.len() + first.len()) as int;
    assert(a =~= wire::enc16(0x8028) + wire::enc16(4) + wire::enc32(x));
    assert(p.subrange(0, at) =~= h + first);
    assert(p.subrange(at, at + 2) =~= wire::enc16(0x8028));
    wire::lemma_be16_enc16(p, at, 0x8028);
    assert(p.subrange(at + 2, at + 4) =~= wire::enc16(4));
    wire::lemma_be16_enc16(p, at + 2, 4);
    assert(p.subrange(at + 4, at + 8) =~= wire::enc32(x));
    wire::lemma_be32_enc32(p, at + 4, x);
}

/// An address on the wire: its family, its port combined with the start of the magic cookie, and
/// the address combined with the cookie and, beyond four bytes, the transaction.
pub proof fn law_address_layout(a: SocketAddr, tx: Seq<u8>)
    requires
        tx.len() == 12,
    ensures
        ({
            let v = stun::xor_address_value(a, tx);
            &&& v[0] == 0
            &&& wire::be16(v, 2) == a.port ^ 0x2112
            &&& match a.ip {
                IpAddr::V4(x) => {
                    &&& v.len() == 8
                    &&& v[1] == 1
                    &&& wire::be32(v, 4) == x ^ 0x2112_A442
                },
                IpAddr::V6(x) => {
                    &&& v.len() == 20
                    &&& v[1] == 2
                    &&& forall|i: int|
                        0 <= i < 16 ==> #[trigger] v[4 + i] == stun::enc128(x)[i] ^ (
                        wire::enc32(0x2112_A442) + tx)[i]
                },
            }
        }),
{
    let v = stun::xor_address_value(a, tx);
    assert(v.subrange(2, 4) =~= wire::enc16(a.port ^ 0x2112));
    wire::lemma_be16_enc16(v, 2, a.port ^ 0x2112);
    match a.ip {
        IpAddr::V4(x) => {
            assert(v.subrange(4, 8) =~= wire::enc32(x ^ 0x2112_A442));
            wire::lemma_be32_enc32(v, 4, x ^ 0x2112_A442);
        },
        IpAddr::V6(x) => {
            assert forall|i: int| 0 <= i < 16 implies #[trigger] v[4 + i] == stun::enc128(x)[i] ^ (
            wire::enc32(0x2112_A442) + tx)[i] by {
                assert(v[4 + i] == stun::masked(stun::enc128(x), stun::address_mask(tx))[i]);
            }
        },
    }
}

/// The code of an error: its class, from three bits, in hundreds, and a number.
pub proof fn law_error_codes(reserved: Seq<u8>, class: u8, number: u8, reason: Seq<u8>)
    requires
        reserved.len() == 2,
    ensures
        stun::error_code_of(reserved + seq![class, number] + reason) == Some(
            (100 * (class % 8) + number) as u16,
        ),
{
    let v = reserved + seq![class, number] + reason;
    assert(v[2] == class);
    assert(v[3] == number);
}

/// An attribute of a message is read as it was sent, where it is the first of its type.
#[verifier::rlimit(40)]
pub proof fn law_value_is_read(
    t: u16,
    tx: Seq<u8>,
    attrs: Seq<(u16, Seq<u8>)>,
    key: Option<Seq<u8>>,
    fingerprint: bool,
    k: int,
)
    requires
        codes_have_length(),
        tx.len() == 12,
        stun::message_fits(attrs, key, fingerprint),
        0 <= k < attrs.len(),
        forall|i: int| 0 <= i < k ==> (#[trigger] attrs[i]).0 != attrs[k].0,
    ensures
        value_in(stun::message_bytes(t, tx, attrs, key, fingerprint), attrs[k].0) == Some(
            attrs[k].1,
        ),
{
    law_message_layout(t, tx, attrs, key, fingerprint);
    let all = stun::sent(t, tx, attrs, key, fingerprint);
    assert forall|i: int| 0 <= i < attrs.len() implies #[trigger] all[i] == attrs[i] by {
        assert(all.subrange(0, attrs.len() as int)[i] == all[i]);
    }
    assert(all[k] == attrs[k]);
    assert forall|i: int| 0 <= i < k implies (#[trigger] all[i]).0 != attrs[k].0 by {
        assert(all[i] == attrs[i]);
    }
    stun::lemma_first_value(all, attrs[k].0, k);
}

/// A message under a key and with a checksum has both, in its transaction.
#[verifier::rlimit(40)]
pub proof fn law_message_is_signed(
    t: u16,
    tx: Seq<u8>,
    attrs: Seq<(u16, Seq<u8>)>,
    key: Seq<u8>,
)
    requires
        codes_have_length(),
        tx.len() == 12,
        stun::message_fits(attrs, Some(key), true),
    ensures
        ({
            let p = stun::message_bytes(t, tx, attrs, Some(key), true);
            &&& wire::be16(p, 0) == t
            &&& p.subrange(8, 20) == tx
            &&& signed(p, key)
            &&& fingerprinted(p)
        }),
{
    law_message_layout(t, tx, attrs, Some(key), true);
    law_integrity(t, tx, attrs, key, true);
    law_fingerprint(t, tx, attrs, Some(key));
}

/// A message without a key carries no other attributes than it was given and the checksum.
pub proof fn law_nothing_is_added(t: u16, tx: Seq<u8>, attrs: Seq<(u16, Seq<u8>)>, other: u16)
    requires
        codes_have_length(),
        tx.len() == 12,
        stun::message_fits(attrs, None, true),
        other != 0x8028,
        forall|i: int| 0 <= i < attrs.len() ==> (#[trigger] attrs[i]).0 != other,
    ensures
        value_in(stun::message_bytes(t, tx, attrs, None, true), other) is None,
{
    law_message_layout(t, tx, attrs, None, true);
    let all = stun::sent(t, tx, attrs, None, true);
    assert forall|i: int| 0 <= i < all.len() implies (#[trigger] all[i]).0 != other by {
        if i < attrs.len() {
            assert(all.subrange(0, attrs.len() as int)[i] == all[i]);
            assert(attrs[i].0 != other);
        }
    }
    lemma_no_value(all, other);
}

/// What is no message: what starts with a byte of 64 or more or lacks the magic cookie; and a
/// message that is cut, or has a method of another number, cannot be read.
pub proof fn law_messages_are_refused(s: Seq<u8>)
    ensures
        s.len() < 20 ==> stun::stun_decoded(s) == Err::<DecodedView, StunError>(
            StunError::Truncated,
        ),
        s.len() >= 20 && (s[0] >= 64 || wire::be32(s, 4) != 0x2112_A442) ==> stun::stun_decoded(s)
            == Err::<DecodedView, StunError>(StunError::NotStun),
        s.len() >= 20 && s[0] < 64 && wire::be32(s, 4) == 0x2112_A442 ==> {
            &&& s.len() < 20 + wire::be16(s, 2) ==> stun::stun_decoded(s) == Err::<
                DecodedView,
                StunError,
            >(StunError::Truncated)
            &&& s.len() >= 20 + wire::be16(s, 2) && StunMethod::of_code(
                StunMethod::code_of_type(wire::be16(s, 0)),
            ) is None ==> stun::stun_decoded(s) == Err::<DecodedView, StunError>(
                StunError::UnknownMethod,
            )
            &&& s.len() >= 20 + wire::be16(s, 2) && stun::attrs_parsed(
                s.subrange(20, 20 + wire::be16(s, 2)),
            ) is None ==> stun::stun_decoded(s) is Err
        },
{
}

/// The methods by their numbers: binding, allocation, sending, data and permission.
pub proof fn law_method_numbers(n: int)
    ensures
        StunMethod::of_code(1) == Some(StunMethod::Binding),
        StunMethod::of_code(3) == Some(StunMethod::Allocate),
        StunMethod::of_code(6) == Some(StunMethod::Send),
        StunMethod::of_code(7) == Some(StunMethod::Data),
        StunMethod::of_code(8) == Some(StunMethod::CreatePermission),
        n != 1 && n != 3 && n != 6 && n != 7 && n != 8 ==> StunMethod::of_code(n) is None,
{
}

/// Attributes of which one is cut, in its header or in its value, cannot be read; padding may be
/// missing at the end.
pub proof fn law_attributes_are_refused(s: Seq<u8>)
    ensures
        0 < s.len() < 4 ==> stun::attrs_parsed(s) is None,
        s.len() >= 4 && s.len() < 4 + wire::be16(s, 2) ==> stun::attrs_parsed(s) is None,
        s.len() >= 4 && s.len() == 4 + wire::be16(s, 2) ==> stun::attrs_parsed(s) == Some(
            seq![(wire::be16(s, 0), s.skip(4))],
        ),
        stun::attrs_parsed(seq![]) == Some(Seq::<(u16, Seq<u8>)>::empty()),
{
    if s.len() >= 4 && s.len() == 4 + wire::be16(s, 2) {
        let rest = s.skip(s.len() as int);
        assert(rest.len() == 0);
        assert(s.subrange(4, s.len() as int) =~= s.skip(4));
        assert(stun::attrs_parsed(rest) == Some(Seq::<(u16, Seq<u8>)>::empty()));
        assert(seq![(wire::be16(s, 0), s.skip(4))] + Seq::<(u16, Seq<u8>)>::empty() =~= seq![
            (wire::be16(s, 0), s.skip(4)),
        ]);
    }
}

} // verus!
