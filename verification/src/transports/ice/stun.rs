//! STUN messages (RFC 8489), with the attributes of ICE (RFC 8445) and TURN (RFC 8656).
use vstd::prelude::*;
use vstd::string::*;
use vstd::utf8::*;

use crate::crypto;
use crate::text;
use crate::transports::ice::address::{IpAddr, SocketAddr};
use crate::wire;

verus! {

#[derive(Debug, Clone, Copy, PartialEq, Eq, Structural)]
pub enum StunClass {
    Request,
    Indication,
    SuccessResponse,
    ErrorResponse,
}

#[derive(Debug, Clone, Copy, PartialEq, Eq, Structural)]
pub enum StunMethod {
    Binding,
    Allocate,
    Send,
    Data,
    CreatePermission,
}

/// Why a message cannot be written or read.
#[derive(Debug, Clone, Copy, PartialEq, Eq, Structural)]
pub enum StunError {
    /// The attributes do not fit the length field.
    TooLong,
    /// Fewer bytes than the header asks for.
    Truncated,
    /// The first two bits or the magic cookie are not those of STUN.
    NotStun,
    /// A method that is not known.
    UnknownMethod,
}

impl StunError {
    /// The text of the failure.
    pub open spec fn text(&self) -> Seq<char> {
        match self {
            StunError::TooLong => "STUN message too long"@,
            StunError::Truncated => "STUN message truncated"@,
            StunError::NotStun => "not a STUN message"@,
            StunError::UnknownMethod => "unknown STUN method"@,
        }
    }

    /// The text of the failure.
    pub fn message(&self) -> (r: String)
        ensures
            r@ == self.text(),
    {
        String::from_str(
            match self {
                StunError::TooLong => "STUN message too long",
                StunError::Truncated => "STUN message truncated",
                StunError::NotStun => "not a STUN message",
                StunError::UnknownMethod => "unknown STUN method",
            },
        )
    }
}

pub const MAGIC_COOKIE: u32 = 0x2112_A442;

pub const ATTR_USERNAME: u16 = 0x0006;

pub const ATTR_MESSAGE_INTEGRITY: u16 = 0x0008;

pub const ATTR_ERROR_CODE: u16 = 0x0009;

pub const ATTR_LIFETIME: u16 = 0x000D;

pub const ATTR_XOR_PEER_ADDRESS: u16 = 0x0012;

pub const ATTR_DATA: u16 = 0x0013;

pub const ATTR_REALM: u16 = 0x0014;

pub const ATTR_NONCE: u16 = 0x0015;

pub const ATTR_XOR_RELAYED_ADDRESS: u16 = 0x0016;

pub const ATTR_REQUESTED_TRANSPORT: u16 = 0x0019;

pub const ATTR_XOR_MAPPED_ADDRESS: u16 = 0x0020;

pub const ATTR_PRIORITY: u16 = 0x0024;

pub const ATTR_USE_CANDIDATE: u16 = 0x0025;

pub const ATTR_SOFTWARE: u16 = 0x8022;

pub const ATTR_FINGERPRINT: u16 = 0x8028;

pub const ATTR_ICE_CONTROLLED: u16 = 0x8029;

pub const ATTR_ICE_CONTROLLING: u16 = 0x802A;

impl StunClass {
    /// The bits of the class in a message type.
    pub open spec fn bits(self) -> u16 {
        match self {
            StunClass::Request => 0,
            StunClass::Indication => 16,
            StunClass::SuccessResponse => 256,
            StunClass::ErrorResponse => 272,
        }
    }

    /// The class in a message type.
    pub open spec fn of_type(t: u16) -> StunClass {
        if (t / 256) % 2 == 0 {
            if (t / 16) % 2 == 0 {
                StunClass::Request
            } else {
                StunClass::Indication
            }
        } else {
            if (t / 16) % 2 == 0 {
                StunClass::SuccessResponse
            } else {
                StunClass::ErrorResponse
            }
        }
    }
}

impl StunMethod {
    /// The number of the method.
    pub open spec fn code(self) -> u16 {
        match self {
            StunMethod::Binding => 1,
            StunMethod::Allocate => 3,
            StunMethod::Send => 6,
            StunMethod::Data => 7,
            StunMethod::CreatePermission => 8,
        }
    }

    /// The number of the method in a message type.
    pub open spec fn code_of_type(t: u16) -> int {
        t % 16 + ((t / 32) % 8) * 16 + ((t / 512) % 32) * 128
    }

    /// The method with this number.
    pub open spec fn of_code(n: int) -> Option<StunMethod> {
        if n == 1 {
            Some(StunMethod::Binding)
        } else if n == 3 {
            Some(StunMethod::Allocate)
        } else if n == 6 {
            Some(StunMethod::Send)
        } else if n == 7 {
            Some(StunMethod::Data)
        } else if n == 8 {
            Some(StunMethod::CreatePermission)
        } else {
            None
        }
    }
}

/// The message type of a class and a method.
pub open spec fn message_type(class: StunClass, method: StunMethod) -> u16 {
    (class.bits() + method.code()) as u16
}

/// An attribute of a message.
#[derive(Debug, Clone, PartialEq, Eq)]
pub enum StunAttribute {
    Username(String),
    Priority(u32),
    IceControlling(u64),
    IceControlled(u64),
    UseCandidate,
    Software(String),
    RequestedTransport(u8),
    Lifetime(u32),
    Realm(String),
    Nonce(String),
    XorMappedAddress(SocketAddr),
    XorPeerAddress(SocketAddr),
    Data(Vec<u8>),
}

/// The sixteen bytes of `x`.
pub open spec fn enc128(x: u128) -> Seq<u8> {
    wire::enc64((x / 0x1_0000_0000_0000_0000) as u64) + wire::enc64(
        (x % 0x1_0000_0000_0000_0000) as u64,
    )
}

/// The 128-bit integer that starts at `at`.
pub open spec fn be128(s: Seq<u8>, at: int) -> u128 {
    (wire::be64(s, at) * 0x1_0000_0000_0000_0000 + wire::be64(s, at + 8)) as u128
}

/// What an IPv6 address is combined with: the magic cookie and the transaction.
pub open spec fn address_mask(tx: Seq<u8>) -> Seq<u8> {
    wire::enc32(MAGIC_COOKIE) + tx
}

/// Bytes combined with a mask by exclusive or.
pub open spec fn masked(s: Seq<u8>, mask: Seq<u8>) -> Seq<u8> {
    Seq::new(s.len(), |i: int| s[i] ^ mask[i])
}

/// The value of an attribute that holds an address, combined with the cookie and the
/// transaction.
pub open spec fn xor_address_value(a: SocketAddr, tx: Seq<u8>) -> Seq<u8> {
    match a.ip {
        IpAddr::V4(x) => seq![0u8, 1] + wire::enc16(a.port ^ 0x2112) + wire::enc32(
            x ^ MAGIC_COOKIE,
        ),
        IpAddr::V6(x) => seq![0u8, 2] + wire::enc16(a.port ^ 0x2112) + masked(
            enc128(x),
            address_mask(tx),
        ),
    }
}

/// The address that the value of an attribute holds.
pub open spec fn xor_address_parsed(v: Seq<u8>, tx: Seq<u8>) -> Option<SocketAddr> {
    if v.len() >= 8 && v[1] == 1 {
        Some(
            SocketAddr {
                ip: IpAddr::V4(wire::be32(v, 4) ^ MAGIC_COOKIE),
                port: wire::be16(v, 2) ^ 0x2112,
                scope_id: 0,
            },
        )
    } else if v.len() >= 20 && v[1] == 2 {
        Some(
            SocketAddr {
                ip: IpAddr::V6(be128(masked(v.subrange(4, 20), address_mask(tx)), 0)),
                port: wire::be16(v, 2) ^ 0x2112,
                scope_id: 0,
            },
        )
    } else {
        None
    }
}

impl StunAttribute {
    /// The type and the value of the attribute in a message of the transaction `tx`.
    pub open spec fn raw(self, tx: Seq<u8>) -> (u16, Seq<u8>) {
        match self {
            StunAttribute::Username(s) => (ATTR_USERNAME, encode_utf8(s@)),
            StunAttribute::Priority(x) => (ATTR_PRIORITY, wire::enc32(x)),
            StunAttribute::IceControlling(x) => (ATTR_ICE_CONTROLLING, wire::enc64(x)),
            StunAttribute::IceControlled(x) => (ATTR_ICE_CONTROLLED, wire::enc64(x)),
            StunAttribute::UseCandidate => (ATTR_USE_CANDIDATE, seq![]),
            StunAttribute::Software(s) => (ATTR_SOFTWARE, encode_utf8(s@)),
            StunAttribute::RequestedTransport(x) => (ATTR_REQUESTED_TRANSPORT, seq![x, 0, 0, 0]),
            StunAttribute::Lifetime(x) => (ATTR_LIFETIME, wire::enc32(x)),
            StunAttribute::Realm(s) => (ATTR_REALM, encode_utf8(s@)),
            StunAttribute::Nonce(s) => (ATTR_NONCE, encode_utf8(s@)),
            StunAttribute::XorMappedAddress(a) => (
                ATTR_XOR_MAPPED_ADDRESS,
                xor_address_value(a, tx),
            ),
            StunAttribute::XorPeerAddress(a) => (ATTR_XOR_PEER_ADDRESS, xor_address_value(a, tx)),
            StunAttribute::Data(d) => (ATTR_DATA, d@),
        }
    }
}

/// How many bytes follow a value of this length up to a multiple of four.
pub open spec fn pad_len(n: int) -> int {
    (4 - n % 4) % 4
}

/// An attribute on the wire.
pub open spec fn attr_bytes(a: (u16, Seq<u8>)) -> Seq<u8> {
    wire::enc16(a.0) + wire::enc16((a.1.len() % 0x1_0000) as u16) + a.1 + wire::repeated(
        0,
        pad_len(a.1.len() as int) as nat,
    )
}

/// Attributes on the wire, one after the other.
pub open spec fn attrs_bytes(attrs: Seq<(u16, Seq<u8>)>) -> Seq<u8>
    decreases attrs.len(),
{
    if attrs.len() == 0 {
        seq![]
    } else {
        attrs_bytes(attrs.drop_last()) + attr_bytes(attrs.last())
    }
}

/// The header of a message whose attributes take `len` bytes.
pub open spec fn header_bytes(t: u16, len: nat, tx: Seq<u8>) -> Seq<u8> {
    wire::enc16(t) + wire::enc16((len % 0x1_0000) as u16) + wire::enc32(MAGIC_COOKIE) + tx
}

/// One step of the CRC-32 of one bit.
pub open spec fn crc_bit(crc: u32) -> u32 {
    if crc & 1 == 1 {
        (crc >> 1u32) ^ 0xEDB8_8320u32
    } else {
        crc >> 1u32
    }
}

/// `n` steps of the CRC-32.
pub open spec fn crc_bits(crc: u32, n: nat) -> u32
    decreases n,
{
    if n == 0 {
        crc
    } else {
        crc_bit(crc_bits(crc, (n - 1) as nat))
    }
}

/// The register of the CRC-32 after some bytes.
pub open spec fn crc_register(data: Seq<u8>) -> u32
    decreases data.len(),
{
    if data.len() == 0 {
        0xFFFF_FFFF
    } else {
        crc_bits(crc_register(data.drop_last()) ^ (data.last() as u32), 8)
    }
}

/// The CRC-32 of some bytes (ITU-T V.42).
pub open spec fn crc32(data: Seq<u8>) -> u32 {
    crc_register(data) ^ 0xFFFF_FFFF
}

/// The attributes of a message after a code over them under `key` was added.
pub open spec fn with_integrity(
    t: u16,
    tx: Seq<u8>,
    attrs: Seq<(u16, Seq<u8>)>,
    key: Option<Seq<u8>>,
) -> Seq<(u16, Seq<u8>)> {
    match key {
        Some(k) => {
            let body = attrs_bytes(attrs);
            attrs.push(
                (
                    ATTR_MESSAGE_INTEGRITY,
                    crypto::hmac_sha1(k, header_bytes(t, body.len() + 24, tx) + body),
                ),
            )
        },
        None => attrs,
    }
}

/// The attributes of a message after a checksum over them was added.
pub open spec fn with_fingerprint(
    t: u16,
    tx: Seq<u8>,
    attrs: Seq<(u16, Seq<u8>)>,
    fingerprint: bool,
) -> Seq<(u16, Seq<u8>)> {
    if fingerprint {
        let body = attrs_bytes(attrs);
        attrs.push(
            (
                ATTR_FINGERPRINT,
                wire::enc32(
                    crc32(header_bytes(t, body.len() + 8, tx) + body) ^ 0x5354_554E,
                ),
            ),
        )
    } else {
        attrs
    }
}

/// A message.
#[derive(Debug, Clone, PartialEq, Eq)]
pub struct StunMessage {
    pub class: StunClass,
    pub method: StunMethod,
    pub transaction_id: [u8; 12],
    pub attributes: Vec<StunAttribute>,
}

/// The types and values of attributes in a message of the transaction `tx`.
pub open spec fn raw_attributes(attrs: Seq<StunAttribute>, tx: Seq<u8>) -> Seq<(u16, Seq<u8>)> {
    attrs.map_values(|a: StunAttribute| a.raw(tx))
}

/// All attributes that are sent: the given ones, the code under `key`, the checksum.
pub open spec fn sent(
    t: u16,
    tx: Seq<u8>,
    attrs: Seq<(u16, Seq<u8>)>,
    key: Option<Seq<u8>>,
    fingerprint: bool,
) -> Seq<(u16, Seq<u8>)> {
    with_fingerprint(t, tx, with_integrity(t, tx, attrs, key), fingerprint)
}

/// A message of type `t` with these attributes on the wire.
pub open spec fn message_bytes(
    t: u16,
    tx: Seq<u8>,
    attrs: Seq<(u16, Seq<u8>)>,
    key: Option<Seq<u8>>,
    fingerprint: bool,
) -> Seq<u8> {
    let body = attrs_bytes(sent(t, tx, attrs, key, fingerprint));
    header_bytes(t, body.len(), tx) + body
}

/// Whether the values of attributes fit their length fields.
pub open spec fn all_fit(attrs: Seq<(u16, Seq<u8>)>) -> bool {
    forall|i: int| 0 <= i < attrs.len() ==> (#[trigger] attrs[i]).1.len() < 0x1_0000
}

/// Whether the values of attributes and all of them together fit their length fields.
pub open spec fn message_fits(
    attrs: Seq<(u16, Seq<u8>)>,
    key: Option<Seq<u8>>,
    fingerprint: bool,
) -> bool {
    &&& all_fit(attrs)
    &&& attrs_bytes(attrs).len() + (if key is Some {
        24int
    } else {
        0
    }) + (if fingerprint {
        8int
    } else {
        0
    }) < 0x1_0000
}

impl StunMessage {
    /// The message type.
    pub open spec fn typ(self) -> u16 {
        message_type(self.class, self.method)
    }

    /// All attributes that are sent: those of the message, the code under `key`, the checksum.
    pub open spec fn sent_attributes(self, key: Option<Seq<u8>>, fingerprint: bool) -> Seq<
        (u16, Seq<u8>),
    > {
        let tx = self.transaction_id@;
        sent(self.typ(), tx, raw_attributes(self.attributes@, tx), key, fingerprint)
    }

    /// The message on the wire.
    pub open spec fn encoded(self, key: Option<Seq<u8>>, fingerprint: bool) -> Seq<u8> {
        let tx = self.transaction_id@;
        message_bytes(self.typ(), tx, raw_attributes(self.attributes@, tx), key, fingerprint)
    }

    /// Whether all values and all attributes together fit their length fields.
    pub open spec fn fits(self, key: Option<Seq<u8>>, fingerprint: bool) -> bool {
        message_fits(raw_attributes(self.attributes@, self.transaction_id@), key, fingerprint)
    }
}

fn class_bits(class: StunClass) -> (r: u16)
    ensures
        r == class.bits(),
{
    match class {
        StunClass::Request => 0,
        StunClass::Indication => 16,
        StunClass::SuccessResponse => 256,
        StunClass::ErrorResponse => 272,
    }
}

fn method_code(method: StunMethod) -> (r: u16)
    ensures
        r == method.code(),
        r < 16,
{
    match method {
        StunMethod::Binding => 1,
        StunMethod::Allocate => 3,
        StunMethod::Send => 6,
        StunMethod::Data => 7,
        StunMethod::CreatePermission => 8,
    }
}

fn put_u128(out: &mut Vec<u8>, x: u128)
    ensures
        final(out)@ == old(out)@ + enc128(x),
{
    wire::put_u64(out, (x / 0x1_0000_0000_0000_0000) as u64);
    wire::put_u64(out, (x % 0x1_0000_0000_0000_0000) as u64);
    assert(out@ =~= old(out)@ + enc128(x));
}

fn build_mask(tx: &[u8]) -> (r: Vec<u8>)
    ensures
        r@ == address_mask(tx@),
{
    let mut mask: Vec<u8> = Vec::new();
    wire::put_u32(&mut mask, MAGIC_COOKIE);
    wire::put_bytes(&mut mask, tx);
    assert(mask@ =~= address_mask(tx@));
    mask
}

fn apply_mask(s: &[u8], mask: &[u8]) -> (r: Vec<u8>)
    requires
        s@.len() <= mask@.len(),
    ensures
        r@ == masked(s@, mask@),
{
    let n: usize = s.len();
    let mut out: Vec<u8> = Vec::new();
    let mut i: usize = 0;
    while i < n
        invariant
            n == s@.len(),
            n <= mask@.len(),
            i <= n,
            out@ == masked(s@, mask@).subrange(0, i as int),
        decreases n - i,
    {
        out.push(s[i] ^ mask[i]);
        i += 1;
        assert(out@ =~= masked(s@, mask@).subrange(0, i as int));
    }
    assert(out@ =~= masked(s@, mask@));
    out
}

fn build_xor_address(a: SocketAddr, tx: &[u8]) -> (r: Vec<u8>)
    requires
        tx@.len() == 12,
    ensures
        r@ == xor_address_value(a, tx@),
{
    let mut out: Vec<u8> = Vec::new();
    out.push(0);
    match a.ip {
        IpAddr::V4(x) => {
            out.push(1);
            wire::put_u16(&mut out, a.port ^ 0x2112);
            wire::put_u32(&mut out, x ^ MAGIC_COOKIE);
        },
        IpAddr::V6(x) => {
            out.push(2);
            wire::put_u16(&mut out, a.port ^ 0x2112);
            let mut octets: Vec<u8> = Vec::new();
            put_u128(&mut octets, x);
            assert(octets@ =~= enc128(x));
            let mask = build_mask(tx);
            let hidden = apply_mask(octets.as_slice(), mask.as_slice());
            wire::put_bytes(&mut out, hidden.as_slice());
        },
    }
    assert(out@ =~= xor_address_value(a, tx@));
    out
}

fn parse_xor_address(v: &[u8], tx: &[u8]) -> (r: Option<SocketAddr>)
    requires
        tx@.len() == 12,
    ensures
        r == xor_address_parsed(v@, tx@),
{
    let n: usize = v.len();
    if n >= 8 && v[1] == 1 {
        Some(
            SocketAddr {
                ip: IpAddr::V4(wire::get_u32(v, 4) ^ MAGIC_COOKIE),
                port: wire::get_u16(v, 2) ^ 0x2112,
                scope_id: 0,
            },
        )
    } else if n >= 20 && v[1] == 2 {
        let hidden = wire::copy_range(v, 4, 20);
        let mask = build_mask(tx);
        let octets = apply_mask(hidden.as_slice(), mask.as_slice());
        let x: u128 = wire::get_u64(octets.as_slice(), 0) as u128 * 0x1_0000_0000_0000_0000
            + wire::get_u64(octets.as_slice(), 8) as u128;
        Some(SocketAddr { ip: IpAddr::V6(x), port: wire::get_u16(v, 2) ^ 0x2112, scope_id: 0 })
    } else {
        None
    }
}

impl StunAttribute {
    /// The type and the value of the attribute in a message of the transaction `tx`.
    fn to_raw(&self, tx: &[u8]) -> (r: (u16, Vec<u8>))
        requires
            tx@.len() == 12,
        ensures
            (r.0, r.1@) == self.raw(tx@),
    {
        let mut v: Vec<u8> = Vec::new();
        let t: u16 = match self {
            StunAttribute::Username(s) => {
                wire::put_bytes(&mut v, s.as_str().as_bytes());
                ATTR_USERNAME
            },
            StunAttribute::Priority(x) => {
                wire::put_u32(&mut v, *x);
                ATTR_PRIORITY
            },
            StunAttribute::IceControlling(x) => {
                wire::put_u64(&mut v, *x);
                ATTR_ICE_CONTROLLING
            },
            StunAttribute::IceControlled(x) => {
                wire::put_u64(&mut v, *x);
                ATTR_ICE_CONTROLLED
            },
            StunAttribute::UseCandidate => ATTR_USE_CANDIDATE,
            StunAttribute::Software(s) => {
                wire::put_bytes(&mut v, s.as_str().as_bytes());
                ATTR_SOFTWARE
            },
            StunAttribute::RequestedTransport(x) => {
                v.push(*x);
                v.push(0);
                v.push(0);
                v.push(0);
                ATTR_REQUESTED_TRANSPORT
            },
            StunAttribute::Lifetime(x) => {
                wire::put_u32(&mut v, *x);
                ATTR_LIFETIME
            },
            StunAttribute::Realm(s) => {
                wire::put_bytes(&mut v, s.as_str().as_bytes());
                ATTR_REALM
            },
            StunAttribute::Nonce(s) => {
                wire::put_bytes(&mut v, s.as_str().as_bytes());
                ATTR_NONCE
            },
            StunAttribute::XorMappedAddress(a) => {
                v = build_xor_address(*a, tx);
                ATTR_XOR_MAPPED_ADDRESS
            },
            StunAttribute::XorPeerAddress(a) => {
                v = build_xor_address(*a, tx);
                ATTR_XOR_PEER_ADDRESS
            },
            StunAttribute::Data(d) => {
                wire::put_bytes(&mut v, d.as_slice());
                ATTR_DATA
            },
        };
        assert(v@ =~= self.raw(tx@).1);
        (t, v)
    }
}

/// Appends an attribute.
fn put_attr(out: &mut Vec<u8>, t: u16, v: &[u8])
    ensures
        final(out)@ == old(out)@ + attr_bytes((t, v@)),
{
    let n: usize = v.len();
    wire::put_u16(out, t);
    wire::put_u16(out, (n % 0x1_0000) as u16);
    wire::put_bytes(out, v);
    wire::put_repeated(out, 0, (4 - n % 4) % 4);
    assert(out@ =~= old(out)@ + attr_bytes((t, v@)));
}

/// The header of a message and what follows it.
fn put_header(t: u16, len: usize, tx: &[u8], body: &[u8]) -> (out: Vec<u8>)
    ensures
        out@ == header_bytes(t, len as nat, tx@) + body@,
{
    let mut out: Vec<u8> = Vec::new();
    wire::put_u16(&mut out, t);
    wire::put_u16(&mut out, (len % 0x1_0000) as u16);
    wire::put_u32(&mut out, MAGIC_COOKIE);
    wire::put_bytes(&mut out, tx);
    assert(out@ =~= header_bytes(t, len as nat, tx@));
    wire::put_bytes(&mut out, body);
    out
}

/// Computes the CRC-32 of some bytes.
pub fn crc32_of(data: &[u8]) -> (r: u32)
    ensures
        r == crc32(data@),
{
    let n: usize = data.len();
    let mut crc: u32 = 0xFFFF_FFFF;
    let mut i: usize = 0;
    assert(data@.subrange(0, 0) =~= seq![]);
    while i < n
        invariant
            n == data@.len(),
            i <= n,
            crc == crc_register(data@.subrange(0, i as int)),
        decreases n - i,
    {
        let start: u32 = crc ^ (data[i] as u32);
        crc = start;
        let mut k: u8 = 0;
        while k < 8
            invariant
                k <= 8,
                crc == crc_bits(start, k as nat),
            decreases 8 - k,
        {
            if crc & 1 == 1 {
                crc = (crc >> 1u32) ^ 0xEDB8_8320u32;
            } else {
                crc = crc >> 1u32;
            }
            k += 1;
        }
        i += 1;
        let ghost head = data@.subrange(0, i as int);
        assert(head.drop_last() =~= data@.subrange(0, i - 1));
    }
    assert(data@.subrange(0, n as int) =~= data@);
    crc ^ 0xFFFF_FFFF
}

/// The bytes of an optional key.
pub open spec fn key_view(key: Option<&[u8]>) -> Option<Seq<u8>> {
    match key {
        Some(k) => Some(k@),
        None => None,
    }
}

impl StunMessage {
    /// A request for the address that the packet comes from.
    pub fn binding_request(transaction_id: [u8; 12], software: Option<&str>) -> (r: Self)
        ensures
            r.class == StunClass::Request,
            r.method == StunMethod::Binding,
            r.transaction_id == transaction_id,
            match software {
                Some(s) => r.attributes@.len() == 1 && (r.attributes@[0] matches StunAttribute::Software(x)
                    && x@ == s@),
                None => r.attributes@.len() == 0,
            },
    {
        let mut attributes: Vec<StunAttribute> = Vec::new();
        if let Some(s) = software {
            attributes.push(StunAttribute::Software(String::from_str(s)));
        }
        StunMessage {
            class: StunClass::Request,
            method: StunMethod::Binding,
            transaction_id,
            attributes,
        }
    }

    /// The answer to a binding request from `addr`.
    pub fn binding_success_response(transaction_id: [u8; 12], addr: SocketAddr) -> (r: Self)
        ensures
            r.class == StunClass::SuccessResponse,
            r.method == StunMethod::Binding,
            r.transaction_id == transaction_id,
            r.attributes@ == seq![StunAttribute::XorMappedAddress(addr)],
    {
        let mut attributes: Vec<StunAttribute> = Vec::new();
        attributes.push(StunAttribute::XorMappedAddress(addr));
        assert(attributes@ =~= seq![StunAttribute::XorMappedAddress(addr)]);
        StunMessage {
            class: StunClass::SuccessResponse,
            method: StunMethod::Binding,
            transaction_id,
            attributes,
        }
    }

    /// A request for a relayed address.
    pub fn allocate_request(transaction_id: [u8; 12], attributes: Vec<StunAttribute>) -> (r: Self)
        ensures
            r == (StunMessage {
                class: StunClass::Request,
                method: StunMethod::Allocate,
                transaction_id,
                attributes,
            }),
    {
        StunMessage {
            class: StunClass::Request,
            method: StunMethod::Allocate,
            transaction_id,
            attributes,
        }
    }

    /// Writes the message, with a code under `key` and a checksum where they are asked for. Who
    /// reads it learns its class, method and transaction and all attributes that were sent.
    pub fn encode(&self, key: Option<&[u8]>, fingerprint: bool) -> (r: Result<Vec<u8>, StunError>)
        ensures
            match r {
                Ok(out) => {
                    &&& self.fits(key_view(key), fingerprint)
                    &&& out@ == self.encoded(key_view(key), fingerprint)
                    &&& stun_decoded(out@) == Ok::<DecodedView, StunError>(
                        learned(
                            self.class,
                            self.method,
                            self.transaction_id@,
                            self.sent_attributes(key_view(key), fingerprint),
                        ),
                    )
                },
                Err(e) => !self.fits(key_view(key), fingerprint) && e == StunError::TooLong,
            },
    {
        let t: u16 = class_bits(self.class) + method_code(self.method);
        let tx: &[u8] = &self.transaction_id;
        let ghost raws = raw_attributes(self.attributes@, tx@);
        let mut body: Vec<u8> = match self.body(tx) {
            Some(body) => body,
            None => {
                return Err(StunError::TooLong);
            },
        };
        let mut extra: usize = 0;
        if key.is_some() {
            extra = extra + 24;
        }
        if fingerprint {
            extra = extra + 8;
        }
        if body.len() > 0xFFFF - extra {
            return Err(StunError::TooLong);
        }
        let ghost first = with_integrity(t, tx@, raws, key_view(key));
        if let Some(k) = key {
            add_integrity(t, tx, &mut body, k, Ghost(raws));
        }
        assert(body@ == attrs_bytes(first));
        if fingerprint {
            add_fingerprint(t, tx, &mut body, Ghost(first));
        }
        proof {
            let sent = with_fingerprint(t, tx@, first, fingerprint);
            assert forall|i: int| 0 <= i < sent.len() implies (#[trigger] sent[i]).1.len() < 0x1_0000 by {
                if i < raws.len() {
                    assert(sent[i] == raws[i]);
                }
            }
            lemma_decoded(self.class, self.method, tx@, sent);
        }
        Ok(put_header(t, body.len(), tx, body.as_slice()))
    }

    /// The attributes of the message on the wire, unless a value is too long.
    fn body(&self, tx: &[u8]) -> (r: Option<Vec<u8>>)
        requires
            tx@ == self.transaction_id@,
        ensures
            match r {
                Some(out) => all_fit(raw_attributes(self.attributes@, tx@)) && out@ == attrs_bytes(
                    raw_attributes(self.attributes@, tx@),
                ),
                None => !all_fit(raw_attributes(self.attributes@, tx@)),
            },
    {
        let ghost raws = raw_attributes(self.attributes@, tx@);
        let n: usize = self.attributes.len();
        let mut body: Vec<u8> = Vec::new();
        let mut i: usize = 0;
        assert(body@ =~= attrs_bytes(raws.subrange(0, 0)));
        while i < n
            invariant
                n == self.attributes@.len(),
                tx@ == self.transaction_id@,
                tx@.len() == 12,
                raws == raw_attributes(self.attributes@, tx@),
                i <= n,
                body@ == attrs_bytes(raws.subrange(0, i as int)),
                forall|k: int| 0 <= k < i ==> (#[trigger] raws[k]).1.len() < 0x1_0000,
            decreases n - i,
        {
            let (at, v) = self.attributes[i].to_raw(tx);
            if v.len() > 0xFFFF {
                assert(raws[i as int].1.len() >= 0x1_0000);
                return None;
            }
            put_attr(&mut body, at, v.as_slice());
            i += 1;
            let ghost head = raws.subrange(0, i as int);
            assert(head.drop_last() =~= raws.subrange(0, i - 1));
            assert(head.last() == (at, v@));
        }
        assert(raws.subrange(0, n as int) =~= raws);
        Some(body)
    }
}

/// Appends the code under `key` to the attributes of a message.
fn add_integrity(t: u16, tx: &[u8], body: &mut Vec<u8>, key: &[u8], Ghost(raws): Ghost<Seq<(u16, Seq<u8>)>>)
    requires
        old(body)@ == attrs_bytes(raws),
        old(body)@.len() < 0x1_0000,
    ensures
        final(body)@ == attrs_bytes(with_integrity(t, tx@, raws, Some(key@))),
        final(body)@.len() == old(body)@.len() + 24,
        with_integrity(t, tx@, raws, Some(key@)).last().1.len() == 20,
{
    let input = put_header(t, body.len() + 24, tx, body.as_slice());
    let mac = crypto::hmac_sha1_of(key, input.as_slice());
    put_attr(body, ATTR_MESSAGE_INTEGRITY, mac.as_slice());
    assert(with_integrity(t, tx@, raws, Some(key@)).drop_last() =~= raws);
}

/// Appends the checksum to the attributes of a message.
fn add_fingerprint(t: u16, tx: &[u8], body: &mut Vec<u8>, Ghost(raws): Ghost<Seq<(u16, Seq<u8>)>>)
    requires
        old(body)@ == attrs_bytes(raws),
        old(body)@.len() < 0x1_0000,
    ensures
        final(body)@ == attrs_bytes(with_fingerprint(t, tx@, raws, true)),
        final(body)@.len() == old(body)@.len() + 8,
{
    let input = put_header(t, body.len() + 8, tx, body.as_slice());
    let crc: u32 = crc32_of(input.as_slice()) ^ 0x5354_554E;
    let mut v: Vec<u8> = Vec::new();
    wire::put_u32(&mut v, crc);
    assert(v@ =~= wire::enc32(crc));
    put_attr(body, ATTR_FINGERPRINT, v.as_slice());
    assert(with_fingerprint(t, tx@, raws, true).drop_last() =~= raws);
}

/// The attributes in the body of a message, or none where one is not all there.
pub open spec fn attrs_parsed(s: Seq<u8>) -> Option<Seq<(u16, Seq<u8>)>>
    decreases s.len(),
{
    if s.len() == 0 {
        Some(seq![])
    } else if s.len() < 4 || s.len() < 4 + wire::be16(s, 2) {
        None
    } else {
        let end = 4 + wire::be16(s, 2);
        let padded = end + pad_len(end);
        let next = if padded < s.len() {
            padded
        } else {
            s.len() as int
        };
        match attrs_parsed(s.skip(next)) {
            Some(rest) => Some(seq![(wire::be16(s, 0), s.subrange(4, end))] + rest),
            None => None,
        }
    }
}

/// The value of the first attribute of type `t`.
pub open spec fn first_value(attrs: Seq<(u16, Seq<u8>)>, t: u16) -> Option<Seq<u8>>
    decreases attrs.len(),
{
    if attrs.len() == 0 {
        None
    } else if attrs[0].0 == t {
        Some(attrs[0].1)
    } else {
        first_value(attrs.drop_first(), t)
    }
}

/// The first attribute of its type is the one that counts.
pub proof fn lemma_first_value(attrs: Seq<(u16, Seq<u8>)>, t: u16, k: int)
    requires
        0 <= k < attrs.len(),
        attrs[k].0 == t,
        forall|i: int| 0 <= i < k ==> (#[trigger] attrs[i]).0 != t,
    ensures
        first_value(attrs, t) == Some(attrs[k].1),
    decreases k,
{
    if k > 0 {
        let rest = attrs.drop_first();
        assert(attrs[0].0 != t);
        assert forall|i: int| 0 <= i < k - 1 implies (#[trigger] rest[i]).0 != t by {
            assert(rest[i] == attrs[i + 1]);
        }
        lemma_first_value(rest, t, k - 1);
    }
}

/// What the receiver of a message learns from it.
#[derive(Debug, Clone, PartialEq, Eq)]
pub struct StunDecoded {
    pub class: StunClass,
    pub method: StunMethod,
    pub transaction_id: [u8; 12],
    pub xor_mapped_address: Option<SocketAddr>,
    pub xor_relayed_address: Option<SocketAddr>,
    pub xor_peer_address: Option<SocketAddr>,
    pub error_code: Option<u16>,
    pub realm: Option<String>,
    pub nonce: Option<String>,
    pub data: Option<Vec<u8>>,
}

/// What the receiver of a message learns from it.
#[verifier::ext_equal]
pub struct DecodedView {
    pub class: StunClass,
    pub method: StunMethod,
    pub transaction_id: Seq<u8>,
    pub xor_mapped_address: Option<SocketAddr>,
    pub xor_relayed_address: Option<SocketAddr>,
    pub xor_peer_address: Option<SocketAddr>,
    pub error_code: Option<u16>,
    pub realm: Option<Seq<char>>,
    pub nonce: Option<Seq<char>>,
    pub data: Option<Seq<u8>>,
}

/// The characters of an optional string.
pub open spec fn text_view(s: Option<String>) -> Option<Seq<char>> {
    match s {
        Some(x) => Some(x@),
        None => None,
    }
}

impl View for StunDecoded {
    type V = DecodedView;

    open spec fn view(&self) -> DecodedView {
        DecodedView {
            class: self.class,
            method: self.method,
            transaction_id: self.transaction_id@,
            xor_mapped_address: self.xor_mapped_address,
            xor_relayed_address: self.xor_relayed_address,
            xor_peer_address: self.xor_peer_address,
            error_code: self.error_code,
            realm: text_view(self.realm),
            nonce: text_view(self.nonce),
            data: crypto::bytes_of(self.data),
        }
    }
}

/// The address in the first attribute of type `t`.
pub open spec fn address_in(attrs: Seq<(u16, Seq<u8>)>, t: u16, tx: Seq<u8>) -> Option<SocketAddr> {
    match first_value(attrs, t) {
        Some(v) => xor_address_parsed(v, tx),
        None => None,
    }
}

/// The text in the first attribute of type `t`.
pub open spec fn text_in(attrs: Seq<(u16, Seq<u8>)>, t: u16) -> Option<Seq<char>> {
    match first_value(attrs, t) {
        Some(v) => Some(text::utf8_lossy(v)),
        None => None,
    }
}

/// The code in the value of an error attribute: a class of hundreds and a number.
pub open spec fn error_code_of(v: Seq<u8>) -> Option<u16> {
    if v.len() >= 4 {
        Some(((v[2] % 8) * 100 + v[3]) as u16)
    } else {
        None
    }
}

/// What the receiver learns from a message with these attributes.
pub open spec fn learned(
    class: StunClass,
    method: StunMethod,
    tx: Seq<u8>,
    attrs: Seq<(u16, Seq<u8>)>,
) -> DecodedView {
    DecodedView {
        class,
        method,
        transaction_id: tx,
        xor_mapped_address: address_in(attrs, ATTR_XOR_MAPPED_ADDRESS, tx),
        xor_relayed_address: address_in(attrs, ATTR_XOR_RELAYED_ADDRESS, tx),
        xor_peer_address: address_in(attrs, ATTR_XOR_PEER_ADDRESS, tx),
        error_code: match first_value(attrs, ATTR_ERROR_CODE) {
            Some(v) => error_code_of(v),
            None => None,
        },
        realm: text_in(attrs, ATTR_REALM),
        nonce: text_in(attrs, ATTR_NONCE),
        data: first_value(attrs, ATTR_DATA),
    }
}

/// What the receiver of a packet learns from it.
pub open spec fn stun_decoded(s: Seq<u8>) -> Result<DecodedView, StunError> {
    if s.len() < 20 {
        Err(StunError::Truncated)
    } else if s[0] >= 64 || wire::be32(s, 4) != MAGIC_COOKIE {
        Err(StunError::NotStun)
    } else if s.len() < 20 + wire::be16(s, 2) {
        Err(StunError::Truncated)
    } else {
        match StunMethod::of_code(StunMethod::code_of_type(wire::be16(s, 0))) {
            None => Err(StunError::UnknownMethod),
            Some(method) => match attrs_parsed(s.subrange(20, 20 + wire::be16(s, 2))) {
                None => Err(StunError::Truncated),
                Some(attrs) => Ok(
                    learned(
                        StunClass::of_type(wire::be16(s, 0)),
                        method,
                        s.subrange(8, 20),
                        attrs,
                    ),
                ),
            },
        }
    }
}

/// The first of some attributes is written first.
proof fn lemma_attrs_front(attrs: Seq<(u16, Seq<u8>)>)
    requires
        attrs.len() > 0,
    ensures
        attrs_bytes(attrs) == attr_bytes(attrs[0]) + attrs_bytes(attrs.drop_first()),
    decreases attrs.len(),
{
    if attrs.len() == 1 {
        assert(attrs.drop_last() =~= seq![]);
        assert(attrs.drop_first() =~= seq![]);
        assert(attrs_bytes(attrs.drop_last()) =~= seq![]);
        assert(attrs_bytes(attrs.drop_first()) =~= seq![]);
        assert(attrs_bytes(attrs) =~= attr_bytes(attrs[0]));
        assert(attr_bytes(attrs[0]) + attrs_bytes(attrs.drop_first()) =~= attr_bytes(attrs[0]));
    } else {
        let init = attrs.drop_last();
        lemma_attrs_front(init);
        assert(attrs.drop_first().drop_last() =~= init.drop_first());
        assert(attr_bytes(attrs[0]) + attrs_bytes(attrs.drop_first()) =~= attr_bytes(attrs[0])
            + attrs_bytes(init.drop_first()) + attr_bytes(attrs.last()));
    }
}

/// Where the parts of an attribute stand.
proof fn lemma_attr_parts(a: (u16, Seq<u8>), rest: Seq<u8>)
    requires
        a.1.len() < 0x1_0000,
    ensures
        ({
            let s = attr_bytes(a) + rest;
            let end = 4 + a.1.len() as int;
            &&& s.len() >= end + pad_len(end)
            &&& wire::be16(s, 0) == a.0
            &&& wire::be16(s, 2) == a.1.len()
            &&& s.subrange(4, end) == a.1
            &&& s.skip(end + pad_len(end)) == rest
        }),
{
    let s = attr_bytes(a) + rest;
    let end = 4 + a.1.len() as int;
    assert(s.subrange(0, 2) =~= wire::enc16(a.0));
    assert(s.subrange(2, 4) =~= wire::enc16(a.1.len() as u16));
    wire::lemma_be16_enc16(s, 0, a.0);
    wire::lemma_be16_enc16(s, 2, a.1.len() as u16);
    assert(s.subrange(4, end) =~= a.1);
    assert(s.skip(end + pad_len(end)) =~= rest);
}

/// Reading the first of some attributes.
proof fn lemma_parse_step(s: Seq<u8>, a: (u16, Seq<u8>), rest: Seq<u8>, more: Seq<(u16, Seq<u8>)>)
    requires
        s.len() >= 4 + a.1.len() + pad_len(4 + a.1.len() as int),
        wire::be16(s, 0) == a.0,
        wire::be16(s, 2) == a.1.len(),
        s.subrange(4, 4 + a.1.len() as int) == a.1,
        s.skip(4 + a.1.len() as int + pad_len(4 + a.1.len() as int)) == rest,
        attrs_parsed(rest) == Some(more),
    ensures
        attrs_parsed(s) == Some(seq![a] + more),
{
    let end = 4 + a.1.len() as int;
    let padded = end + pad_len(end);
    assert(padded <= s.len());
    assert(s.skip(padded) == rest);
}

/// Reading back the first of some attributes that were written.
proof fn lemma_parse_front(a: (u16, Seq<u8>), rest: Seq<u8>, more: Seq<(u16, Seq<u8>)>)
    requires
        a.1.len() < 0x1_0000,
        attrs_parsed(rest) == Some(more),
    ensures
        attrs_parsed(attr_bytes(a) + rest) == Some(seq![a] + more),
{
    lemma_attr_parts(a, rest);
    lemma_parse_step(attr_bytes(a) + rest, a, rest, more);
}

/// Attributes that were written are read back.
pub proof fn law_attributes_are_read_back(attrs: Seq<(u16, Seq<u8>)>)
    requires
        all_fit(attrs),
    ensures
        attrs_parsed(attrs_bytes(attrs)) == Some(attrs),
    decreases attrs.len(),
{
    if attrs.len() == 0 {
        assert(attrs =~= seq![]);
    } else {
        let rest = attrs.drop_first();
        assert forall|i: int| 0 <= i < rest.len() implies (#[trigger] rest[i]).1.len() < 0x1_0000 by {
            assert(rest[i] == attrs[i + 1]);
        }
        law_attributes_are_read_back(rest);
        lemma_attrs_front(attrs);
        lemma_parse_front(attrs[0], attrs_bytes(rest), rest);
        assert(seq![attrs[0]] + rest =~= attrs);
    }
}

proof fn lemma_message_type(class: StunClass, method: StunMethod)
    ensures
        message_type(class, method) < 0x4000,
        StunClass::of_type(message_type(class, method)) == class,
        StunMethod::of_code(StunMethod::code_of_type(message_type(class, method))) == Some(method),
{
}

/// Where the parts of a message stand.
proof fn lemma_header_parts(t: u16, tx: Seq<u8>, body: Seq<u8>)
    requires
        tx.len() == 12,
        t < 0x4000,
        body.len() < 0x1_0000,
    ensures
        ({
            let s = header_bytes(t, body.len(), tx) + body;
            &&& s.len() == 20 + body.len()
            &&& s[0] < 64
            &&& wire::be16(s, 0) == t
            &&& wire::be16(s, 2) == body.len()
            &&& wire::be32(s, 4) == MAGIC_COOKIE
            &&& s.subrange(8, 20) == tx
            &&& s.subrange(20, 20 + body.len() as int) == body
        }),
{
    let s = header_bytes(t, body.len(), tx) + body;
    assert(s.subrange(0, 2) =~= wire::enc16(t));
    assert(s.subrange(2, 4) =~= wire::enc16(body.len() as u16));
    assert(s.subrange(4, 8) =~= wire::enc32(MAGIC_COOKIE));
    assert(s.subrange(8, 20) =~= tx);
    assert(s.subrange(20, 20 + body.len() as int) =~= body);
    wire::lemma_be16_enc16(s, 0, t);
    wire::lemma_be16_enc16(s, 2, body.len() as u16);
    wire::lemma_be32_enc32(s, 4, MAGIC_COOKIE);
    assert(s[0] == s.subrange(0, 2)[0]);
}

/// Reading a message whose parts are known.
proof fn lemma_decode_step(
    s: Seq<u8>,
    class: StunClass,
    method: StunMethod,
    tx: Seq<u8>,
    body: Seq<u8>,
    attrs: Seq<(u16, Seq<u8>)>,
)
    requires
        s.len() == 20 + body.len(),
        s[0] < 64,
        StunClass::of_type(wire::be16(s, 0)) == class,
        StunMethod::of_code(StunMethod::code_of_type(wire::be16(s, 0))) == Some(method),
        wire::be16(s, 2) == body.len(),
        wire::be32(s, 4) == MAGIC_COOKIE,
        s.subrange(8, 20) == tx,
        s.subrange(20, 20 + body.len() as int) == body,
        attrs_parsed(body) == Some(attrs),
    ensures
        stun_decoded(s) == Ok::<DecodedView, StunError>(learned(class, method, tx, attrs)),
{
}

/// Reading back a header and the attributes after it.
proof fn lemma_decoded(
    class: StunClass,
    method: StunMethod,
    tx: Seq<u8>,
    attrs: Seq<(u16, Seq<u8>)>,
)
    requires
        tx.len() == 12,
        attrs_bytes(attrs).len() < 0x1_0000,
        all_fit(attrs),
    ensures
        stun_decoded(
            header_bytes(message_type(class, method), attrs_bytes(attrs).len(), tx) + attrs_bytes(
                attrs,
            ),
        ) == Ok::<DecodedView, StunError>(learned(class, method, tx, attrs)),
{
    let body = attrs_bytes(attrs);
    let t = message_type(class, method);
    law_attributes_are_read_back(attrs);
    lemma_message_type(class, method);
    lemma_header_parts(t, tx, body);
    lemma_decode_step(header_bytes(t, body.len(), tx) + body, class, method, tx, body, attrs);
}

proof fn lemma_unmasked(x: u32, y: u16, k: u32, m: u16)
    by (bit_vector)
    ensures
        (x ^ k) ^ k == x,
        (y ^ m) ^ m == y,
{
}

proof fn lemma_unmasked_byte(x: u8, k: u8)
    by (bit_vector)
    ensures
        (x ^ k) ^ k == x,
{
}

/// An address that was written in a transaction is read back in it, without its scope.
pub proof fn law_address_is_read_back(a: SocketAddr, tx: Seq<u8>)
    requires
        tx.len() == 12,
    ensures
        xor_address_parsed(xor_address_value(a, tx), tx) == Some(a.unscoped()),
{
    let v = xor_address_value(a, tx);
    assert(v.subrange(2, 4) =~= wire::enc16(a.port ^ 0x2112));
    wire::lemma_be16_enc16(v, 2, a.port ^ 0x2112);
    match a.ip {
        IpAddr::V4(x) => {
            lemma_unmasked(x, a.port, MAGIC_COOKIE, 0x2112);
            assert(v.subrange(4, 8) =~= wire::enc32(x ^ MAGIC_COOKIE));
            wire::lemma_be32_enc32(v, 4, x ^ MAGIC_COOKIE);
        },
        IpAddr::V6(x) => {
            lemma_unmasked(0, a.port, 0, 0x2112);
            let mask = address_mask(tx);
            let hidden = masked(enc128(x), mask);
            assert(v.subrange(4, 20) =~= hidden);
            let back = masked(hidden, mask);
            assert forall|i: int| 0 <= i < 16 implies #[trigger] back[i] == enc128(x)[i] by {
                lemma_unmasked_byte(enc128(x)[i], mask[i]);
            }
            assert(back =~= enc128(x));
            let hi = (x / 0x1_0000_0000_0000_0000) as u64;
            let lo = (x % 0x1_0000_0000_0000_0000) as u64;
            assert(back.subrange(0, 8) =~= wire::enc64(hi));
            assert(back.subrange(8, 16) =~= wire::enc64(lo));
            wire::lemma_be64_enc64(back, 0, hi);
            wire::lemma_be64_enc64(back, 8, lo);
        },
    }
}

/// The contents of a list of attributes.
pub open spec fn attr_views(attrs: Seq<(u16, Vec<u8>)>) -> Seq<(u16, Seq<u8>)> {
    attrs.map_values(|a: (u16, Vec<u8>)| (a.0, a.1@))
}

fn parse_attrs(s: &[u8]) -> (r: Option<Vec<(u16, Vec<u8>)>>)
    ensures
        match r {
            Some(attrs) => attrs_parsed(s@) == Some(attr_views(attrs@)),
            None => attrs_parsed(s@) is None,
        },
{
    let n: usize = s.len();
    let mut out: Vec<(u16, Vec<u8>)> = Vec::new();
    let mut at: usize = 0;
    proof {
        assert(s@.skip(0) =~= s@);
        if attrs_parsed(s@) is Some {
            assert(attr_views(out@) + attrs_parsed(s@)->0 =~= attrs_parsed(s@)->0);
        }
    }
    while at < n
        invariant
            n == s@.len(),
            at <= n,
            match attrs_parsed(s@.skip(at as int)) {
                Some(rest) => attrs_parsed(s@) == Some(attr_views(out@) + rest),
                None => attrs_parsed(s@) is None,
            },
        decreases n - at,
    {
        let ghost rest = s@.skip(at as int);
        if n - at < 4 {
            return None;
        }
        let t: u16 = wire::get_u16(s, at);
        let len: usize = wire::get_u16(s, at + 2) as usize;
        assert(wire::be16(rest, 0) == t);
        assert(wire::be16(rest, 2) == len);
        if n - at - 4 < len {
            return None;
        }
        let end: usize = 4 + len;
        let pad: usize = (4 - end % 4) % 4;
        let step: usize = if n - at - end > pad {
            end + pad
        } else {
            n - at
        };
        let value = wire::copy_range(s, at + 4, at + end);
        let ghost before = attr_views(out@);
        proof {
            assert(value@ =~= rest.subrange(4, end as int));
            assert(rest.skip(step as int) =~= s@.skip(at + step));
            assert(attr_views(out@.push((t, value))) =~= before.push((t, value@)));
            if let Some(more) = attrs_parsed(s@.skip(at + step)) {
                assert(before + (seq![(t, value@)] + more) =~= before.push((t, value@)) + more);
            }
        }
        out.push((t, value));
        at = at + step;
    }
    proof {
        let none = s@.skip(at as int);
        assert(none.len() == 0);
        assert(attr_views(out@) + seq![] =~= attr_views(out@));
    }
    Some(out)
}

fn find_value(attrs: &Vec<(u16, Vec<u8>)>, t: u16) -> (r: Option<&Vec<u8>>)
    ensures
        match r {
            Some(v) => first_value(attr_views(attrs@), t) == Some(v@),
            None => first_value(attr_views(attrs@), t) is None,
        },
{
    let n: usize = attrs.len();
    let ghost all = attr_views(attrs@);
    let mut i: usize = 0;
    assert(all.subrange(0, n as int) =~= all);
    while i < n
        invariant
            n == attrs@.len(),
            all == attr_views(attrs@),
            i <= n,
            first_value(all, t) == first_value(all.subrange(i as int, n as int), t),
        decreases n - i,
    {
        let ghost rest = all.subrange(i as int, n as int);
        assert(rest.drop_first() =~= all.subrange(i + 1, n as int));
        assert(rest[0] == (attrs@[i as int].0, attrs@[i as int].1@));
        if attrs[i].0 == t {
            return Some(&attrs[i].1);
        }
        i += 1;
    }
    None
}

fn find_address(attrs: &Vec<(u16, Vec<u8>)>, t: u16, tx: &[u8]) -> (r: Option<SocketAddr>)
    requires
        tx@.len() == 12,
    ensures
        r == address_in(attr_views(attrs@), t, tx@),
{
    match find_value(attrs, t) {
        Some(v) => parse_xor_address(v.as_slice(), tx),
        None => None,
    }
}

fn find_text(attrs: &Vec<(u16, Vec<u8>)>, t: u16) -> (r: Option<String>)
    ensures
        text_view(r) == text_in(attr_views(attrs@), t),
{
    match find_value(attrs, t) {
        Some(v) => Some(text::lossy_string(v.as_slice())),
        None => None,
    }
}

/// Twelve bytes as a transaction.
pub fn transaction_of(s: &[u8]) -> (r: [u8; 12])
    requires
        s@.len() == 12,
    ensures
        r@ == s@,
{
    let r = [s[0], s[1], s[2], s[3], s[4], s[5], s[6], s[7], s[8], s[9], s[10], s[11]];
    assert(r@ =~= s@);
    r
}

impl StunMessage {
    /// Reads a message.
    pub fn decode(buf: &[u8]) -> (r: Result<StunDecoded, StunError>)
        ensures
            match r {
                Ok(d) => stun_decoded(buf@) == Ok::<DecodedView, StunError>(d@),
                Err(e) => stun_decoded(buf@) == Err::<DecodedView, StunError>(e),
            },
    {
        let n: usize = buf.len();
        if n < 20 {
            return Err(StunError::Truncated);
        }
        if buf[0] >= 64 || wire::get_u32(buf, 4) != MAGIC_COOKIE {
            return Err(StunError::NotStun);
        }
        let len: usize = wire::get_u16(buf, 2) as usize;
        if n < 20 + len {
            return Err(StunError::Truncated);
        }
        let t: u16 = wire::get_u16(buf, 0);
        let code: u16 = t % 16 + ((t / 32) % 8) * 16 + ((t / 512) % 32) * 128;
        let method = if code == 1 {
            StunMethod::Binding
        } else if code == 3 {
            StunMethod::Allocate
        } else if code == 6 {
            StunMethod::Send
        } else if code == 7 {
            StunMethod::Data
        } else if code == 8 {
            StunMethod::CreatePermission
        } else {
            return Err(StunError::UnknownMethod);
        };
        let class = if (t / 256) % 2 == 0 {
            if (t / 16) % 2 == 0 {
                StunClass::Request
            } else {
                StunClass::Indication
            }
        } else if (t / 16) % 2 == 0 {
            StunClass::SuccessResponse
        } else {
            StunClass::ErrorResponse
        };
        let body = wire::copy_range(buf, 20, 20 + len);
        let attrs = match parse_attrs(body.as_slice()) {
            Some(attrs) => attrs,
            None => {
                return Err(StunError::Truncated);
            },
        };
        let tx = wire::copy_range(buf, 8, 20);
        let error_code: Option<u16> = match find_value(&attrs, ATTR_ERROR_CODE) {
            Some(v) => if v.len() >= 4 {
                Some((v[2] % 8) as u16 * 100 + v[3] as u16)
            } else {
                None
            },
            None => None,
        };
        let data = match find_value(&attrs, ATTR_DATA) {
            Some(v) => {
                let d = wire::copy_range(v.as_slice(), 0, v.len());
                assert(d@ =~= v@);
                Some(d)
            },
            None => None,
        };
        Ok(
            StunDecoded {
                class,
                method,
                transaction_id: transaction_of(tx.as_slice()),
                xor_mapped_address: find_address(&attrs, ATTR_XOR_MAPPED_ADDRESS, tx.as_slice()),
                xor_relayed_address: find_address(
                    &attrs,
                    ATTR_XOR_RELAYED_ADDRESS,
                    tx.as_slice(),
                ),
                xor_peer_address: find_address(&attrs, ATTR_XOR_PEER_ADDRESS, tx.as_slice()),
                error_code,
                realm: find_text(&attrs, ATTR_REALM),
                nonce: find_text(&attrs, ATTR_NONCE),
                data,
            },
        )
    }
}

/// A random transaction: twelve random bytes, as `transaction_of` takes them. Any transaction can
/// come, so nothing is promised of it.
pub fn random_transaction() -> [u8; 12] {
    let octets = crypto::random_bytes(12);
    transaction_of(octets.as_slice())
}

} // verus!
