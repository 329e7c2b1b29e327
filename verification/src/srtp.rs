//! SRTP: the protection of RTP packets (RFC 3711, RFC 7714), with the master key as session key.
use vstd::prelude::*;

use crate::crypto;
use crate::errors::{RtpError, SrtpError, SrtpErrorView, SrtpResult};
use crate::rtp::packet;
use crate::rtp::packet::PacketView;
use crate::rtp::RtpPacket;
use crate::wire;

verus! {

/// A cipher with an authentication transform.
#[derive(Debug, Clone, Copy, PartialEq, Eq, Default, Structural)]
pub enum SrtpProfile {
    Aes128Sha1_80,
    Aes128Sha1_32,
    AeadAes128Gcm,
    #[default]
    NullCipherHmac,
}

impl SrtpProfile {
    /// The length of the authentication tag.
    pub open spec fn tag_len_spec(&self) -> nat {
        match self {
            SrtpProfile::Aes128Sha1_80 => 10,
            SrtpProfile::NullCipherHmac => 10,
            SrtpProfile::Aes128Sha1_32 => 4,
            SrtpProfile::AeadAes128Gcm => 16,
        }
    }

    /// The least length of a master salt.
    pub open spec fn salt_len_spec(&self) -> nat {
        match self {
            SrtpProfile::AeadAes128Gcm => 12,
            _ => 14,
        }
    }

    /// The length of the authentication tag.
    pub fn tag_len(&self) -> (r: usize)
        ensures
            r == self.tag_len_spec(),
    {
        match self {
            SrtpProfile::Aes128Sha1_80 | SrtpProfile::NullCipherHmac => 10,
            SrtpProfile::Aes128Sha1_32 => 4,
            SrtpProfile::AeadAes128Gcm => 16,
        }
    }

    /// The least length of a master salt.
    pub fn salt_len(&self) -> (r: usize)
        ensures
            r == self.salt_len_spec(),
    {
        match self {
            SrtpProfile::AeadAes128Gcm => 12,
            _ => 14,
        }
    }

    /// The least length of a master key.
    pub fn key_len(&self) -> (r: usize)
        ensures
            r == 16,
    {
        16
    }
}

/// A master key with its salt.
#[derive(Debug, Clone)]
pub struct SrtpKeyingMaterial {
    pub master_key: Vec<u8>,
    pub master_salt: Vec<u8>,
}

impl SrtpKeyingMaterial {
    pub fn new(master_key: Vec<u8>, master_salt: Vec<u8>) -> (r: Self)
        ensures
            r.master_key@ == master_key@,
            r.master_salt@ == master_salt@,
    {
        SrtpKeyingMaterial { master_key, master_salt }
    }

    /// Whether the key and the salt are long enough for `profile`.
    pub open spec fn suits(&self, profile: SrtpProfile) -> bool {
        self.master_key@.len() >= 16 && self.master_salt@.len() >= profile.salt_len_spec()
    }
}

#[derive(Debug, Clone, Copy, PartialEq, Eq, Structural)]
pub enum SrtpDirection {
    Sender,
    Receiver,
}

/// What a context holds: the keys, and the packet index as a rollover counter with the last
/// sequence number.
#[verifier::ext_equal]
pub struct SrtpView {
    pub ssrc: u32,
    pub profile: SrtpProfile,
    pub cipher_key: Seq<u8>,
    pub auth_key: Seq<u8>,
    pub salt: Seq<u8>,
    pub direction: SrtpDirection,
    pub rollover_counter: u32,
    pub last_sequence: Option<u16>,
}

impl SrtpView {
    /// Whether the keys and the salt are long enough for the profile.
    pub open spec fn wf(self) -> bool {
        &&& self.cipher_key.len() >= 16
        &&& self.auth_key.len() >= 16
        &&& self.salt.len() >= self.profile.salt_len_spec()
    }

    /// The context after a packet with this sequence number: a sequence number below the last
    /// one counts as a rollover.
    pub open spec fn after(self, sequence: u16) -> SrtpView {
        SrtpView {
            rollover_counter: if self.last_sequence is Some && sequence < self.last_sequence->0
                && self.rollover_counter < u32::MAX {
                (self.rollover_counter + 1) as u32
            } else {
                self.rollover_counter
            },
            last_sequence: Some(sequence),
            ..self
        }
    }

    /// Whether both contexts transform packets alike.
    pub open spec fn agrees_with(self, other: SrtpView) -> bool {
        &&& self.ssrc == other.ssrc
        &&& self.profile == other.profile
        &&& self.cipher_key == other.cipher_key
        &&& self.auth_key == other.auth_key
        &&& self.salt == other.salt
        &&& self.rollover_counter == other.rollover_counter
    }

    /// The block that counter mode starts from: the salt, combined with the source and the
    /// packet index.
    pub open spec fn iv(self, sequence: u16) -> Seq<u8> {
        let block = wire::repeated(0, 4) + wire::enc32(self.ssrc) + wire::enc64(
            (self.rollover_counter * 0x1_0000 + sequence) as u64,
        );
        Seq::new(
            16,
            |i: int|
                (if i < 14 && i < self.salt.len() {
                    self.salt[i]
                } else {
                    0u8
                }) ^ block[i],
        )
    }

    /// The nonce of Galois/counter mode: the salt, combined with the source and the packet
    /// index.
    pub open spec fn gcm_nonce(self, sequence: u16) -> Seq<u8> {
        let block = wire::repeated(0, 2) + wire::enc32(self.ssrc) + wire::enc32(
            self.rollover_counter,
        ) + wire::enc16(sequence);
        Seq::new(12, |i: int| self.salt[i] ^ block[i])
    }

    /// The payload that the cipher makes of the payload of `p`.
    pub open spec fn ciphered(self, p: PacketView) -> Seq<u8> {
        match self.profile {
            SrtpProfile::Aes128Sha1_80 | SrtpProfile::Aes128Sha1_32 => Seq::new(
                p.payload.len(),
                |i: int|
                    p.payload[i] ^ crypto::ctr_keystream(
                        self.cipher_key.subrange(0, 16),
                        self.iv(p.header.sequence_number),
                        i as nat,
                    ),
            ),
            _ => p.payload,
        }
    }

    /// The authentication tag of `data`: the leading bytes of the code of the data and the
    /// rollover counter.
    pub open spec fn tag(self, data: Seq<u8>) -> Seq<u8> {
        crypto::hmac_sha1(self.auth_key, data + wire::enc32(self.rollover_counter)).subrange(
            0,
            self.profile.tag_len_spec() as int,
        )
    }
}

/// What a transform makes of a packet: its result, and the packet it leaves.
pub struct Outcome {
    pub result: Result<(), SrtpErrorView>,
    pub packet: PacketView,
}

/// The packet `p` with another payload.
pub open spec fn with_payload(p: PacketView, payload: Seq<u8>) -> PacketView {
    PacketView { payload, ..p }
}

/// Whether `p` can be protected: its header can be written and, under the profile that seals
/// packets, the key has its length and neither header nor payload is longer than 2^36 bytes.
pub open spec fn protectable(c: SrtpView, p: PacketView) -> bool {
    &&& packet::header_error(p.header) is None
    &&& c.profile == SrtpProfile::AeadAes128Gcm ==> c.cipher_key.len() == 16 && crypto::gcm_fits(
        packet::rtp_bytes(with_payload(p, seq![])),
        p.payload,
    )
}

/// What protecting `p` makes of it. `c` is the context after the sequence number of `p`.
pub open spec fn protect_outcome(c: SrtpView, p: PacketView) -> Outcome {
    if c.profile == SrtpProfile::AeadAes128Gcm {
        let bare = with_payload(p, seq![]);
        if c.cipher_key.len() != 16 {
            Outcome { result: Err(SrtpErrorView::UnsupportedProfile), packet: p }
        } else {
            match packet::rtp_marshaled(bare) {
                Err(e) => Outcome { result: Err(SrtpErrorView::Internal(e.text())), packet: bare },
                Ok(aad) => match crypto::gcm_sealed(
                    c.cipher_key,
                    c.gcm_nonce(p.header.sequence_number),
                    aad,
                    p.payload,
                ) {
                    Some(sealed) => Outcome { result: Ok(()), packet: with_payload(p, sealed) },
                    None => Outcome {
                        result: Err(SrtpErrorView::AuthenticationFailed),
                        packet: p,
                    },
                },
            }
        }
    } else {
        let q = with_payload(p, c.ciphered(p));
        match packet::rtp_marshaled(q) {
            Err(e) => Outcome { result: Err(SrtpErrorView::Internal(e.text())), packet: q },
            Ok(data) => Outcome {
                result: Ok(()),
                packet: with_payload(q, q.payload + c.tag(data)),
            },
        }
    }
}

/// What removing the protection of `p` makes of it. `c` is the context before the packet.
pub open spec fn unprotect_outcome(c: SrtpView, p: PacketView) -> Outcome {
    let tag_len = c.profile.tag_len_spec() as int;
    if p.payload.len() < tag_len {
        Outcome { result: Err(SrtpErrorView::PacketTooShort), packet: p }
    } else if c.profile == SrtpProfile::AeadAes128Gcm {
        let bare = with_payload(p, seq![]);
        if c.cipher_key.len() != 16 {
            Outcome { result: Err(SrtpErrorView::UnsupportedProfile), packet: p }
        } else {
            match packet::rtp_marshaled(bare) {
                Err(e) => Outcome { result: Err(SrtpErrorView::Internal(e.text())), packet: bare },
                Ok(aad) => match crypto::gcm_opened(
                    c.cipher_key,
                    c.gcm_nonce(p.header.sequence_number),
                    aad,
                    p.payload,
                ) {
                    Some(plain) => Outcome { result: Ok(()), packet: with_payload(p, plain) },
                    None => Outcome {
                        result: Err(SrtpErrorView::AuthenticationFailed),
                        packet: p,
                    },
                },
            }
        }
    } else {
        let split = p.payload.len() - tag_len;
        let q = with_payload(p, p.payload.subrange(0, split));
        match packet::rtp_marshaled(q) {
            Err(e) => Outcome { result: Err(SrtpErrorView::Internal(e.text())), packet: q },
            Ok(data) => if p.payload.subrange(split, p.payload.len() as int) != c.tag(data) {
                Outcome { result: Err(SrtpErrorView::AuthenticationFailed), packet: q }
            } else {
                Outcome { result: Ok(()), packet: with_payload(q, c.ciphered(q)) }
            },
        }
    }
}

/// Whether an executed transform has the result that `s` says.
pub open spec fn results_in(r: SrtpResult<()>, s: Result<(), SrtpErrorView>) -> bool {
    match r {
        Ok(_) => s is Ok,
        Err(e) => s == Err::<(), SrtpErrorView>(e@),
    }
}

/// One direction of a protected stream.
#[derive(Debug, Clone)]
pub struct SrtpContext {
    ssrc: u32,
    profile: SrtpProfile,
    cipher_key: Vec<u8>,
    auth_key: Vec<u8>,
    salt: Vec<u8>,
    direction: SrtpDirection,
    rollover_counter: u32,
    last_sequence: Option<u16>,
}

impl View for SrtpContext {
    type V = SrtpView;

    closed spec fn view(&self) -> SrtpView {
        SrtpView {
            ssrc: self.ssrc,
            profile: self.profile,
            cipher_key: self.cipher_key@,
            auth_key: self.auth_key@,
            salt: self.salt@,
            direction: self.direction,
            rollover_counter: self.rollover_counter,
            last_sequence: self.last_sequence,
        }
    }
}

/// What a new context holds.
pub open spec fn new_context(
    ssrc: u32,
    profile: SrtpProfile,
    keying: SrtpKeyingMaterial,
    direction: SrtpDirection,
) -> SrtpView {
    SrtpView {
        ssrc,
        profile,
        cipher_key: keying.master_key@,
        auth_key: keying.master_key@,
        salt: keying.master_salt@,
        direction,
        rollover_counter: 0,
        last_sequence: None,
    }
}

proof fn lemma_xor_twice(x: u8, k: u8)
    by (bit_vector)
    ensures
        (x ^ k) ^ k == x,
{
}

proof fn lemma_xor_zero(x: u8, k: u8)
    by (bit_vector)
    requires
        x ^ k == 0,
    ensures
        x == k,
{
}

proof fn lemma_or_zero(x: u8, y: u8)
    by (bit_vector)
    ensures
        x | y == 0 <==> x == 0 && y == 0,
        x ^ x == 0,
{
}

/// Compares all bytes, whether or not an earlier one differs.
pub fn constant_time_eq(a: &[u8], b: &[u8]) -> (r: bool)
    ensures
        r == (a@ == b@),
{
    let n: usize = a.len();
    if n != b.len() {
        return false;
    }
    let mut diff: u8 = 0;
    let mut i: usize = 0;
    while i < n
        invariant
            n == a@.len(),
            n == b@.len(),
            i <= n,
            diff == 0 <==> (forall|k: int| 0 <= k < i ==> a@[k] == b@[k]),
        decreases n - i,
    {
        let x: u8 = a[i];
        let y: u8 = b[i];
        let ghost before = diff;
        diff = diff | (x ^ y);
        proof {
            lemma_or_zero(before, x ^ y);
            lemma_or_zero(x, y);
            if x ^ y == 0 {
                lemma_xor_zero(x, y);
            }
            assert(a@[i as int] == x && b@[i as int] == y);
        }
        i += 1;
    }
    assert(diff == 0 ==> a@ =~= b@);
    diff == 0
}

proof fn lemma_ciphered_twice(c: SrtpView, p: PacketView)
    ensures
        c.ciphered(with_payload(p, c.ciphered(p))) == p.payload,
{
    let q = with_payload(p, c.ciphered(p));
    assert forall|i: int| 0 <= i < p.payload.len() implies c.ciphered(q)[i] == p.payload[i] by {
        lemma_xor_twice(
            p.payload[i],
            crypto::ctr_keystream(
                c.cipher_key.subrange(0, 16),
                c.iv(p.header.sequence_number),
                i as nat,
            ),
        );
    }
    assert(c.ciphered(q) =~= p.payload);
}

proof fn lemma_unprotects(c: SrtpView, rx: SrtpView, p: PacketView, data: Seq<u8>)
    requires
        c.profile != SrtpProfile::AeadAes128Gcm,
        rx.agrees_with(c),
        packet::rtp_marshaled(with_payload(p, c.ciphered(p))) == Ok::<Seq<u8>, RtpError>(data),
        c.tag(data).len() == c.profile.tag_len_spec(),
    ensures
        unprotect_outcome(rx, protect_outcome(c, p).packet) == (Outcome {
            result: Ok(()),
            packet: p,
        }),
{
    let q = with_payload(p, c.ciphered(p));
    let sent = with_payload(q, q.payload + c.tag(data));
    let split = sent.payload.len() - c.profile.tag_len_spec();
    assert(sent.payload.subrange(0, split) =~= q.payload);
    assert(sent.payload.subrange(split, sent.payload.len() as int) =~= c.tag(data));
    assert(with_payload(sent, q.payload) == q);
    assert(rx.tag(data) == c.tag(data));
    lemma_ciphered_twice(c, p);
    assert(rx.iv(p.header.sequence_number) =~= c.iv(p.header.sequence_number));
    assert(rx.ciphered(q) =~= c.ciphered(q));
    assert(with_payload(q, p.payload) == p);
}

impl SrtpContext {
    /// A context for the keying material. It is refused where the key or the salt is too short
    /// for the profile.
    pub fn new(
        ssrc: u32,
        profile: SrtpProfile,
        keying: SrtpKeyingMaterial,
        direction: SrtpDirection,
    ) -> (r: SrtpResult<Self>)
        ensures
            r is Ok <==> keying.suits(profile),
            r matches Ok(c) ==> c@ == new_context(ssrc, profile, keying, direction) && c@.wf(),
            r matches Err(e) ==> e@ == SrtpErrorView::UnsupportedProfile,
    {
        if keying.master_key.len() < profile.key_len() || keying.master_salt.len()
            < profile.salt_len() {
            return Err(SrtpError::UnsupportedProfile);
        }
        let cipher_key = wire::copy_range(
            keying.master_key.as_slice(),
            0,
            keying.master_key.len(),
        );
        assert(cipher_key@ =~= keying.master_key@);
        Ok(
            SrtpContext {
                ssrc,
                profile,
                cipher_key,
                auth_key: keying.master_key,
                salt: keying.master_salt,
                direction,
                rollover_counter: 0,
                last_sequence: None,
            },
        )
    }

    /// Encrypts the payload and appends the authentication tag to it. What was protected, a
    /// context that agrees with this one afterwards turns back into the packet it was.
    pub fn protect(&mut self, packet: &mut RtpPacket) -> (r: SrtpResult<()>)
        requires
            old(self)@.wf(),
        ensures
            final(self)@ == old(self)@.after(old(packet)@.header.sequence_number),
            final(self)@.wf(),
            final(packet)@ == protect_outcome(final(self)@, old(packet)@).packet,
            results_in(r, protect_outcome(final(self)@, old(packet)@).result),
            r is Ok <==> protectable(old(self)@, old(packet)@),
            r is Ok ==> final(packet)@.payload.len() == old(packet)@.payload.len() + old(self)@.profile.tag_len_spec(),
            r is Ok ==> forall|rx: SrtpView|
                rx.agrees_with(final(self)@) ==> #[trigger] unprotect_outcome(rx, final(packet)@)
                    == (Outcome { result: Ok(()), packet: old(packet)@ }),
    {
        let ghost p = packet@;
        self.update_rollover(packet.header.sequence_number);
        let ghost c = self@;
        if self.profile == SrtpProfile::AeadAes128Gcm {
            let nonce = self.build_gcm_nonce(packet.header.sequence_number);
            if self.cipher_key.len() != 16 {
                return Err(SrtpError::UnsupportedProfile);
            }
            let mut payload: Vec<u8> = Vec::new();
            std::mem::swap(&mut payload, &mut packet.payload);
            assert(packet@ == with_payload(p, seq![]));
            let aad = match packet.marshal() {
                Ok(aad) => aad,
                Err(e) => {
                    return Err(SrtpError::from_rtp(e));
                },
            };
            let sealed = crypto::aes128_gcm_seal(
                self.cipher_key.as_slice(),
                nonce.as_slice(),
                aad.as_slice(),
                payload.as_slice(),
            );
            match sealed {
                Some(sealed) => {
                    packet.payload = sealed;
                    proof {
                        assert forall|rx: SrtpView| rx.agrees_with(c) implies #[trigger]
                            unprotect_outcome(rx, packet@) == (Outcome {
                            result: Ok(()),
                            packet: p,
                        }) by {
                            assert(rx.gcm_nonce(p.header.sequence_number) =~= nonce@);
                            assert(with_payload(packet@, seq![]) == with_payload(p, seq![]));
                            assert(with_payload(packet@, p.payload) == p);
                        }
                    }
                    Ok(())
                },
                None => {
                    packet.payload = payload;
                    Err(SrtpError::AuthenticationFailed)
                },
            }
        } else {
            self.cipher_payload(packet);
            let auth_input = match packet.marshal() {
                Ok(auth_input) => auth_input,
                Err(e) => {
                    return Err(SrtpError::from_rtp(e));
                },
            };
            let tag = self.auth_tag(auth_input.as_slice());
            wire::put_bytes(&mut packet.payload, tag.as_slice());
            proof {
                assert forall|rx: SrtpView| rx.agrees_with(c) implies #[trigger] unprotect_outcome(
                    rx,
                    packet@,
                ) == (Outcome { result: Ok(()), packet: p }) by {
                    lemma_unprotects(c, rx, p, auth_input@);
                }
            }
            Ok(())
        }
    }

    /// Checks the authentication tag, removes it and decrypts the payload.
    pub fn unprotect(&mut self, packet: &mut RtpPacket) -> (r: SrtpResult<()>)
        requires
            old(self)@.wf(),
        ensures
            final(self)@.wf(),
            final(packet)@ == unprotect_outcome(old(self)@, old(packet)@).packet,
            results_in(r, unprotect_outcome(old(self)@, old(packet)@).result),
            r is Ok ==> final(self)@ == old(self)@.after(old(packet)@.header.sequence_number),
            r is Err ==> final(self)@ == old(self)@,
            r is Ok ==> final(packet)@.payload.len() + old(self)@.profile.tag_len_spec() == old(packet)@.payload.len(),
    {
        let ghost p = packet@;
        let ghost c = self@;
        let tag_len: usize = self.profile.tag_len();
        if packet.payload.len() < tag_len {
            return Err(SrtpError::PacketTooShort);
        }
        if self.profile == SrtpProfile::AeadAes128Gcm {
            let nonce = self.build_gcm_nonce(packet.header.sequence_number);
            if self.cipher_key.len() != 16 {
                return Err(SrtpError::UnsupportedProfile);
            }
            let mut payload: Vec<u8> = Vec::new();
            std::mem::swap(&mut payload, &mut packet.payload);
            assert(packet@ == with_payload(p, seq![]));
            let aad = match packet.marshal() {
                Ok(aad) => aad,
                Err(e) => {
                    return Err(SrtpError::from_rtp(e));
                },
            };
            let opened = crypto::aes128_gcm_open(
                self.cipher_key.as_slice(),
                nonce.as_slice(),
                aad.as_slice(),
                payload.as_slice(),
            );
            match opened {
                Some(plain) => {
                    packet.payload = plain;
                    self.update_rollover(packet.header.sequence_number);
                    Ok(())
                },
                None => {
                    packet.payload = payload;
                    Err(SrtpError::AuthenticationFailed)
                },
            }
        } else {
            let split: usize = packet.payload.len() - tag_len;
            let tag = wire::copy_range(packet.payload.as_slice(), split, packet.payload.len());
            packet.payload.truncate(split);
            assert(packet@ == with_payload(p, p.payload.subrange(0, split as int)));
            let auth_input = match packet.marshal() {
                Ok(auth_input) => auth_input,
                Err(e) => {
                    return Err(SrtpError::from_rtp(e));
                },
            };
            let expected = self.auth_tag(auth_input.as_slice());
            if !constant_time_eq(tag.as_slice(), expected.as_slice()) {
                return Err(SrtpError::AuthenticationFailed);
            }
            self.cipher_payload(packet);
            self.update_rollover(packet.header.sequence_number);
            Ok(())
        }
    }

    fn cipher_payload(&self, packet: &mut RtpPacket)
        requires
            self@.wf(),
        ensures
            final(packet)@ == with_payload(old(packet)@, self@.ciphered(old(packet)@)),
    {
        match self.profile {
            SrtpProfile::Aes128Sha1_80 | SrtpProfile::Aes128Sha1_32 => {
                if packet.payload.len() == 0 {
                    assert(self@.ciphered(packet@) =~= packet@.payload);
                    return ;
                }
                let iv = self.build_iv(packet.header.sequence_number);
                let key = wire::copy_range(self.cipher_key.as_slice(), 0, 16);
                packet.payload = crypto::aes128_ctr(
                    key.as_slice(),
                    iv.as_slice(),
                    packet.payload.as_slice(),
                );
            },
            _ => {},
        }
    }

    fn auth_tag(&self, data: &[u8]) -> (tag: Vec<u8>)
        ensures
            tag@ == self@.tag(data@),
            tag@.len() == self@.profile.tag_len_spec(),
    {
        let mut input = wire::copy_range(data, 0, data.len());
        wire::put_u32(&mut input, self.rollover_counter);
        assert(input@ =~= data@ + wire::enc32(self.rollover_counter));
        let mac = crypto::hmac_sha1_of(self.auth_key.as_slice(), input.as_slice());
        wire::copy_range(mac.as_slice(), 0, self.profile.tag_len())
    }

    fn build_gcm_nonce(&self, sequence: u16) -> (nonce: Vec<u8>)
        requires
            self@.wf(),
        ensures
            nonce@ == self@.gcm_nonce(sequence),
            nonce@.len() == 12,
    {
        let mut block: Vec<u8> = Vec::new();
        wire::put_repeated(&mut block, 0, 2);
        wire::put_u32(&mut block, self.ssrc);
        wire::put_u32(&mut block, self.rollover_counter);
        wire::put_u16(&mut block, sequence);
        let mut nonce: Vec<u8> = Vec::new();
        let mut i: usize = 0;
        while i < 12
            invariant
                self@.wf(),
                block@ == wire::repeated(0, 2) + wire::enc32(self.ssrc) + wire::enc32(
                    self.rollover_counter,
                ) + wire::enc16(sequence),
                i <= 12,
                nonce@ == self@.gcm_nonce(sequence).subrange(0, i as int),
            decreases 12 - i,
        {
            nonce.push(self.salt[i] ^ block[i]);
            i += 1;
            assert(nonce@ =~= self@.gcm_nonce(sequence).subrange(0, i as int));
        }
        assert(nonce@ =~= self@.gcm_nonce(sequence));
        nonce
    }

    fn build_iv(&self, sequence: u16) -> (iv: Vec<u8>)
        ensures
            iv@ == self@.iv(sequence),
            iv@.len() == 16,
    {
        let index: u64 = self.rollover_counter as u64 * 0x1_0000 + sequence as u64;
        let mut block: Vec<u8> = Vec::new();
        wire::put_repeated(&mut block, 0, 4);
        wire::put_u32(&mut block, self.ssrc);
        wire::put_u64(&mut block, index);
        let mut iv: Vec<u8> = Vec::new();
        let mut i: usize = 0;
        while i < 16
            invariant
                index == self.rollover_counter * 0x1_0000 + sequence,
                block@ == wire::repeated(0, 4) + wire::enc32(self.ssrc) + wire::enc64(index),
                i <= 16,
                iv@ == self@.iv(sequence).subrange(0, i as int),
            decreases 16 - i,
        {
            let salt: u8 = if i < 14 && i < self.salt.len() {
                self.salt[i]
            } else {
                0
            };
            iv.push(salt ^ block[i]);
            i += 1;
            assert(iv@ =~= self@.iv(sequence).subrange(0, i as int));
        }
        assert(iv@ =~= self@.iv(sequence));
        iv
    }

    fn update_rollover(&mut self, sequence: u16)
        ensures
            final(self)@ == old(self)@.after(sequence),
    {
        if let Some(last) = self.last_sequence {
            if sequence < last {
                self.rollover_counter = self.rollover_counter.saturating_add(1);
            }
        }
        self.last_sequence = Some(sequence);
    }

    pub fn ssrc(&self) -> (r: u32)
        ensures
            r == self@.ssrc,
    {
        self.ssrc
    }

    pub fn direction(&self) -> (r: SrtpDirection)
        ensures
            r == self@.direction,
    {
        self.direction
    }
}

/// The two directions of a protected stream, under the same keys.
pub struct SrtpSession {
    tx: SrtpContext,
    rx: SrtpContext,
}

impl SrtpSession {
    /// What the sending direction holds.
    pub closed spec fn sending(&self) -> SrtpView {
        self.tx@
    }

    /// What the receiving direction holds.
    pub closed spec fn receiving(&self) -> SrtpView {
        self.rx@
    }

    /// Whether both directions can transform packets, and agree but for their packet indexes.
    pub open spec fn wf(&self) -> bool {
        &&& self.sending().wf()
        &&& self.receiving().wf()
        &&& self.receiving().agrees_with(
            SrtpView { rollover_counter: self.receiving().rollover_counter, ..self.sending() },
        )
    }

    pub fn new(ssrc: u32, profile: SrtpProfile, keying: SrtpKeyingMaterial) -> (r: Result<
        Self,
        SrtpError,
    >)
        ensures
            r is Ok <==> keying.suits(profile),
            r matches Ok(s) ==> s.wf() && s.sending() == new_context(
                ssrc,
                profile,
                keying,
                SrtpDirection::Sender,
            ) && s.receiving() == new_context(ssrc, profile, keying, SrtpDirection::Receiver),
            r matches Err(e) ==> e@ == SrtpErrorView::UnsupportedProfile,
    {
        let copy = SrtpKeyingMaterial {
            master_key: wire::copy_range(keying.master_key.as_slice(), 0, keying.master_key.len()),
            master_salt: wire::copy_range(
                keying.master_salt.as_slice(),
                0,
                keying.master_salt.len(),
            ),
        };
        assert(copy.master_key@ =~= keying.master_key@);
        assert(copy.master_salt@ =~= keying.master_salt@);
        let tx = SrtpContext::new(ssrc, profile, copy, SrtpDirection::Sender)?;
        let rx = SrtpContext::new(ssrc, profile, keying, SrtpDirection::Receiver)?;
        Ok(SrtpSession { tx, rx })
    }

    /// Protects a packet to send. The session turns it back into the packet it was, unless the
    /// packet counted as a rollover that the receiving direction has not seen.
    pub fn protect_rtp(&mut self, packet: &mut RtpPacket) -> (r: SrtpResult<()>)
        requires
            old(self).wf(),
        ensures
            final(self).wf(),
            final(self).sending() == old(self).sending().after(
                old(packet)@.header.sequence_number,
            ),
            final(self).receiving() == old(self).receiving(),
            final(packet)@ == protect_outcome(final(self).sending(), old(packet)@).packet,
            results_in(r, protect_outcome(final(self).sending(), old(packet)@).result),
            final(packet)@.header == old(packet)@.header,
            r is Ok <==> protectable(old(self).sending(), old(packet)@),
            r is Ok ==> final(packet)@.payload.len() == old(packet)@.payload.len() + old(
                self,
            ).sending().profile.tag_len_spec(),
            r is Ok && final(self).receiving().rollover_counter == final(self).sending().rollover_counter ==> unprotect_outcome(
                final(self).receiving(),
                final(packet)@,
            ) == (Outcome { result: Ok(()), packet: old(packet)@ }),
    {
        self.tx.protect(packet)
    }

    /// Removes the protection of a received packet.
    pub fn unprotect_rtp(&mut self, packet: &mut RtpPacket) -> (r: SrtpResult<()>)
        requires
            old(self).wf(),
        ensures
            final(self).wf(),
            final(self).sending() == old(self).sending(),
            final(packet)@ == unprotect_outcome(old(self).receiving(), old(packet)@).packet,
            results_in(r, unprotect_outcome(old(self).receiving(), old(packet)@).result),
            r is Ok ==> final(self).receiving() == old(self).receiving().after(
                old(packet)@.header.sequence_number,
            ),
            r is Err ==> final(self).receiving() == old(self).receiving(),
    {
        self.rx.unprotect(packet)
    }
}

/// A packet that is too short to hold a tag is refused under every profile, and one that is not
/// authentic is refused whatever its payload: under the hash based profiles, one that does not
/// end with the tag of what comes before it; under the other, one that cannot be opened.
pub proof fn law_forgeries_are_refused(c: SrtpView, p: PacketView)
    ensures
        p.payload.len() < c.profile.tag_len_spec() ==> unprotect_outcome(c, p).result == Err::<
            (),
            SrtpErrorView,
        >(SrtpErrorView::PacketTooShort),
        c.profile != SrtpProfile::AeadAes128Gcm && unprotect_outcome(c, p).result is Ok ==> {
            let split = p.payload.len() - c.profile.tag_len_spec();
            &&& split >= 0
            &&& packet::rtp_marshaled(with_payload(p, p.payload.subrange(0, split))) matches Ok(
                data,
            ) && p.payload.subrange(split, p.payload.len() as int) == c.tag(data)
        },
        c.profile == SrtpProfile::AeadAes128Gcm && unprotect_outcome(c, p).result is Ok ==> {
            &&& packet::rtp_marshaled(with_payload(p, seq![])) matches Ok(aad)
                && crypto::gcm_opened(
                c.cipher_key,
                c.gcm_nonce(p.header.sequence_number),
                aad,
                p.payload,
            ) is Some
        },
{
}

/// The rollover counter never decreases, and packets in ascending order leave it as it is.
pub proof fn law_rollover(c: SrtpView, sequence: u16)
    ensures
        c.after(sequence).rollover_counter >= c.rollover_counter,
        c.last_sequence is None || c.last_sequence->0 <= sequence ==> c.after(
            sequence,
        ).rollover_counter == c.rollover_counter,
        c.after(sequence).last_sequence == Some(sequence),
{
}

} // verus!
