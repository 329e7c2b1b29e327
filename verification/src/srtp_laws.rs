//! What sets the packets of a protected stream apart, and what protection is made of.
use vstd::prelude::*;

use crate::crypto;
use crate::errors::SrtpErrorView;
use crate::rtp::packet;
use crate::rtp::packet::PacketView;
use crate::srtp;
use crate::srtp::{SrtpDirection, SrtpKeyingMaterial, SrtpProfile, SrtpView};
use crate::wire;

verus! {

/// The index of a packet: how often the sequence numbers rolled over, and the sequence number.
pub open spec fn index_of(c: SrtpView, sequence: u16) -> int {
    c.rollover_counter * 0x1_0000 + sequence
}

/// The first fourteen bytes of the salt, as far as it has them, and zeros.
pub open spec fn salt_block(c: SrtpView) -> Seq<u8> {
    Seq::new(
        16,
        |i: int|
            if i < 14 && i < c.salt.len() {
                c.salt[i]
            } else {
                0u8
            },
    )
}

/// Two blocks combined, bit by bit.
pub open spec fn combined(a: Seq<u8>, b: Seq<u8>) -> Seq<u8> {
    Seq::new(a.len(), |i: int| a[i] ^ b[i])
}

proof fn lemma_back(x: u8, k: u8)
    by (bit_vector)
    ensures
        (k ^ x) ^ k == x,
{
}

/// The counter block, with the salt taken out, holds four zeros, the source and the index of the
/// packet.
pub proof fn law_counter_block(c: SrtpView, sequence: u16)
    ensures
        ({
            let block = combined(c.iv(sequence), salt_block(c));
            &&& c.iv(sequence).len() == 16
            &&& wire::be32(block, 0) == 0
            &&& wire::be32(block, 4) == c.ssrc
            &&& wire::be64(block, 8) == index_of(c, sequence)
        }),
{
    let index = index_of(c, sequence) as u64;
    let plain = wire::repeated(0, 4) + wire::enc32(c.ssrc) + wire::enc64(index);
    let iv = c.iv(sequence);
    let salt = salt_block(c);
    let block = combined(iv, salt);
    assert forall|i: int| 0 <= i < 16 implies block[i] == plain[i] by {
        lemma_back(plain[i], salt[i]);
        assert(iv[i] == salt[i] ^ plain[i]);
    }
    assert(block =~= plain);
    assert(block.subrange(0, 4) =~= wire::enc32(0));
    wire::lemma_be32_enc32(block, 0, 0);
    assert(block.subrange(4, 8) =~= wire::enc32(c.ssrc));
    wire::lemma_be32_enc32(block, 4, c.ssrc);
    assert(block.subrange(8, 16) =~= wire::enc64(index));
    wire::lemma_be64_enc64(block, 8, index);
}

/// No two packets under one salt share a counter block: it tells their sources and their indexes
/// apart.
pub proof fn law_counter_blocks_differ(a: SrtpView, b: SrtpView, x: u16, y: u16)
    requires
        a.salt == b.salt,
        a.ssrc != b.ssrc || index_of(a, x) != index_of(b, y),
    ensures
        a.iv(x) != b.iv(y),
{
    law_counter_block(a, x);
    law_counter_block(b, y);
    assert(salt_block(a) =~= salt_block(b));
}

/// The nonce of a sealed packet, with the salt taken out, holds two zeros, the source, the
/// rollover counter and the sequence number.
pub proof fn law_nonce(c: SrtpView, sequence: u16)
    requires
        c.salt.len() >= 12,
    ensures
        ({
            let block = combined(c.gcm_nonce(sequence), c.salt);
            &&& c.gcm_nonce(sequence).len() == 12
            &&& wire::be16(block, 0) == 0
            &&& wire::be32(block, 2) == c.ssrc
            &&& wire::be32(block, 6) == c.rollover_counter
            &&& wire::be16(block, 10) == sequence
        }),
{
    let plain = wire::repeated(0, 2) + wire::enc32(c.ssrc) + wire::enc32(c.rollover_counter)
        + wire::enc16(sequence);
    let nonce = c.gcm_nonce(sequence);
    let block = combined(nonce, c.salt);
    assert forall|i: int| 0 <= i < 12 implies block[i] == plain[i] by {
        lemma_back(plain[i], c.salt[i]);
        assert(nonce[i] == c.salt[i] ^ plain[i]);
    }
    assert(block =~= plain);
    assert(block.subrange(0, 2) =~= wire::enc16(0));
    wire::lemma_be16_enc16(block, 0, 0);
    assert(block.subrange(2, 6) =~= wire::enc32(c.ssrc));
    wire::lemma_be32_enc32(block, 2, c.ssrc);
    assert(block.subrange(6, 10) =~= wire::enc32(c.rollover_counter));
    wire::lemma_be32_enc32(block, 6, c.rollover_counter);
    assert(block.subrange(10, 12) =~= wire::enc16(sequence));
    wire::lemma_be16_enc16(block, 10, sequence);
}

/// No two packets under one salt share a nonce.
pub proof fn law_nonces_differ(a: SrtpView, b: SrtpView, x: u16, y: u16)
    requires
        a.salt == b.salt,
        a.salt.len() >= 12,
        a.ssrc != b.ssrc || index_of(a, x) != index_of(b, y),
    ensures
        a.gcm_nonce(x) != b.gcm_nonce(y),
{
    law_nonce(a, x);
    law_nonce(b, y);
}

/// Under the profiles that cipher packets, every byte of the payload is combined with the byte of
/// the key stream at its place, from the counter block of the packet and the first sixteen bytes
/// of the key. The header stays as it is.
pub proof fn law_payload_is_ciphered(c: SrtpView, p: PacketView, i: int)
    requires
        c.profile == SrtpProfile::Aes128Sha1_80 || c.profile == SrtpProfile::Aes128Sha1_32,
        srtp::protect_outcome(c, p).result is Ok,
        0 <= i < p.payload.len(),
    ensures
        ({
            let q = srtp::protect_outcome(c, p).packet;
            &&& q == (PacketView { payload: q.payload, ..p })
            &&& q.payload[i] ^ p.payload[i] == crypto::ctr_keystream(
                c.cipher_key.subrange(0, 16),
                c.iv(p.header.sequence_number),
                i as nat,
            )
        }),
{
    let q = srtp::protect_outcome(c, p).packet;
    let key = crypto::ctr_keystream(
        c.cipher_key.subrange(0, 16),
        c.iv(p.header.sequence_number),
        i as nat,
    );
    assert(q.payload[i] == c.ciphered(p)[i]);
    lemma_back(key, p.payload[i]);
}

/// Under the profiles with a hash, a packet ends with the first bytes of the code of all that
/// comes before and of the rollover counter: four under the short profile, ten under the others.
/// Without a cipher, the payload before that stays as it is.
pub proof fn law_packets_are_tagged(c: SrtpView, p: PacketView)
    requires
        c.profile != SrtpProfile::AeadAes128Gcm,
        srtp::protect_outcome(c, p).result is Ok,
        forall|data: Seq<u8>| (#[trigger] crypto::hmac_sha1(c.auth_key, data)).len() == 20,
    ensures
        ({
            let q = srtp::protect_outcome(c, p).packet;
            let n = p.payload.len() as int;
            let tag_len: int = if c.profile == SrtpProfile::Aes128Sha1_32 {
                4
            } else {
                10
            };
            let before = PacketView { payload: q.payload.subrange(0, n), ..p };
            &&& q.payload.len() == n + tag_len
            &&& q.payload.subrange(n, n + tag_len) == crypto::hmac_sha1(
                c.auth_key,
                packet::rtp_bytes(before) + wire::enc32(c.rollover_counter),
            ).subrange(0, tag_len)
            &&& c.profile == SrtpProfile::NullCipherHmac ==> before == p
        }),
{
    let q = srtp::protect_outcome(c, p).packet;
    let n = p.payload.len() as int;
    let body = c.ciphered(p);
    let before = PacketView { payload: body, ..p };
    assert(body.len() == n);
    assert(q.payload.subrange(0, n) =~= body);
    assert(q.payload.subrange(n, q.payload.len() as int) =~= c.tag(packet::rtp_bytes(before)));
}

/// Under the profile that seals packets, the payload is what the cipher makes of it with the key,
/// the nonce of the packet, and its header as what is authenticated beside it.
pub proof fn law_packets_are_sealed(c: SrtpView, p: PacketView)
    requires
        c.profile == SrtpProfile::AeadAes128Gcm,
        srtp::protect_outcome(c, p).result is Ok,
    ensures
        ({
            let q = srtp::protect_outcome(c, p).packet;
            &&& q == (PacketView { payload: q.payload, ..p })
            &&& Some(q.payload) == crypto::gcm_sealed(
                c.cipher_key,
                c.gcm_nonce(p.header.sequence_number),
                packet::rtp_bytes(PacketView { payload: seq![], ..p }),
                p.payload,
            )
        }),
{
}

/// The lengths that the profiles ask for and add.
pub proof fn law_profile_lengths()
    ensures
        SrtpProfile::Aes128Sha1_80.tag_len_spec() == 10,
        SrtpProfile::Aes128Sha1_32.tag_len_spec() == 4,
        SrtpProfile::NullCipherHmac.tag_len_spec() == 10,
        SrtpProfile::AeadAes128Gcm.tag_len_spec() == 16,
        SrtpProfile::Aes128Sha1_80.salt_len_spec() == 14,
        SrtpProfile::Aes128Sha1_32.salt_len_spec() == 14,
        SrtpProfile::NullCipherHmac.salt_len_spec() == 14,
        SrtpProfile::AeadAes128Gcm.salt_len_spec() == 12,
{
}

/// Two ends that are made with the same source, profile and keys agree from the first packet on,
/// under the master key and salt; the sender's and the receiver's context differ in nothing else.
pub proof fn law_ends_agree(ssrc: u32, profile: SrtpProfile, keying: SrtpKeyingMaterial)
    ensures
        ({
            let tx = srtp::new_context(ssrc, profile, keying, SrtpDirection::Sender);
            let rx = srtp::new_context(ssrc, profile, keying, SrtpDirection::Receiver);
            &&& tx.agrees_with(rx)
            &&& rx == (SrtpView { direction: rx.direction, ..tx })
            &&& tx.ssrc == ssrc
            &&& tx.profile == profile
            &&& tx.cipher_key == keying.master_key@
            &&& tx.auth_key == keying.master_key@
            &&& tx.salt == keying.master_salt@
            &&& index_of(tx, 0) == 0
            &&& tx.last_sequence is None
        }),
{
}

/// The index of a packet that follows another: where the sequence number falls, the counter has
/// rolled over, up to its largest value; otherwise it has not. So the indexes of packets that are
/// sent with ascending numbers, modulo 2^16, ascend.
pub proof fn law_index_ascends(c: SrtpView, first: u16, second: u16)
    requires
        first != second,
        c.after(first).rollover_counter < u32::MAX,
    ensures
        ({
            let a = c.after(first);
            let b = a.after(second);
            &&& index_of(b, second) > index_of(a, first)
            &&& index_of(b, second) - index_of(a, first) == (second - first) % 0x1_0000
            &&& b == (SrtpView {
                rollover_counter: b.rollover_counter,
                last_sequence: Some(second),
                ..c
            })
        }),
{
}

/// At its largest value the rollover counter stays.
pub proof fn law_rollover_ends(c: SrtpView, sequence: u16)
    requires
        c.rollover_counter == u32::MAX,
    ensures
        c.after(sequence).rollover_counter == u32::MAX,
{
}

/// A payload without room for its tag is too short, and one with a wrong tag is not authentic.
pub proof fn law_refusals(c: SrtpView, p: PacketView)
    requires
        c.profile != SrtpProfile::AeadAes128Gcm,
        packet::header_error(p.header) is None,
    ensures
        ({
            let tag_len: int = if c.profile == SrtpProfile::Aes128Sha1_32 {
                4
            } else {
                10
            };
            let n = p.payload.len() - tag_len;
            let r = srtp::unprotect_outcome(c, p).result;
            let before = PacketView { payload: p.payload.subrange(0, n), ..p };
            let code = crypto::hmac_sha1(
                c.auth_key,
                packet::rtp_bytes(before) + wire::enc32(c.rollover_counter),
            );
            &&& n < 0 <==> r == Err::<(), SrtpErrorView>(SrtpErrorView::PacketTooShort)
            &&& n >= 0 && p.payload.subrange(n, p.payload.len() as int) == code.subrange(
                0,
                tag_len,
            ) <==> r is Ok
            &&& n >= 0 && r is Err ==> r == Err::<(), SrtpErrorView>(
                SrtpErrorView::AuthenticationFailed,
            )
        }),
{
}

/// Under the profile that seals packets, a key of another length is not supported, a payload
/// without room for its tag is too short, one that cannot be opened is not authentic, and any other
/// is what it opens to.
pub proof fn law_sealed_packets_are_opened(c: SrtpView, p: PacketView)
    requires
        c.profile == SrtpProfile::AeadAes128Gcm,
        packet::header_error(p.header) is None,
    ensures
        ({
            let o = srtp::unprotect_outcome(c, p);
            let plain = crypto::gcm_opened(
                c.cipher_key,
                c.gcm_nonce(p.header.sequence_number),
                packet::rtp_bytes(PacketView { payload: seq![], ..p }),
                p.payload,
            );
            &&& p.payload.len() < 16 ==> o.result == Err::<(), SrtpErrorView>(
                SrtpErrorView::PacketTooShort,
            )
            &&& p.payload.len() >= 16 && c.cipher_key.len() != 16 ==> o.result == Err::<
                (),
                SrtpErrorView,
            >(SrtpErrorView::UnsupportedProfile)
            &&& p.payload.len() >= 16 && c.cipher_key.len() == 16 && plain is None ==> o.result
                == Err::<(), SrtpErrorView>(SrtpErrorView::AuthenticationFailed)
            &&& p.payload.len() >= 16 && c.cipher_key.len() == 16 && plain is Some ==> o.result
                is Ok && o.packet == (PacketView { payload: plain->0, ..p })
            &&& o.result is Err ==> o.packet == p
            &&& c.cipher_key.len() != 16 ==> srtp::protect_outcome(c, p).result == Err::<
                (),
                SrtpErrorView,
            >(SrtpErrorView::UnsupportedProfile)
        }),
{
}

} // verus!
