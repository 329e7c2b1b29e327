//! How numbers, text and addresses are written.
use vstd::prelude::*;
use vstd::string::*;

use crate::text;
use crate::transports::dtls::certificate;
use crate::transports::ice::address;
use crate::transports::ice::address::IpAddr;
use crate::wire;

verus! {

/// The first byte of a number weighs most, whether the number is read or written.
pub proof fn law_first_byte_weighs_most(a: u8, b: u8, c: u8, d: u8)
    ensures
        wire::be16(seq![a, b], 0) == a * 256 + b,
        wire::be24(seq![a, b, c], 0) == (a * 256 + b) * 256 + c,
        wire::be32(seq![a, b, c, d], 0) == ((a * 256 + b) * 256 + c) * 256 + d,
        wire::enc16((a * 256 + b) as u16) == seq![a, b],
        wire::enc32((((a * 256 + b) * 256 + c) * 256 + d) as u32) == seq![a, b, c, d],
{
    let x = (((a * 256 + b) * 256 + c) * 256 + d) as u32;
    assert(x / 0x100_0000 == a);
    assert((x / 0x1_0000) % 256 == b);
    assert((x / 0x100) % 256 == c);
    assert(x % 256 == d);
}

/// The first half of a 64-bit number weighs most.
pub proof fn law_first_half_weighs_most(high: u32, low: u32)
    ensures
        wire::enc64((high * 0x1_0000_0000 + low) as u64) == wire::enc32(high) + wire::enc32(low),
        wire::be64(wire::enc32(high) + wire::enc32(low), 0) == high * 0x1_0000_0000 + low,
{
    let x = (high * 0x1_0000_0000 + low) as u64;
    let s = wire::enc32(high) + wire::enc32(low);
    assert(x / 0x1_0000_0000 == high);
    assert(x % 0x1_0000_0000 == low);
    assert(s.subrange(0, 4) =~= wire::enc32(high));
    assert(s.subrange(4, 8) =~= wire::enc32(low));
    wire::lemma_be32_enc32(s, 0, high);
    wire::lemma_be32_enc32(s, 4, low);
}

/// A further digit makes ten times the number and the digit, read or written; a number starts with
/// no zero but for zero itself.
pub proof fn law_decimal_digits(n: nat, d: nat, cs: Seq<char>)
    requires
        d < 10,
    ensures
        text::digits_value(cs.push((('0' as nat) + d) as char)) == text::digits_value(cs) * 10 + d,
        n > 0 ==> text::decimal(n * 10 + d) == text::decimal(n).push((('0' as nat) + d) as char),
        text::decimal(d) == seq![(('0' as nat) + d) as char],
        n > 0 ==> text::decimal(n)[0] != '0',
    decreases n,
{
    let c = (('0' as nat) + d) as char;
    assert(c == text::digit_char(d));
    assert(cs.push(c).drop_last() =~= cs);
    assert(cs.push(c).last() == c);
    if n > 0 {
        assert((n * 10 + d) / 10 == n && (n * 10 + d) % 10 == d);
        if n >= 10 {
            law_decimal_digits(n / 10, 0, cs);
            text::lemma_decimal(n / 10);
            assert(text::decimal(n)[0] == text::decimal(n / 10)[0]);
        } else {
            assert(text::decimal(n)[0] == text::digit_char(n));
        }
    }
}

/// A number is made of digits, with at most one sign before it, and is not above its bound.
pub proof fn law_numbers_in_text(cs: Seq<char>, i: int, n: nat, max: nat)
    ensures
        n <= max ==> text::parsed_number(text::decimal(n), max) == Some(n)
            && text::parsed_number(seq!['+'] + text::decimal(n), max) == Some(n),
        n > max ==> text::parsed_number(text::decimal(n), max) is None,
        0 < i < cs.len() && !('0' <= cs[i] <= '9') ==> text::parsed_number(cs, max) is None,
        cs.len() > 0 && cs[0] != '+' && !('0' <= cs[0] <= '9') ==> text::parsed_number(cs, max)
            is None,
        text::parsed_number(seq![], max) is None,
        text::parsed_number(seq!['+'], max) is None,
{
    text::lemma_decimal(n);
    let signed = seq!['+'] + text::decimal(n);
    assert(signed.subrange(1, signed.len() as int) =~= text::decimal(n));
    let ds = text::unsigned_digits(cs);
    if 0 < i < cs.len() && !('0' <= cs[i] <= '9') {
        if cs[0] == '+' {
            assert(ds[i - 1] == cs[i]);
        } else {
            assert(ds[i] == cs[i]);
        }
    }
    let bare = seq!['+'];
    assert(bare.subrange(1, 1).len() == 0);
    assert(text::unsigned_digits(bare).len() == 0);
}

/// Each byte is written as two hexadecimal digits in lower case, the high one first.
pub proof fn law_hexadecimal(bytes: Seq<u8>, i: int)
    requires
        0 <= i < bytes.len(),
    ensures
        text::hex(bytes).len() == 2 * bytes.len(),
        address::hex_value(text::hex(bytes)[2 * i]) == Some((bytes[i] / 16) as nat),
        address::hex_value(text::hex(bytes)[2 * i + 1]) == Some((bytes[i] % 16) as nat),
        !('A' <= text::hex(bytes)[2 * i] <= 'F'),
        !('A' <= text::hex(bytes)[2 * i + 1] <= 'F'),
    decreases bytes.len(),
{
    let head = bytes.drop_last();
    text::lemma_hex_len(bytes);
    text::lemma_hex_len(head);
    if i < head.len() {
        law_hexadecimal(head, i);
        assert(text::hex(bytes)[2 * i] == text::hex(head)[2 * i]);
        assert(text::hex(bytes)[2 * i + 1] == text::hex(head)[2 * i + 1]);
    } else {
        assert(text::hex(bytes)[2 * i] == text::hex_char((bytes[i] / 16) as nat));
        assert(text::hex(bytes)[2 * i + 1] == text::hex_char((bytes[i] % 16) as nat));
    }
}

/// The digits from 0 to 9 and the letters from a to f, of either case, are hexadecimal digits.
pub proof fn law_hexadecimal_digits(d: nat)
    requires
        d < 16,
    ensures
        d < 10 ==> address::hex_value((('0' as nat) + d) as char) == Some(d),
        d >= 10 ==> address::hex_value((('a' as nat) + d - 10) as char) == Some(d)
            && address::hex_value((('A' as nat) + d - 10) as char) == Some(d),
        address::hex_value('g') is None,
        address::hex_value('G') is None,
        address::hex_value(':') is None,
{
}

proof fn lemma_fingerprint_len(bytes: Seq<u8>)
    ensures
        certificate::colon_hex(bytes).len() == if bytes.len() == 0 {
            0
        } else {
            3 * bytes.len() - 1
        },
    decreases bytes.len(),
{
    if bytes.len() > 0 {
        lemma_fingerprint_len(bytes.drop_last());
    }
}

/// A fingerprint has two hexadecimal digits in upper case for each byte, the high one first, and a
/// colon between each two bytes.
pub proof fn law_fingerprint_text(bytes: Seq<u8>, i: int)
    requires
        0 <= i < bytes.len(),
    ensures
        ({
            let cs = certificate::colon_hex(bytes);
            &&& cs.len() == 3 * bytes.len() - 1
            &&& address::hex_value(cs[3 * i]) == Some((bytes[i] / 16) as nat)
            &&& address::hex_value(cs[3 * i + 1]) == Some((bytes[i] % 16) as nat)
            &&& !('a' <= cs[3 * i] <= 'f') && !('a' <= cs[3 * i + 1] <= 'f')
            &&& i + 1 < bytes.len() ==> cs[3 * i + 2] == ':'
        }),
    decreases bytes.len(),
{
    let head = bytes.drop_last();
    let cs = certificate::colon_hex(bytes);
    lemma_fingerprint_len(bytes);
    lemma_fingerprint_len(head);
    if i < head.len() {
        law_fingerprint_text(head, i);
        assert(cs[3 * i] == certificate::colon_hex(head)[3 * i]);
        assert(cs[3 * i + 1] == certificate::colon_hex(head)[3 * i + 1]);
        if i + 1 < head.len() {
            assert(cs[3 * i + 2] == certificate::colon_hex(head)[3 * i + 2]);
        } else {
            assert(cs[3 * i + 2] == ':');
        }
    } else {
        assert(cs[3 * i] == certificate::upper_hex_char((bytes[i] / 16) as nat));
        assert(cs[3 * i + 1] == certificate::upper_hex_char((bytes[i] % 16) as nat));
    }
}

/// Letters of ASCII lose their upper case, each at its place; all else stays.
pub proof fn law_lower_case(cs: Seq<char>, i: int, k: nat)
    requires
        0 <= i < cs.len(),
        k < 26,
    ensures
        text::lower(cs).len() == cs.len(),
        cs[i] == (('A' as nat) + k) as char ==> text::lower(cs)[i] == (('a' as nat) + k) as char,
        !('A' <= cs[i] <= 'Z') ==> text::lower(cs)[i] == cs[i],
        text::lower(text::lower(cs)) == text::lower(cs),
{
    assert(text::lower(text::lower(cs)) =~= text::lower(cs));
}

/// The first place of a character is one where it stands, and it does not stand before it.
pub proof fn law_first_place(cs: Seq<char>, from: int, c: char)
    requires
        0 <= from <= cs.len(),
    ensures
        ({
            let k = text::first_at(cs, from, c);
            &&& from <= k <= cs.len()
            &&& k < cs.len() ==> cs[k] == c
            &&& forall|i: int| from <= i < k ==> cs[i] != c
        }),
    decreases cs.len() - from,
{
    if from < cs.len() && cs[from] != c {
        law_first_place(cs, from + 1, c);
    }
}

/// The characters of Unicode that count as white space separate words, and no others.
pub proof fn law_space(c: char)
    ensures
        text::is_space(c) <==> (c == ' ' || c == '\t' || c == '\n' || c == '\r' || c == '\u{B}' || c
            == '\u{C}' || c == '\u{85}' || c == '\u{A0}' || c == '\u{1680}' || '\u{2000}' <= c
            <= '\u{200A}' || c == '\u{2028}' || c == '\u{2029}' || c == '\u{202F}' || c
            == '\u{205F}' || c == '\u{3000}'),
{
}

proof fn lemma_run(cs: Seq<char>, from: int, space: bool)
    requires
        0 <= from <= cs.len(),
    ensures
        ({
            let k = text::run_end(cs, from, space);
            &&& from <= k <= cs.len()
            &&& forall|i: int| from <= i < k ==> text::is_space(#[trigger] cs[i]) == space
            &&& k < cs.len() ==> text::is_space(cs[k]) != space
        }),
    decreases cs.len() - from,
{
    if from < cs.len() && text::is_space(cs[from]) == space {
        lemma_run(cs, from + 1, space);
    }
}

/// What stands between the space in text is split off whole: a word has no space in it and is not
/// empty, and text without space is one word.
pub proof fn law_words(cs: Seq<char>, i: int)
    requires
        0 <= i < text::words(cs).len(),
    ensures
        text::words(cs)[i].len() > 0,
        forall|j: int|
            0 <= j < text::words(cs)[i].len() ==> !text::is_space(#[trigger] text::words(cs)[i][j]),
    decreases cs.len(),
{
    let a = text::run_end(cs, 0, true);
    let b = text::run_end(cs, a, false);
    lemma_run(cs, 0, true);
    lemma_run(cs, a, false);
    let rest = cs.subrange(b, cs.len() as int);
    let ws = text::words(cs);
    assert(ws == seq![cs.subrange(a, b)] + text::words(rest));
    if i > 0 {
        law_words(rest, i - 1);
        assert(ws[i] == text::words(rest)[i - 1]);
    } else {
        assert(ws[0] == cs.subrange(a, b));
    }
}

/// A prefix is removed until the text does not start with it, and nothing else is.
pub proof fn law_without_prefix(cs: Seq<char>, prefix: Seq<char>)
    requires
        prefix.len() > 0,
    ensures
        !text::starts_with(text::without_prefix(cs, prefix), prefix),
        text::without_prefix(prefix + cs, prefix) == text::without_prefix(cs, prefix),
        !text::starts_with(cs, prefix) ==> text::without_prefix(cs, prefix) == cs,
    decreases cs.len(),
{
    let all = prefix + cs;
    assert(all.subrange(0, prefix.len() as int) =~= prefix);
    assert(all.subrange(prefix.len() as int, all.len() as int) =~= cs);
    if text::starts_with(cs, prefix) {
        law_without_prefix(cs.subrange(prefix.len() as int, cs.len() as int), prefix);
    }
}

/// An IPv4 address is written as its four octets in decimal, the one that weighs most first, with
/// dots between them, and so it is read.
pub proof fn law_dotted_octets(a: u8, b: u8, c: u8, d: u8)
    ensures
        ({
            let x = (((a * 256 + b) * 256 + c) * 256 + d) as u32;
            let cs = text::decimal(a as nat) + seq!['.'] + text::decimal(b as nat) + seq!['.']
                + text::decimal(c as nat) + seq!['.'] + text::decimal(d as nat);
            &&& IpAddr::V4(x).text() == cs
            &&& address::bare_parsed(cs) == Some(IpAddr::V4(x))
        }),
{
    let x = (((a * 256 + b) * 256 + c) * 256 + d) as u32;
    let cs = text::decimal(a as nat) + seq!['.'] + text::decimal(b as nat) + seq!['.']
        + text::decimal(c as nat) + seq!['.'] + text::decimal(d as nat);
    lemma_octets(a, b, c, d);
    address::law_v4_text(x);
    lemma_dotted(
        text::decimal(a as nat),
        text::decimal(b as nat),
        text::decimal(c as nat),
        text::decimal(d as nat),
    );
    assert(address::v4_text(x) == cs);
}

/// The octets of a number, the one that weighs most first.
proof fn lemma_octets(a: u8, b: u8, c: u8, d: u8)
    ensures
        ({
            let x = (((a * 256 + b) * 256 + c) * 256 + d) as u32;
            &&& address::octet(x, 0) == a
            &&& address::octet(x, 1) == b
            &&& address::octet(x, 2) == c
            &&& address::octet(x, 3) == d
        }),
{
    let x = (((a * 256 + b) * 256 + c) * 256 + d) as u32;
    assert(x / 0x100_0000 == a);
    assert((x / 0x1_0000) % 256 == b);
    assert((x / 0x100) % 256 == c);
    assert(x % 256 == d);
}

proof fn lemma_dotted(p: Seq<char>, q: Seq<char>, r: Seq<char>, s: Seq<char>)
    ensures
        p.push('.') + q.push('.') + r.push('.') + s == p + seq!['.'] + q + seq!['.'] + r
            + seq!['.'] + s,
{
    assert(p.push('.') =~= p + seq!['.']);
    assert(q.push('.') =~= q + seq!['.']);
    assert(r.push('.') =~= r + seq!['.']);
    assert(p + seq!['.'] + (q + seq!['.']) =~= p + seq!['.'] + q + seq!['.']);
    let h = p + seq!['.'] + q + seq!['.'];
    assert(h + (r + seq!['.']) =~= h + r + seq!['.']);
}

/// The addresses of this machine are 127.0.0.0 to 127.255.255.255 and ::1; those that stand for
/// none are all zero.
pub proof fn law_special_addresses(b: u8, c: u8, d: u8, x: u32, y: u128)
    ensures
        IpAddr::V4((((127 * 256 + b) * 256 + c) * 256 + d) as u32).loopback(),
        IpAddr::V4(x).loopback() ==> 0x7F00_0000 <= x <= 0x7FFF_FFFF,
        IpAddr::V6(y).loopback() <==> y == 1,
        IpAddr::V4(x).unspecified() <==> x == 0,
        IpAddr::V6(y).unspecified() <==> y == 0,
{
}

/// The groups of an IPv6 address weigh most on the left, sixteen bits each.
pub proof fn law_groups(gs: Seq<u16>, g: u16)
    ensures
        address::groups_value(gs.push(g)) == address::groups_value(gs) * 0x1_0000 + g,
        address::groups_value(seq![]) == 0,
{
    assert(gs.push(g).drop_last() =~= gs);
    assert(gs.push(g).last() == g);
}

/// An octet in text has no zero before it, at most three digits, and is at most 255.
pub proof fn law_octets_in_text(cs: Seq<char>, n: nat)
    ensures
        n <= 255 ==> address::octet_parsed(text::decimal(n)) == Some(n),
        n > 255 ==> address::octet_parsed(text::decimal(n)) is None,
        cs.len() > 1 && cs[0] == '0' ==> address::octet_parsed(cs) is None,
        cs.len() > 3 || cs.len() == 0 ==> address::octet_parsed(cs) is None,
        cs.len() > 0 && !('0' <= cs[0] <= '9') ==> address::octet_parsed(cs) is None,
{
    text::lemma_decimal(n);
    if cs.len() > 0 && !('0' <= cs[0] <= '9') {
        assert(!text::is_digit(cs[0]));
    }
    if n <= 255 {
        law_decimal_digits(n, 0, seq![]);
        reveal_with_fuel(text::decimal, 4);
    }
}

} // verus!
