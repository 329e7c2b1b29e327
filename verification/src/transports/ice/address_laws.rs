//! What is read of the text of an address.
use vstd::prelude::*;
use vstd::string::*;

use crate::encoding_laws;
use crate::text;
use crate::transports::ice::address;
use crate::transports::ice::address::{IpAddr, SocketAddr};

verus! {

proof fn lemma_hex_number(n: nat)
    ensures
        address::hex_parsed(address::hex_number(n)) == Some(n),
        address::hex_number(n).len() > 0,
        forall|i: int|
            0 <= i < address::hex_number(n).len() ==> address::hex_value(
                #[trigger] address::hex_number(n)[i],
            ) is Some,
    decreases n,
{
    let w = address::hex_number(n);
    if n < 16 {
        assert(w.drop_last() =~= seq![]);
        assert(address::hex_parsed(w.drop_last()) == Some(0nat));
        assert(address::hex_value(w[0]) == Some(n));
    } else {
        let head = address::hex_number(n / 16);
        lemma_hex_number(n / 16);
        assert(w.drop_last() =~= head);
        assert(address::hex_value(w.last()) == Some(n % 16));
        assert forall|i: int| 0 <= i < w.len() implies address::hex_value(
            #[trigger] w[i],
        ) is Some by {
            if i < head.len() {
                assert(w[i] == head[i]);
            }
        }
    }
}

/// A group is read back from its digits.
proof fn lemma_group(g: u16)
    ensures
        address::group_parsed(address::hex_number(g as nat)) == Some(g),
        forall|i: int|
            0 <= i < address::hex_number(g as nat).len() ==> address::hex_value(
                #[trigger] address::hex_number(g as nat)[i],
            ) is Some,
        address::hex_number(g as nat).len() > 0,
{
    let n = g as nat;
    lemma_hex_number(n);
    reveal_with_fuel(address::hex_number, 5);
    assert(n / 16 / 16 / 16 < 16);
    assert(address::hex_number(n).len() <= 4);
}

proof fn lemma_group_text_front(gs: Seq<u16>)
    requires
        gs.len() >= 2,
    ensures
        address::group_text(gs) == address::hex_number(gs[0] as nat).push(':')
            + address::group_text(gs.drop_first()),
    decreases gs.len(),
{
    let init = gs.drop_last();
    let tail = gs.drop_first();
    let last = address::hex_number(gs.last() as nat);
    let first = address::hex_number(gs[0] as nat);
    if gs.len() == 2 {
        assert(init =~= seq![gs[0]]);
        assert(tail =~= seq![gs[1]]);
        assert(address::group_text(init) == first);
        assert(address::group_text(tail) == last);
        assert(address::group_text(gs) =~= first.push(':') + address::group_text(tail));
    } else {
        lemma_group_text_front(init);
        assert(init.drop_first() =~= tail.drop_last());
        assert(tail.last() == gs.last());
        let middle = address::group_text(tail.drop_last());
        assert(address::group_text(tail) == middle.push(':') + last);
        assert(address::group_text(gs) == (first.push(':') + middle).push(':') + last);
        assert((first.push(':') + middle).push(':') + last =~= first.push(':') + (middle.push(':')
            + last));
    }
}

proof fn lemma_first_none(cs: Seq<char>, from: int, c: char)
    requires
        0 <= from <= cs.len(),
        forall|i: int| from <= i < cs.len() ==> cs[i] != c,
    ensures
        text::first_at(cs, from, c) == cs.len(),
    decreases cs.len() - from,
{
    if from < cs.len() {
        lemma_first_none(cs, from + 1, c);
    }
}

/// Groups are read back from their text.
#[verifier::rlimit(40)]
proof fn lemma_groups_read(gs: Seq<u16>, mixed: bool)
    requires
        gs.len() > 0,
    ensures
        address::groups_parsed(address::group_text(gs), mixed) == Some(gs),
    decreases gs.len(),
{
    let cs = address::group_text(gs);
    let first = address::hex_number(gs[0] as nat);
    let a = first.len() as int;
    lemma_group(gs[0]);
    if gs.len() == 1 {
        assert forall|i: int| 0 <= i < cs.len() implies cs[i] != ':' by {
            assert(address::hex_value(cs[i]) is Some);
        }
        lemma_first_none(cs, 0, ':');
        assert(seq![gs[0]] =~= gs);
    } else {
        let rest = address::group_text(gs.drop_first());
        lemma_group_text_front(gs);
        lemma_groups_read(gs.drop_first(), mixed);
        assert(cs[a] == ':');
        assert forall|i: int| 0 <= i < a implies cs[i] != ':' by {
            assert(cs[i] == first[i]);
            assert(address::hex_value(first[i]) is Some);
        }
        address::lemma_first_at(cs, 0, a, ':');
        assert(cs.subrange(0, a) =~= first);
        assert(cs.subrange(a + 1, cs.len() as int) =~= rest);
        assert(seq![gs[0]] + gs.drop_first() =~= gs);
    }
}

/// Whether a character stands in the text of groups.
spec fn in_groups(c: char) -> bool {
    c == ':' || address::hex_value(c) is Some
}

/// The text of groups has no two colons in a row, none at its start and none at its end.
#[verifier::rlimit(40)]
proof fn lemma_group_text_shape(gs: Seq<u16>)
    requires
        gs.len() > 0,
    ensures
        ({
            let cs = address::group_text(gs);
            &&& cs.len() > 0
            &&& cs[0] != ':'
            &&& cs.last() != ':'
            &&& forall|i: int| 0 <= i < cs.len() ==> in_groups(#[trigger] cs[i])
            &&& forall|i: int|
                0 <= i < cs.len() - 1 ==> (#[trigger] cs[i] != ':' || cs[i + 1] != ':')
        }),
    decreases gs.len(),
{
    let cs = address::group_text(gs);
    let last = address::hex_number(gs.last() as nat);
    lemma_group(gs.last());
    if gs.len() == 1 {
        assert(cs == last);
        assert(address::hex_value(last[0]) is Some);
        assert(address::hex_value(last[last.len() - 1]) is Some);
        assert forall|i: int| 0 <= i < cs.len() implies in_groups(#[trigger] cs[i]) by {
            assert(address::hex_value(last[i]) is Some);
        }
        assert forall|i: int| 0 <= i < cs.len() - 1 implies (#[trigger] cs[i] != ':' || cs[i + 1]
            != ':') by {
            assert(address::hex_value(last[i]) is Some);
        }
    } else {
        let head = address::group_text(gs.drop_last());
        let a = head.len() as int;
        lemma_group_text_shape(gs.drop_last());
        assert(cs == head.push(':') + last);
        assert(cs[0] == head[0]);
        assert(cs.last() == last[last.len() - 1]);
        assert(address::hex_value(last[last.len() - 1]) is Some);
        assert forall|i: int| 0 <= i < cs.len() implies in_groups(#[trigger] cs[i]) by {
            if i < a {
                assert(cs[i] == head[i]);
            } else if i > a {
                assert(cs[i] == last[i - a - 1]);
                assert(address::hex_value(last[i - a - 1]) is Some);
            }
        }
        assert forall|i: int| 0 <= i < cs.len() - 1 implies (#[trigger] cs[i] != ':' || cs[i + 1]
            != ':') by {
            if i < a - 1 {
                assert(cs[i] == head[i]);
                assert(cs[i + 1] == head[i + 1]);
            } else if i == a - 1 {
                assert(cs[i] == head[a - 1]);
            } else {
                assert(cs[i + 1] == last[i - a]);
                assert(address::hex_value(last[i - a]) is Some);
            }
        }
    }
}

proof fn lemma_gap_none(cs: Seq<char>, from: int)
    requires
        0 <= from,
        forall|i: int| from <= i < cs.len() - 1 ==> (#[trigger] cs[i] != ':' || cs[i + 1] != ':'),
    ensures
        address::gap_at(cs, from) == cs.len(),
    decreases cs.len() - from,
{
    if from + 1 < cs.len() {
        assert(cs[from] != ':' || cs[from + 1] != ':');
        lemma_gap_none(cs, from + 1);
    }
}

proof fn lemma_gap_at(cs: Seq<char>, from: int, to: int)
    requires
        0 <= from <= to,
        to + 1 < cs.len(),
        cs[to] == ':',
        cs[to + 1] == ':',
        forall|i: int| from <= i < to ==> (#[trigger] cs[i] != ':' || cs[i + 1] != ':'),
    ensures
        address::gap_at(cs, from) == to,
    decreases to - from,
{
    if from < to {
        assert(cs[from] != ':' || cs[from + 1] != ':');
        lemma_gap_at(cs, from + 1, to);
    }
}

proof fn lemma_zeros(gs: Seq<u16>, i: int, j: int)
    requires
        0 <= i <= j,
        j < i + address::zeros_from(gs, i),
    ensures
        j < gs.len(),
        gs[j] == 0,
    decreases j - i,
{
    if i < j {
        lemma_zeros(gs, i + 1, j);
    }
}

/// An address is the number of its groups.
#[verifier::rlimit(40)]
proof fn lemma_groups_value(x: u128)
    ensures
        address::groups_value(address::groups(x)) == x,
{
    let gs = address::groups(x);
    let p0 = gs.subrange(0, 0);
    let p1 = gs.subrange(0, 1);
    let p2 = gs.subrange(0, 2);
    let p3 = gs.subrange(0, 3);
    let p4 = gs.subrange(0, 4);
    let p5 = gs.subrange(0, 5);
    let p6 = gs.subrange(0, 6);
    let p7 = gs.subrange(0, 7);
    assert(p1.drop_last() =~= p0);
    assert(p2.drop_last() =~= p1);
    assert(p3.drop_last() =~= p2);
    assert(p4.drop_last() =~= p3);
    assert(p5.drop_last() =~= p4);
    assert(p6.drop_last() =~= p5);
    assert(p7.drop_last() =~= p6);
    assert(gs.drop_last() =~= p7);
    let y1 = x / 0x1_0000;
    let y2 = x / 0x1_0000_0000;
    let y3 = x / 0x1_0000_0000_0000;
    let y4 = x / 0x1_0000_0000_0000_0000;
    let y5 = x / 0x1_0000_0000_0000_0000_0000;
    let y6 = x / 0x1_0000_0000_0000_0000_0000_0000;
    let y7 = x / 0x1_0000_0000_0000_0000_0000_0000_0000;
    assert(y2 == y1 / 0x1_0000);
    assert(y3 == y2 / 0x1_0000);
    assert(y4 == y3 / 0x1_0000);
    assert(y5 == y4 / 0x1_0000);
    assert(y6 == y5 / 0x1_0000);
    assert(y7 == y6 / 0x1_0000);
    assert(y7 < 0x1_0000);
    assert(address::groups_value(p0) == 0);
    assert(address::groups_value(p1) == y7);
    assert(address::groups_value(p2) == y6);
    assert(address::groups_value(p3) == y5);
    assert(address::groups_value(p4) == y4);
    assert(address::groups_value(p5) == y3);
    assert(address::groups_value(p6) == y2);
    assert(address::groups_value(p7) == y1);
}

/// The text of an IPv6 address whose longest run of zero groups is left out is read back.
#[verifier::rlimit(40)]
proof fn lemma_shortened_read(x: u128)
    requires
        ({
            let gs = address::groups(x);
            &&& x / 0x1_0000_0000 != 0xFFFF
            &&& address::zeros_from(gs, address::longest_zeros(gs, 8)) > 1
        }),
    ensures
        address::v6_parsed(address::v6_text(x)) == Some(x),
        forall|i: int|
            0 <= i < address::v6_text(x).len() ==> in_groups(#[trigger] address::v6_text(x)[i]),
{
    let gs = address::groups(x);
    let start = address::longest_zeros(gs, 8);
    let len = address::zeros_from(gs, start);
    let before = gs.subrange(0, start);
    let after = gs.subrange(start + len, 8);
    let l = address::group_text(before);
    let r = address::group_text(after);
    let cs = address::v6_text(x);
    let k = l.len() as int;
    address::lemma_longest_bound(gs, 8);
    address::lemma_zeros_bound(gs, start);
    reveal_strlit("::");
    if before.len() > 0 {
        lemma_group_text_shape(before);
        lemma_groups_read(before, false);
    }
    if after.len() > 0 {
        lemma_group_text_shape(after);
        lemma_groups_read(after, true);
    }
    assert(cs == l + "::"@ + r);
    assert forall|i: int| 0 <= i < cs.len() implies in_groups(#[trigger] cs[i]) by {
        if i < k {
            assert(cs[i] == l[i]);
        } else if i >= k + 2 {
            assert(cs[i] == r[i - k - 2]);
        }
    }
    assert forall|i: int| 0 <= i < k implies (#[trigger] cs[i] != ':' || cs[i + 1] != ':') by {
        assert(cs[i] == l[i]);
        if i < k - 1 {
            assert(cs[i + 1] == l[i + 1]);
        }
    }
    lemma_gap_at(cs, 0, k);
    assert(cs.subrange(0, k) =~= l);
    assert(cs.subrange(k + 2, cs.len() as int) =~= r);
    assert(address::side_parsed(l, false) == Some(before)) by {
        if before.len() == 0 {
            assert(before =~= seq![]);
        }
    }
    assert(address::side_parsed(r, true) == Some(after)) by {
        if after.len() == 0 {
            assert(after =~= seq![]);
        }
    }
    let gap = Seq::new((8 - before.len() - after.len()) as nat, |i: int| 0u16);
    assert forall|i: int| 0 <= i < 8 implies (before + gap + after)[i] == gs[i] by {
        if start <= i < start + len {
            lemma_zeros(gs, start, i);
        }
    }
    assert(before + gap + after =~= gs);
    lemma_groups_value(x);
}

/// The text of an IPv6 address with all its groups is read back.
proof fn lemma_full_read(x: u128)
    requires
        ({
            let gs = address::groups(x);
            &&& x / 0x1_0000_0000 != 0xFFFF
            &&& address::zeros_from(gs, address::longest_zeros(gs, 8)) <= 1
        }),
    ensures
        address::v6_parsed(address::v6_text(x)) == Some(x),
        forall|i: int|
            0 <= i < address::v6_text(x).len() ==> in_groups(#[trigger] address::v6_text(x)[i]),
{
    let gs = address::groups(x);
    lemma_group_text_shape(gs);
    lemma_groups_read(gs, true);
    lemma_gap_none(address::group_text(gs), 0);
    lemma_groups_value(x);
}

/// The text of an IPv4 address in an IPv6 address is read back.
#[verifier::rlimit(40)]
proof fn lemma_mapped_read(x: u128)
    requires
        x / 0x1_0000_0000 == 0xFFFF,
    ensures
        address::v6_parsed(address::v6_text(x)) == Some(x),
        address::v6_text(x).len() > 0,
        address::v6_text(x)[0] == ':',
{
    let y = (x % 0x1_0000_0000) as u32;
    let v4 = address::v4_text(y);
    let cs = address::v6_text(x);
    let n = cs.len() as int;
    let right = cs.subrange(2, n);
    reveal_strlit("::ffff:");
    address::law_v4_text(y);
    lemma_v4_chars(y);
    lemma_gap_at(cs, 0, 0);
    assert(cs.subrange(0, 0) =~= seq![]);
    assert(right.subrange(0, 4) =~= seq!['f', 'f', 'f', 'f']);
    assert(right.subrange(5, right.len() as int) =~= v4);
    address::lemma_first_at(right, 0, 4, ':');
    lemma_first_none(v4, 0, ':');
    lemma_ffff();
    let hi = (y / 0x1_0000) as u16;
    let lo = (y % 0x1_0000) as u16;
    assert(address::groups_parsed(v4, true) == Some(seq![hi, lo]));
    assert(address::groups_parsed(right, true) == Some(seq![0xFFFFu16] + seq![hi, lo]));
    let l: Seq<u16> = seq![];
    let r = seq![0xFFFFu16] + seq![hi, lo];
    let gap = Seq::new(5, |i: int| 0u16);
    lemma_groups_value(x);
    let y1 = x / 0x1_0000;
    let y2 = x / 0x1_0000_0000;
    assert(y2 == y1 / 0x1_0000);
    assert(x % 0x1_0000_0000 == (y1 % 0x1_0000) * 0x1_0000 + x % 0x1_0000);
    assert(y / 0x1_0000 == y1 % 0x1_0000);
    assert(y % 0x1_0000 == x % 0x1_0000);
    let gs = address::groups(x);
    assert(gs[0] == 0 && gs[1] == 0 && gs[2] == 0 && gs[3] == 0 && gs[4] == 0);
    assert(gs[5] == 0xFFFF);
    assert(l + gap + r =~= gs);
}

proof fn lemma_ffff()
    ensures
        address::group_parsed(seq!['f', 'f', 'f', 'f']) == Some(0xFFFFu16),
{
    let s4 = seq!['f', 'f', 'f', 'f'];
    let s3 = seq!['f', 'f', 'f'];
    let s2 = seq!['f', 'f'];
    let s1 = seq!['f'];
    let s0: Seq<char> = seq![];
    assert(s4.drop_last() =~= s3);
    assert(s3.drop_last() =~= s2);
    assert(s2.drop_last() =~= s1);
    assert(s1.drop_last() =~= s0);
    assert(address::hex_parsed(s0) == Some(0nat));
    assert(address::hex_parsed(s1) == Some(15nat));
    assert(address::hex_parsed(s2) == Some(255nat));
    assert(address::hex_parsed(s3) == Some(4095nat));
}

/// The text of an IPv4 address has no colons and no percent signs, and more characters than a group.
#[verifier::rlimit(40)]
proof fn lemma_v4_chars(x: u32)
    ensures
        address::v4_text(x).len() > 4,
        forall|i: int| 0 <= i < address::v4_text(x).len() ==> address::v4_text(x)[i] != ':' && address::v4_text(
            x,
        )[i] != '%',
{
    let p = text::decimal(address::octet(x, 0));
    let q = text::decimal(address::octet(x, 1));
    let s = text::decimal(address::octet(x, 2));
    let t = text::decimal(address::octet(x, 3));
    let cs = address::v4_text(x);
    text::lemma_decimal(address::octet(x, 0));
    text::lemma_decimal(address::octet(x, 1));
    text::lemma_decimal(address::octet(x, 2));
    text::lemma_decimal(address::octet(x, 3));
    let a = p.len() as int;
    let b = a + 1 + q.len();
    let c = b + 1 + s.len();
    assert forall|i: int| 0 <= i < cs.len() implies cs[i] != ':' && cs[i] != '%' by {
        if i < a {
            assert(cs[i] == p[i]);
            assert(text::is_digit(p[i]));
        } else if i == a || i == b || i == c {
        } else if i < b {
            assert(cs[i] == q[i - a - 1]);
            assert(text::is_digit(q[i - a - 1]));
        } else if i < c {
            assert(cs[i] == s[i - b - 1]);
            assert(text::is_digit(s[i - b - 1]));
        } else {
            assert(cs[i] == t[i - c - 1]);
            assert(text::is_digit(t[i - c - 1]));
        }
    }
}

/// The text of an IPv6 address is read back as the address, and is not that of an IPv4 address.
#[verifier::rlimit(40)]
pub proof fn law_v6_text(x: u128)
    ensures
        address::v6_parsed(address::v6_text(x)) == Some(x),
        address::v4_parsed(address::v6_text(x)) is None,
{
    let gs = address::groups(x);
    let cs = address::v6_text(x);
    if x / 0x1_0000_0000 == 0xFFFF {
        lemma_mapped_read(x);
        let a = text::first_at(cs, 0, '.');
        lemma_first_bound(cs, 1, '.');
        assert(a == text::first_at(cs, 1, '.'));
        if a < cs.len() {
            assert(cs.subrange(0, a)[0] == ':');
            assert(!text::is_digit(':'));
        }
    } else {
        if address::zeros_from(gs, address::longest_zeros(gs, 8)) > 1 {
            lemma_shortened_read(x);
        } else {
            lemma_full_read(x);
        }
        assert forall|i: int| 0 <= i < cs.len() implies cs[i] != '.' by {
            assert(in_groups(cs[i]));
        }
        lemma_first_none(cs, 0, '.');
    }
}

proof fn lemma_first_bound(cs: Seq<char>, from: int, c: char)
    requires
        0 <= from <= cs.len(),
    ensures
        from <= text::first_at(cs, from, c) <= cs.len(),
    decreases cs.len() - from,
{
    if from < cs.len() && cs[from] != c {
        lemma_first_bound(cs, from + 1, c);
    }
}

/// The text of an address is a word, and is read back as the address.
pub proof fn law_ip_text(ip: IpAddr)
    ensures
        address::bare_parsed(ip.text()) == Some(ip),
        text::is_word(ip.text()),
{
    address::lemma_ip_word(ip);
    match ip {
        IpAddr::V4(x) => address::law_v4_text(x),
        IpAddr::V6(x) => law_v6_text(x),
    }
}

/// The text of an IPv6 address has no percent sign.
proof fn lemma_v6_chars(x: u128)
    ensures
        forall|i: int| 0 <= i < address::v6_text(x).len() ==> address::v6_text(x)[i] != '%',
{
    let gs = address::groups(x);
    let cs = address::v6_text(x);
    if x / 0x1_0000_0000 == 0xFFFF {
        let t = address::v4_text((x % 0x1_0000_0000) as u32);
        reveal_strlit("::ffff:");
        lemma_v4_chars((x % 0x1_0000_0000) as u32);
        assert forall|i: int| 0 <= i < cs.len() implies cs[i] != '%' by {
            if i >= 7 {
                assert(cs[i] == t[i - 7]);
            }
        }
    } else {
        if address::zeros_from(gs, address::longest_zeros(gs, 8)) > 1 {
            lemma_shortened_read(x);
        } else {
            lemma_full_read(x);
        }
        assert forall|i: int| 0 <= i < cs.len() implies cs[i] != '%' by {
            assert(in_groups(cs[i]));
        }
    }
}

/// Where an IPv6 address in brackets has a scope, it stands after a percent sign; the port is the
/// one at hand.
pub proof fn law_scoped_address(x: u128, scope: u32, port: u16)
    ensures
        ({
            let t = address::v6_text(x);
            let s = text::decimal(scope as nat);
            &&& address::host_parsed(seq!['['] + t + seq![']'], port) == Some(
                SocketAddr { ip: IpAddr::V6(x), port, scope_id: 0 },
            )
            &&& address::host_parsed(seq!['['] + t + seq!['%'] + s + seq![']'], port) == Some(
                SocketAddr { ip: IpAddr::V6(x), port, scope_id: scope },
            )
        }),
{
    let t = address::v6_text(x);
    let s = text::decimal(scope as nat);
    let plain = seq!['['] + t + seq![']'];
    let scoped = seq!['['] + t + seq!['%'] + s + seq![']'];
    let inner = t + seq!['%'] + s;
    let k = t.len() as int;
    assert(plain.subrange(1, plain.len() - 1) =~= t);
    assert(scoped.subrange(1, scoped.len() - 1) =~= inner);
    law_v6_text(x);
    lemma_v6_chars(x);
    lemma_first_none(t, 0, '%');
    assert(inner[k] == '%');
    assert forall|i: int| 0 <= i < k implies inner[i] != '%' by {
        assert(inner[i] == t[i]);
    }
    encoding_laws::law_first_place(inner, 0, '%');
    assert(text::first_at(inner, 0, '%') == k);
    assert(inner.subrange(0, k) =~= t);
    assert(inner.subrange(k + 1, inner.len() as int) =~= s);
    text::lemma_decimal(scope as nat);
}

/// The run of zero groups that is left out is as long as any, and the first that long.
pub proof fn law_longest_run(gs: Seq<u16>, n: nat, i: int)
    requires
        0 <= i < n,
    ensures
        0 <= address::longest_zeros(gs, n) < n,
        address::zeros_from(gs, i) <= address::zeros_from(gs, address::longest_zeros(gs, n)),
        i < address::longest_zeros(gs, n) ==> address::zeros_from(gs, i) < address::zeros_from(
            gs,
            address::longest_zeros(gs, n),
        ),
    decreases n,
{
    if n > 1 {
        if i < n - 1 {
            law_longest_run(gs, (n - 1) as nat, i);
        } else {
            law_longest_run(gs, (n - 1) as nat, 0);
        }
    }
}

/// A pair of colons stands for as many zero groups as are missing to eight, at least one.
#[verifier::rlimit(40)]
pub proof fn law_gap_stands_for_zeros(before: Seq<u16>, after: Seq<u16>)
    ensures
        ({
            let cs = address::group_text(before) + seq![':', ':'] + address::group_text(after);
            let n = before.len() + after.len();
            &&& n < 8 ==> address::v6_parsed(cs) == Some(
                address::groups_value(
                    before + Seq::new((8 - n) as nat, |i: int| 0u16) + after,
                ) as u128,
            )
            &&& n >= 8 ==> address::v6_parsed(cs) is None
        }),
{
    let l = address::group_text(before);
    let r = address::group_text(after);
    let cs = l + seq![':', ':'] + r;
    let k = l.len() as int;
    if before.len() > 0 {
        lemma_group_text_shape(before);
        lemma_groups_read(before, false);
    }
    if after.len() > 0 {
        lemma_group_text_shape(after);
        lemma_groups_read(after, true);
    }
    assert forall|i: int| 0 <= i < k implies (#[trigger] cs[i] != ':' || cs[i + 1] != ':') by {
        assert(cs[i] == l[i]);
        if i < k - 1 {
            assert(cs[i + 1] == l[i + 1]);
        }
    }
    lemma_gap_at(cs, 0, k);
    assert(cs.subrange(0, k) =~= l);
    assert(cs.subrange(k + 2, cs.len() as int) =~= r);
    assert(address::side_parsed(l, false) == Some(before)) by {
        if before.len() == 0 {
            assert(before =~= seq![]);
        }
    }
    assert(address::side_parsed(r, true) == Some(after)) by {
        if after.len() == 0 {
            assert(after =~= seq![]);
        }
    }
    if before.len() + after.len() < 8 {
        let n = (8 - before.len() - after.len()) as nat;
        assert(Seq::new(n, |i: int| 0u16) =~= Seq::new(
            (8 - (before.len() + after.len())) as nat,
            |i: int| 0u16,
        ));
    }
}

} // verus!
