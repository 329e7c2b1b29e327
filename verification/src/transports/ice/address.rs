//! Transport addresses.
use vstd::prelude::*;
use vstd::string::*;

use crate::text;

verus! {

/// An IP address, as the number that its bits stand for.
#[derive(Debug, Clone, Copy, PartialEq, Eq, Structural)]
pub enum IpAddr {
    V4(u32),
    V6(u128),
}

/// An IP address with a port. The scope tells apart the networks that an IPv6 address can belong
/// to; it is 0 for other addresses, and where there is nothing to tell apart.
#[derive(Debug, Clone, Copy, PartialEq, Eq, Structural)]
pub struct SocketAddr {
    pub ip: IpAddr,
    pub port: u16,
    pub scope_id: u32,
}

impl SocketAddr {
    /// Whether only an IPv6 address has a scope.
    pub open spec fn wf(self) -> bool {
        self.ip is V4 ==> self.scope_id == 0
    }

    /// The address without its scope.
    pub open spec fn unscoped(self) -> SocketAddr {
        SocketAddr { scope_id: 0, ..self }
    }
}

/// Octet `i` of an IPv4 address, from the left.
pub open spec fn octet(x: u32, i: int) -> nat {
    (if i == 0 {
        x / 0x100_0000
    } else if i == 1 {
        (x / 0x1_0000) % 256
    } else if i == 2 {
        (x / 0x100) % 256
    } else {
        x % 256
    }) as nat
}

/// The text of an IPv4 address: four decimal numbers with dots between them.
pub open spec fn v4_text(x: u32) -> Seq<char> {
    text::decimal(octet(x, 0)).push('.') + text::decimal(octet(x, 1)).push('.') + text::decimal(
        octet(x, 2),
    ).push('.') + text::decimal(octet(x, 3))
}

/// The eight 16-bit groups of an IPv6 address, from the left.
pub open spec fn groups(x: u128) -> Seq<u16> {
    seq![
        (x / 0x1_0000_0000_0000_0000_0000_0000_0000) as u16,
        ((x / 0x1_0000_0000_0000_0000_0000_0000) % 0x1_0000) as u16,
        ((x / 0x1_0000_0000_0000_0000_0000) % 0x1_0000) as u16,
        ((x / 0x1_0000_0000_0000_0000) % 0x1_0000) as u16,
        ((x / 0x1_0000_0000_0000) % 0x1_0000) as u16,
        ((x / 0x1_0000_0000) % 0x1_0000) as u16,
        ((x / 0x1_0000) % 0x1_0000) as u16,
        (x % 0x1_0000) as u16,
    ]
}

/// A number in lower case hexadecimal digits, without leading zeros.
pub open spec fn hex_number(n: nat) -> Seq<char>
    decreases n,
{
    if n < 16 {
        seq![text::hex_char(n)]
    } else {
        hex_number(n / 16).push(text::hex_char(n % 16))
    }
}

/// Groups in hexadecimal digits, with colons between them.
pub open spec fn group_text(gs: Seq<u16>) -> Seq<char>
    decreases gs.len(),
{
    if gs.len() == 0 {
        seq![]
    } else if gs.len() == 1 {
        hex_number(gs[0] as nat)
    } else {
        group_text(gs.drop_last()).push(':') + hex_number(gs.last() as nat)
    }
}

/// How many groups from `i` on are zero.
pub open spec fn zeros_from(gs: Seq<u16>, i: int) -> nat
    decreases gs.len() - i,
{
    if 0 <= i < gs.len() && gs[i] == 0 {
        zeros_from(gs, i + 1) + 1
    } else {
        0
    }
}

/// Where the first of the longest runs of zero groups below `n` starts.
pub open spec fn longest_zeros(gs: Seq<u16>, n: nat) -> int
    decreases n,
{
    if n <= 1 {
        0
    } else {
        let best = longest_zeros(gs, (n - 1) as nat);
        if zeros_from(gs, n - 1) > zeros_from(gs, best) {
            n - 1
        } else {
            best
        }
    }
}

/// The text of an IPv6 address (RFC 5952): the first of the longest runs of two or more zero
/// groups is left out. An address that stands for an IPv4 address ends with the text of that.
pub open spec fn v6_text(x: u128) -> Seq<char> {
    let gs = groups(x);
    let start = longest_zeros(gs, 8);
    let len = zeros_from(gs, start);
    if x / 0x1_0000_0000 == 0xFFFF {
        "::ffff:"@ + v4_text((x % 0x1_0000_0000) as u32)
    } else if len > 1 {
        group_text(gs.subrange(0, start)) + "::"@ + group_text(gs.subrange(start + len, 8))
    } else {
        group_text(gs)
    }
}

impl IpAddr {
    /// The text of the address.
    pub open spec fn text(self) -> Seq<char> {
        match self {
            IpAddr::V4(x) => v4_text(x),
            IpAddr::V6(x) => v6_text(x),
        }
    }

    /// Whether the address stands for no address: all bits are zero.
    pub open spec fn unspecified(self) -> bool {
        self == IpAddr::V4(0) || self == IpAddr::V6(0)
    }

    /// Whether the address stands for no address: all bits are zero.
    pub fn is_unspecified(&self) -> (r: bool)
        ensures
            r == self.unspecified(),
    {
        match self {
            IpAddr::V4(x) => *x == 0,
            IpAddr::V6(x) => *x == 0,
        }
    }

    /// Whether the address is one of this machine: 127.0.0.0/8 or ::1.
    pub open spec fn loopback(self) -> bool {
        match self {
            IpAddr::V4(x) => x / 0x100_0000 == 127,
            IpAddr::V6(x) => x == 1,
        }
    }

    /// Whether the address is one of this machine: 127.0.0.0/8 or ::1.
    pub fn is_loopback(&self) -> (r: bool)
        ensures
            r == self.loopback(),
    {
        match self {
            IpAddr::V4(x) => *x / 0x100_0000 == 127,
            IpAddr::V6(x) => *x == 1,
        }
    }

    /// The text of the address.
    pub fn to_text(&self) -> (r: String)
        ensures
            r@ == self.text(),
    {
        let mut out = String::new();
        match self {
            IpAddr::V4(x) => push_v4(&mut out, *x),
            IpAddr::V6(x) => push_v6(&mut out, *x),
        }
        assert(out@ =~= self.text());
        out
    }
}

fn push_v4(out: &mut String, x: u32)
    ensures
        final(out)@ == old(out)@ + v4_text(x),
{
    text::push_decimal(out, (x / 0x100_0000) as u64);
    out.push('.');
    text::push_decimal(out, ((x / 0x1_0000) % 256) as u64);
    out.push('.');
    text::push_decimal(out, ((x / 0x100) % 256) as u64);
    out.push('.');
    text::push_decimal(out, (x % 256) as u64);
    assert(out@ =~= old(out)@ + v4_text(x));
}

fn push_hex(out: &mut String, n: u16)
    ensures
        final(out)@ == old(out)@ + hex_number(n as nat),
    decreases n,
{
    if n >= 16 {
        push_hex(out, n / 16);
    }
    let d: u8 = (n % 16) as u8;
    out.push(text::hex_digit(d));
    assert(out@ =~= old(out)@ + hex_number(n as nat));
}

fn push_groups(out: &mut String, gs: &[u16], start: usize, end: usize)
    requires
        start <= end <= gs@.len(),
    ensures
        final(out)@ == old(out)@ + group_text(gs@.subrange(start as int, end as int)),
{
    let mut i: usize = start;
    assert(out@ =~= old(out)@ + group_text(gs@.subrange(start as int, start as int)));
    while i < end
        invariant
            start <= i <= end <= gs@.len(),
            out@ == old(out)@ + group_text(gs@.subrange(start as int, i as int)),
        decreases end - i,
    {
        if i > start {
            out.push(':');
        }
        push_hex(out, gs[i]);
        i += 1;
        let ghost done = gs@.subrange(start as int, i as int);
        assert(done.drop_last() =~= gs@.subrange(start as int, i - 1));
        assert(out@ =~= old(out)@ + group_text(done));
    }
}

fn count_zeros(gs: &[u16], from: usize) -> (r: usize)
    requires
        from <= gs@.len(),
    ensures
        r == zeros_from(gs@, from as int),
        from + r <= gs@.len(),
    decreases gs@.len() - from,
{
    let n: usize = gs.len();
    if from < n && gs[from] == 0 {
        count_zeros(gs, from + 1) + 1
    } else {
        0
    }
}

fn split_groups(x: u128) -> (r: Vec<u16>)
    ensures
        r@ == groups(x),
{
    let mut gs: Vec<u16> = Vec::new();
    gs.push((x / 0x1_0000_0000_0000_0000_0000_0000_0000) as u16);
    gs.push(((x / 0x1_0000_0000_0000_0000_0000_0000) % 0x1_0000) as u16);
    gs.push(((x / 0x1_0000_0000_0000_0000_0000) % 0x1_0000) as u16);
    gs.push(((x / 0x1_0000_0000_0000_0000) % 0x1_0000) as u16);
    gs.push(((x / 0x1_0000_0000_0000) % 0x1_0000) as u16);
    gs.push(((x / 0x1_0000_0000) % 0x1_0000) as u16);
    gs.push(((x / 0x1_0000) % 0x1_0000) as u16);
    gs.push((x % 0x1_0000) as u16);
    assert(gs@ =~= groups(x));
    gs
}

fn push_v6(out: &mut String, x: u128)
    ensures
        final(out)@ == old(out)@ + v6_text(x),
{
    if x / 0x1_0000_0000 == 0xFFFF {
        out.append("::ffff:");
        push_v4(out, (x % 0x1_0000_0000) as u32);
        assert(out@ =~= old(out)@ + v6_text(x));
        return ;
    }
    let gs = split_groups(x);
    let mut best: usize = 0;
    let mut len: usize = count_zeros(gs.as_slice(), 0);
    let mut i: usize = 1;
    while i < 8
        invariant
            gs@ == groups(x),
            1 <= i <= 8,
            best < 8,
            best == longest_zeros(gs@, i as nat),
            len == zeros_from(gs@, best as int),
            best + len <= 8,
        decreases 8 - i,
    {
        let here: usize = count_zeros(gs.as_slice(), i);
        if here > len {
            best = i;
            len = here;
        }
        i += 1;
    }
    if len > 1 {
        push_groups(out, gs.as_slice(), 0, best);
        out.append("::");
        push_groups(out, gs.as_slice(), best + len, 8);
    } else {
        push_groups(out, gs.as_slice(), 0, 8);
        assert(gs@.subrange(0, 8) =~= gs@);
    }
    assert(out@ =~= old(out)@ + v6_text(x));
}

impl SocketAddr {
    pub fn new(ip: IpAddr, port: u16) -> (r: Self)
        ensures
            r == (SocketAddr { ip, port, scope_id: 0 }),
    {
        SocketAddr { ip, port, scope_id: 0 }
    }

    /// Whether this is an IPv6 address.
    pub fn is_ipv6(&self) -> (r: bool)
        ensures
            r == (self.ip is V6),
    {
        match self.ip {
            IpAddr::V4(_) => false,
            IpAddr::V6(_) => true,
        }
    }
}

// Reading addresses.
/// An octet of an IPv4 address in text: one to three digits without a leading zero, at most 255.
pub open spec fn octet_parsed(cs: Seq<char>) -> Option<nat> {
    if text::all_digits(cs) && cs.len() <= 3 && (cs.len() == 1 || cs[0] != '0')
        && text::digits_value(cs) <= 255 {
        Some(text::digits_value(cs))
    } else {
        None
    }
}

/// The IPv4 address in text: four octets with dots between them.
pub open spec fn v4_parsed(cs: Seq<char>) -> Option<u32> {
    let a = text::first_at(cs, 0, '.');
    let b = text::first_at(cs, a + 1, '.');
    let c = text::first_at(cs, b + 1, '.');
    let n = cs.len() as int;
    if a < n && b < n && c < n {
        match (
            octet_parsed(cs.subrange(0, a)),
            octet_parsed(cs.subrange(a + 1, b)),
            octet_parsed(cs.subrange(b + 1, c)),
            octet_parsed(cs.subrange(c + 1, n)),
        ) {
            (Some(w), Some(x), Some(y), Some(z)) => Some(
                (w * 0x100_0000 + x * 0x1_0000 + y * 0x100 + z) as u32,
            ),
            _ => None,
        }
    } else {
        None
    }
}

fn parse_octet(cs: &[char]) -> (r: Option<u32>)
    ensures
        match r {
            Some(x) => octet_parsed(cs@) == Some(x as nat) && x <= 255,
            None => octet_parsed(cs@) is None,
        },
{
    let n: usize = cs.len();
    if n == 0 || n > 3 || (n > 1 && cs[0] == '0') || cs[0] == '+' {
        assert(n > 0 && cs@[0] == '+' ==> !text::is_digit(cs@[0]));
        return None;
    }
    match text::parse_number(cs, 255) {
        Some(x) => Some(x as u32),
        None => None,
    }
}

/// Reads an IPv4 address.
pub fn parse_v4(cs: &[char]) -> (r: Option<u32>)
    ensures
        r == v4_parsed(cs@),
{
    let n: usize = cs.len();
    let a: usize = text::find_char(cs, 0, '.');
    if a == n {
        return None;
    }
    let b: usize = text::find_char(cs, a + 1, '.');
    if b == n {
        return None;
    }
    let c: usize = text::find_char(cs, b + 1, '.');
    if c == n {
        return None;
    }
    let p = text::copy_chars(cs, 0, a);
    let q = text::copy_chars(cs, a + 1, b);
    let s = text::copy_chars(cs, b + 1, c);
    let t = text::copy_chars(cs, c + 1, n);
    match (
        parse_octet(p.as_slice()),
        parse_octet(q.as_slice()),
        parse_octet(s.as_slice()),
        parse_octet(t.as_slice()),
    ) {
        (Some(w), Some(x), Some(y), Some(z)) => Some(
            w * 0x100_0000 + x * 0x1_0000 + y * 0x100 + z,
        ),
        _ => None,
    }
}

/// The value of a hexadecimal digit, of either case.
pub open spec fn hex_value(c: char) -> Option<nat> {
    if '0' <= c && c <= '9' {
        Some((c as nat - 48) as nat)
    } else if 'a' <= c && c <= 'f' {
        Some((c as nat - 87) as nat)
    } else if 'A' <= c && c <= 'F' {
        Some((c as nat - 55) as nat)
    } else {
        None
    }
}

/// The number that hexadecimal digits stand for.
pub open spec fn hex_parsed(cs: Seq<char>) -> Option<nat>
    decreases cs.len(),
{
    if cs.len() == 0 {
        Some(0)
    } else {
        match (hex_parsed(cs.drop_last()), hex_value(cs.last())) {
            (Some(high), Some(d)) => Some(high * 16 + d),
            _ => None,
        }
    }
}

/// A group of an IPv6 address in text: one to four hexadecimal digits.
pub open spec fn group_parsed(cs: Seq<char>) -> Option<u16> {
    if 1 <= cs.len() <= 4 {
        match hex_parsed(cs) {
            Some(x) => Some(x as u16),
            None => None,
        }
    } else {
        None
    }
}

/// Groups in text, with colons between them. Where `mixed` holds, an IPv4 address may stand for
/// the last two.
pub open spec fn groups_parsed(cs: Seq<char>, mixed: bool) -> Option<Seq<u16>>
    decreases cs.len(),
{
    let k = text::first_at(cs, 0, ':');
    if k >= cs.len() || k < 0 {
        match group_parsed(cs) {
            Some(g) => Some(seq![g]),
            None => match v4_parsed(cs) {
                Some(x) => if mixed {
                    Some(seq![(x / 0x1_0000) as u16, (x % 0x1_0000) as u16])
                } else {
                    None
                },
                None => None,
            },
        }
    } else {
        match (
            group_parsed(cs.subrange(0, k)),
            groups_parsed(cs.subrange(k + 1, cs.len() as int), mixed),
        ) {
            (Some(g), Some(rest)) => Some(seq![g] + rest),
            _ => None,
        }
    }
}

/// The groups on one side of the gap of an IPv6 address.
pub open spec fn side_parsed(cs: Seq<char>, mixed: bool) -> Option<Seq<u16>> {
    if cs.len() == 0 {
        Some(seq![])
    } else {
        groups_parsed(cs, mixed)
    }
}

/// Where the first pair of colons from `from` on starts, or the length where there is none.
pub open spec fn gap_at(cs: Seq<char>, from: int) -> int
    decreases cs.len() - from,
{
    if 0 <= from && from + 1 < cs.len() {
        if cs[from] == ':' && cs[from + 1] == ':' {
            from
        } else {
            gap_at(cs, from + 1)
        }
    } else {
        cs.len() as int
    }
}

/// The number that groups stand for.
pub open spec fn groups_value(gs: Seq<u16>) -> nat
    decreases gs.len(),
{
    if gs.len() == 0 {
        0
    } else {
        groups_value(gs.drop_last()) * 0x1_0000 + gs.last() as nat
    }
}

/// The IPv6 address in text (RFC 4291): eight groups, or fewer with a pair of colons in place
/// of zero groups.
pub open spec fn v6_parsed(cs: Seq<char>) -> Option<u128> {
    let k = gap_at(cs, 0);
    if k >= cs.len() {
        match groups_parsed(cs, true) {
            Some(gs) => if gs.len() == 8 {
                Some(groups_value(gs) as u128)
            } else {
                None
            },
            None => None,
        }
    } else {
        match (
            side_parsed(cs.subrange(0, k), false),
            side_parsed(cs.subrange(k + 2, cs.len() as int), true),
        ) {
            (Some(l), Some(r)) => if l.len() + r.len() <= 7 {
                let gap = Seq::new((8 - l.len() - r.len()) as nat, |i: int| 0u16);
                Some(groups_value(l + gap + r) as u128)
            } else {
                None
            },
            _ => None,
        }
    }
}

/// The scope in text: a decimal number without a sign.
pub open spec fn scope_parsed(cs: Seq<char>) -> Option<u32> {
    if cs.len() == 0 || cs[0] == '+' {
        None
    } else {
        match text::parsed_number(cs, 0xFFFF_FFFF) {
            Some(n) => Some(n as u32),
            None => None,
        }
    }
}

/// The IPv6 address in text and its scope: after a percent sign, or 0 where there is none.
pub open spec fn scoped_parsed(cs: Seq<char>) -> Option<(u128, u32)> {
    let k = text::first_at(cs, 0, '%');
    if k >= cs.len() {
        match v6_parsed(cs) {
            Some(x) => Some((x, 0)),
            None => None,
        }
    } else {
        match (v6_parsed(cs.subrange(0, k)), scope_parsed(cs.subrange(k + 1, cs.len() as int))) {
            (Some(x), Some(scope_id)) => Some((x, scope_id)),
            _ => None,
        }
    }
}

/// The address at `port` that text stands for: an IPv4 address, or an IPv6 address in brackets,
/// with its scope if it has one.
pub open spec fn host_parsed(cs: Seq<char>, port: u16) -> Option<SocketAddr> {
    if cs.len() >= 2 && cs[0] == '[' && cs.last() == ']' {
        match scoped_parsed(cs.subrange(1, cs.len() - 1)) {
            Some((x, scope_id)) => Some(SocketAddr { ip: IpAddr::V6(x), port, scope_id }),
            None => None,
        }
    } else {
        match v4_parsed(cs) {
            Some(x) => Some(SocketAddr { ip: IpAddr::V4(x), port, scope_id: 0 }),
            None => None,
        }
    }
}

/// The address that text stands for: an IPv4 address, or an IPv6 address.
pub open spec fn bare_parsed(cs: Seq<char>) -> Option<IpAddr> {
    match v4_parsed(cs) {
        Some(x) => Some(IpAddr::V4(x)),
        None => match v6_parsed(cs) {
            Some(x) => Some(IpAddr::V6(x)),
            None => None,
        },
    }
}

fn hex_digit_value(c: char) -> (r: Option<u16>)
    ensures
        match r {
            Some(x) => hex_value(c) == Some(x as nat) && x < 16,
            None => hex_value(c) is None,
        },
{
    if c >= '0' && c <= '9' {
        Some((c as u32 - 48) as u16)
    } else if c >= 'a' && c <= 'f' {
        Some((c as u32 - 87) as u16)
    } else if c >= 'A' && c <= 'F' {
        Some((c as u32 - 55) as u16)
    } else {
        None
    }
}

proof fn lemma_hex_prefix(cs: Seq<char>, i: int)
    requires
        0 <= i <= cs.len(),
        hex_parsed(cs.subrange(0, i)) is None,
    ensures
        hex_parsed(cs) is None,
    decreases cs.len(),
{
    if i < cs.len() {
        assert(cs.drop_last().subrange(0, i) =~= cs.subrange(0, i));
        lemma_hex_prefix(cs.drop_last(), i);
    } else {
        assert(cs.subrange(0, i) =~= cs);
    }
}

fn parse_group(cs: &[char]) -> (r: Option<u16>)
    ensures
        r == group_parsed(cs@),
{
    let n: usize = cs.len();
    if n == 0 || n > 4 {
        return None;
    }
    let mut value: u16 = 0;
    let mut i: usize = 0;
    let ghost mut bound: int = 1;
    assert(cs@.subrange(0, 0) =~= seq![]);
    while i < n
        invariant
            n == cs@.len(),
            n <= 4,
            i <= n,
            hex_parsed(cs@.subrange(0, i as int)) == Some(value as nat),
            value < bound,
            bound == (if i == 0 {
                1int
            } else if i == 1 {
                16
            } else if i == 2 {
                256
            } else if i == 3 {
                4096
            } else {
                65536
            }),
        decreases n - i,
    {
        proof {
            let longer = cs@.subrange(0, i + 1);
            assert(longer.drop_last() =~= cs@.subrange(0, i as int));
            assert(longer.last() == cs@[i as int]);
        }
        match hex_digit_value(cs[i]) {
            Some(d) => {
                value = value * 16 + d;
            },
            None => {
                proof {
                    lemma_hex_prefix(cs@, i + 1);
                }
                return None;
            },
        }
        i += 1;
        proof {
            bound = bound * 16;
        }
    }
    assert(cs@.subrange(0, n as int) =~= cs@);
    Some(value)
}

fn parse_groups(cs: &[char], mixed: bool) -> (r: Option<Vec<u16>>)
    ensures
        match r {
            Some(gs) => groups_parsed(cs@, mixed) == Some(gs@),
            None => groups_parsed(cs@, mixed) is None,
        },
    decreases cs@.len(),
{
    let n: usize = cs.len();
    let k: usize = text::find_char(cs, 0, ':');
    if k == n {
        match parse_group(cs) {
            Some(g) => {
                let mut gs: Vec<u16> = Vec::new();
                gs.push(g);
                assert(gs@ =~= seq![g]);
                Some(gs)
            },
            None => match parse_v4(cs) {
                Some(x) => {
                    if !mixed {
                        return None;
                    }
                    let mut gs: Vec<u16> = Vec::new();
                    gs.push((x / 0x1_0000) as u16);
                    gs.push((x % 0x1_0000) as u16);
                    assert(gs@ =~= seq![(x / 0x1_0000) as u16, (x % 0x1_0000) as u16]);
                    Some(gs)
                },
                None => None,
            },
        }
    } else {
        let head = text::copy_chars(cs, 0, k);
        let tail = text::copy_chars(cs, k + 1, n);
        match (parse_group(head.as_slice()), parse_groups(tail.as_slice(), mixed)) {
            (Some(g), Some(rest)) => {
                let mut gs: Vec<u16> = Vec::new();
                gs.push(g);
                push_all(&mut gs, rest.as_slice());
                assert(gs@ =~= seq![g] + rest@);
                Some(gs)
            },
            _ => None,
        }
    }
}

fn push_all(out: &mut Vec<u16>, xs: &[u16])
    ensures
        final(out)@ == old(out)@ + xs@,
{
    let n: usize = xs.len();
    let mut i: usize = 0;
    while i < n
        invariant
            n == xs@.len(),
            i <= n,
            out@ == old(out)@ + xs@.subrange(0, i as int),
        decreases n - i,
    {
        out.push(xs[i]);
        i += 1;
        assert(out@ =~= old(out)@ + xs@.subrange(0, i as int));
    }
    assert(xs@.subrange(0, n as int) =~= xs@);
}

fn parse_side(cs: &[char], mixed: bool) -> (r: Option<Vec<u16>>)
    ensures
        match r {
            Some(gs) => side_parsed(cs@, mixed) == Some(gs@),
            None => side_parsed(cs@, mixed) is None,
        },
{
    if cs.len() == 0 {
        let gs: Vec<u16> = Vec::new();
        assert(gs@ =~= seq![]);
        Some(gs)
    } else {
        parse_groups(cs, mixed)
    }
}

fn find_gap(cs: &[char]) -> (r: usize)
    ensures
        r == gap_at(cs@, 0),
        r <= cs@.len(),
        r < cs@.len() ==> r + 1 < cs@.len(),
{
    let n: usize = cs.len();
    let mut i: usize = 0;
    while i < n && n - i > 1
        invariant
            n == cs@.len(),
            i <= n,
            gap_at(cs@, 0) == gap_at(cs@, i as int),
        decreases n - i,
    {
        if cs[i] == ':' && cs[i + 1] == ':' {
            return i;
        }
        i += 1;
    }
    n
}

fn value_of_groups(gs: &[u16]) -> (r: u128)
    requires
        gs@.len() == 8,
    ensures
        r == groups_value(gs@),
{
    let mut x: u128 = 0;
    let mut i: usize = 0;
    let ghost mut bound: int = 1;
    assert(gs@.subrange(0, 0) =~= seq![]);
    while i < 8
        invariant
            gs@.len() == 8,
            i <= 8,
            x == groups_value(gs@.subrange(0, i as int)),
            x < bound,
            bound == (if i == 0 {
                1int
            } else if i == 1 {
                0x1_0000
            } else if i == 2 {
                0x1_0000_0000
            } else if i == 3 {
                0x1_0000_0000_0000
            } else if i == 4 {
                0x1_0000_0000_0000_0000
            } else if i == 5 {
                0x1_0000_0000_0000_0000_0000
            } else if i == 6 {
                0x1_0000_0000_0000_0000_0000_0000
            } else if i == 7 {
                0x1_0000_0000_0000_0000_0000_0000_0000
            } else {
                0x1_0000_0000_0000_0000_0000_0000_0000_0000int
            }),
        decreases 8 - i,
    {
        x = x * 0x1_0000 + gs[i] as u128;
        i += 1;
        proof {
            bound = bound * 0x1_0000;
            let head = gs@.subrange(0, i as int);
            assert(head.drop_last() =~= gs@.subrange(0, i - 1));
        }
    }
    assert(gs@.subrange(0, 8) =~= gs@);
    x
}

/// Reads an IPv6 address.
pub fn parse_v6(cs: &[char]) -> (r: Option<u128>)
    ensures
        r == v6_parsed(cs@),
{
    let n: usize = cs.len();
    let k: usize = find_gap(cs);
    if k == n {
        return match parse_groups(cs, true) {
            Some(gs) => {
                if gs.len() == 8 {
                    Some(value_of_groups(gs.as_slice()))
                } else {
                    None
                }
            },
            None => None,
        };
    }
    let left = text::copy_chars(cs, 0, k);
    let right = text::copy_chars(cs, k + 2, n);
    match (parse_side(left.as_slice(), false), parse_side(right.as_slice(), true)) {
        (Some(l), Some(r)) => {
            if l.len() > 7 || r.len() > 7 - l.len() {
                return None;
            }
            let mut gs: Vec<u16> = Vec::new();
            push_all(&mut gs, l.as_slice());
            let gap: usize = 8 - l.len() - r.len();
            let ghost zeros = Seq::new(gap as nat, |i: int| 0u16);
            let mut i: usize = 0;
            while i < gap
                invariant
                    i <= gap,
                    zeros == Seq::new(gap as nat, |i: int| 0u16),
                    gs@ == l@ + zeros.subrange(0, i as int),
                decreases gap - i,
            {
                gs.push(0);
                i += 1;
                assert(gs@ =~= l@ + zeros.subrange(0, i as int));
            }
            push_all(&mut gs, r.as_slice());
            assert(gs@ =~= l@ + zeros + r@);
            Some(value_of_groups(gs.as_slice()))
        },
        _ => None,
    }
}

fn parse_scope(cs: &[char]) -> (r: Option<u32>)
    ensures
        r == scope_parsed(cs@),
{
    if cs.len() == 0 || cs[0] == '+' {
        return None;
    }
    match text::parse_number(cs, 0xFFFF_FFFF) {
        Some(n) => Some(n as u32),
        None => None,
    }
}

fn parse_scoped(cs: &[char]) -> (r: Option<(u128, u32)>)
    ensures
        r == scoped_parsed(cs@),
{
    let n: usize = cs.len();
    let k: usize = text::find_char(cs, 0, '%');
    if k >= n {
        return match parse_v6(cs) {
            Some(x) => Some((x, 0)),
            None => None,
        };
    }
    let ip = text::copy_chars(cs, 0, k);
    let scope = text::copy_chars(cs, k + 1, n);
    match (parse_v6(ip.as_slice()), parse_scope(scope.as_slice())) {
        (Some(x), Some(scope_id)) => Some((x, scope_id)),
        _ => None,
    }
}

/// Reads the address at `port`.
pub fn parse_host(cs: &[char], port: u16) -> (r: Option<SocketAddr>)
    ensures
        r == host_parsed(cs@, port),
{
    let n: usize = cs.len();
    if n >= 2 && cs[0] == '[' && cs[n - 1] == ']' {
        let inner = text::copy_chars(cs, 1, n - 1);
        match parse_scoped(inner.as_slice()) {
            Some((x, scope_id)) => Some(SocketAddr { ip: IpAddr::V6(x), port, scope_id }),
            None => None,
        }
    } else {
        match parse_v4(cs) {
            Some(x) => Some(SocketAddr { ip: IpAddr::V4(x), port, scope_id: 0 }),
            None => None,
        }
    }
}

proof fn lemma_octet(n: nat)
    requires
        n <= 255,
    ensures
        octet_parsed(text::decimal(n)) == Some(n),
{
    text::lemma_decimal(n);
    let cs = text::decimal(n);
    if n < 10 {
        assert(cs.len() == 1);
    } else if n < 100 {
        assert(text::decimal(n / 10).len() == 1);
        assert(cs.len() == 2);
        assert(cs[0] == text::digit_char(n / 10));
    } else {
        assert(text::decimal(n / 100).len() == 1);
        assert(n / 10 / 10 == n / 100);
        assert(text::decimal(n / 10).len() == 2);
        assert(cs.len() == 3);
        assert(text::decimal(n / 10)[0] == text::digit_char(n / 100));
        assert(cs[0] == text::decimal(n / 10)[0]);
    }
}

pub proof fn lemma_first_at(cs: Seq<char>, from: int, to: int, c: char)
    requires
        0 <= from <= to < cs.len(),
        cs[to] == c,
        forall|i: int| from <= i < to ==> cs[i] != c,
    ensures
        text::first_at(cs, from, c) == to,
    decreases to - from,
{
    if from < to {
        lemma_first_at(cs, from + 1, to, c);
    }
}

proof fn lemma_no_dot(n: nat)
    ensures
        forall|i: int| 0 <= i < text::decimal(n).len() ==> text::decimal(n)[i] != '.',
{
    text::lemma_decimal(n);
    let cs = text::decimal(n);
    assert forall|i: int| 0 <= i < cs.len() implies cs[i] != '.' by {
        assert(text::is_digit(cs[i]));
    }
}

pub proof fn lemma_octets(x: u32)
    ensures
        octet(x, 0) <= 255,
        octet(x, 1) <= 255,
        octet(x, 2) <= 255,
        octet(x, 3) <= 255,
        octet(x, 0) * 0x100_0000 + octet(x, 1) * 0x1_0000 + octet(x, 2) * 0x100 + octet(x, 3) == x,
{
    let a = x / 0x100;
    let b = x / 0x1_0000;
    let c = x / 0x100_0000;
    assert(b == a / 256);
    assert(c == b / 256);
    assert(x == a * 256 + x % 256);
    assert(a == b * 256 + a % 256);
    assert(b == c * 256 + b % 256);
}

/// The text of an IPv4 address is read back as the address.
pub proof fn law_v4_text(x: u32)
    ensures
        v4_parsed(v4_text(x)) == Some(x),
        text::is_word(v4_text(x)),
{
    let p = text::decimal(octet(x, 0));
    let q = text::decimal(octet(x, 1));
    let s = text::decimal(octet(x, 2));
    let t = text::decimal(octet(x, 3));
    let cs = v4_text(x);
    let a = p.len() as int;
    let b = a + 1 + q.len();
    let c = b + 1 + s.len();
    let n = cs.len() as int;
    lemma_octets(x);
    lemma_no_dot(octet(x, 0));
    lemma_no_dot(octet(x, 1));
    lemma_no_dot(octet(x, 2));
    assert(n == c + 1 + t.len());
    assert(cs.subrange(0, a) =~= p);
    assert(cs.subrange(a + 1, b) =~= q);
    assert(cs.subrange(b + 1, c) =~= s);
    assert(cs.subrange(c + 1, n) =~= t);
    assert(cs[a] == '.' && cs[b] == '.' && cs[c] == '.');
    assert forall|i: int| 0 <= i < a implies cs[i] != '.' by {
        assert(cs[i] == p[i]);
    }
    assert forall|i: int| a + 1 <= i < b implies cs[i] != '.' by {
        assert(cs[i] == q[i - a - 1]);
    }
    assert forall|i: int| b + 1 <= i < c implies cs[i] != '.' by {
        assert(cs[i] == s[i - b - 1]);
    }
    text::lemma_decimal(octet(x, 0));
    text::lemma_decimal(octet(x, 1));
    text::lemma_decimal(octet(x, 2));
    text::lemma_decimal(octet(x, 3));
    lemma_first_at(cs, 0, a, '.');
    lemma_first_at(cs, a + 1, b, '.');
    lemma_first_at(cs, b + 1, c, '.');
    lemma_octet(octet(x, 0));
    lemma_octet(octet(x, 1));
    lemma_octet(octet(x, 2));
    lemma_octet(octet(x, 3));
    assert forall|i: int| 0 <= i < cs.len() implies !text::is_space(#[trigger] cs[i]) by {
        if i < a {
            assert(cs[i] == p[i]);
        } else if i == a || i == b || i == c {
        } else if i < b {
            assert(cs[i] == q[i - a - 1]);
        } else if i < c {
            assert(cs[i] == s[i - b - 1]);
        } else {
            assert(cs[i] == t[i - c - 1]);
        }
    }
}

proof fn lemma_hex_number_word(n: nat)
    ensures
        text::is_word(hex_number(n)),
    decreases n,
{
    if n >= 16 {
        lemma_hex_number_word(n / 16);
        let head = hex_number(n / 16);
        assert forall|i: int| 0 <= i < hex_number(n).len() implies !text::is_space(
            #[trigger] hex_number(n)[i],
        ) by {
            if i < head.len() {
                assert(hex_number(n)[i] == head[i]);
            }
        }
    }
}

proof fn lemma_group_text_word(gs: Seq<u16>)
    requires
        gs.len() > 0,
    ensures
        text::is_word(group_text(gs)),
    decreases gs.len(),
{
    lemma_hex_number_word(gs.last() as nat);
    if gs.len() > 1 {
        let head = group_text(gs.drop_last());
        let tail = hex_number(gs.last() as nat);
        lemma_group_text_word(gs.drop_last());
        assert forall|i: int| 0 <= i < group_text(gs).len() implies !text::is_space(
            #[trigger] group_text(gs)[i],
        ) by {
            if i < head.len() {
                assert(group_text(gs)[i] == head[i]);
            } else if i > head.len() {
                assert(group_text(gs)[i] == tail[i - head.len() - 1]);
            }
        }
    }
}

pub proof fn lemma_zeros_bound(gs: Seq<u16>, i: int)
    requires
        0 <= i <= gs.len(),
    ensures
        i + zeros_from(gs, i) <= gs.len(),
    decreases gs.len() - i,
{
    if i < gs.len() {
        lemma_zeros_bound(gs, i + 1);
    }
}

pub proof fn lemma_longest_bound(gs: Seq<u16>, n: nat)
    ensures
        0 <= longest_zeros(gs, n),
        n > 0 ==> longest_zeros(gs, n) < n,
        longest_zeros(gs, n) <= n,
    decreases n,
{
    if n > 1 {
        lemma_longest_bound(gs, (n - 1) as nat);
    }
}

/// The text of an address holds no space.
pub proof fn lemma_ip_word(ip: IpAddr)
    ensures
        text::is_word(ip.text()),
{
    match ip {
        IpAddr::V4(x) => law_v4_text(x),
        IpAddr::V6(x) => {
            let gs = groups(x);
            let start = longest_zeros(gs, 8);
            let len = zeros_from(gs, start);
            lemma_longest_bound(gs, 8);
            lemma_zeros_bound(gs, start);
            let w = ip.text();
            if x / 0x1_0000_0000 == 0xFFFF {
                reveal_strlit("::ffff:");
                let tail = v4_text((x % 0x1_0000_0000) as u32);
                law_v4_text((x % 0x1_0000_0000) as u32);
                assert forall|i: int| 0 <= i < w.len() implies !text::is_space(
                    #[trigger] w[i],
                ) by {
                    if i >= 7 {
                        assert(w[i] == tail[i - 7]);
                    }
                }
            } else if len > 1 {
                reveal_strlit("::");
                let before = gs.subrange(0, start);
                let after = gs.subrange(start + len, 8);
                if before.len() > 0 {
                    lemma_group_text_word(before);
                }
                if after.len() > 0 {
                    lemma_group_text_word(after);
                }
                let a = group_text(before).len();
                assert forall|i: int| 0 <= i < w.len() implies !text::is_space(
                    #[trigger] w[i],
                ) by {
                    if i < a {
                        assert(w[i] == group_text(before)[i]);
                    } else if i >= a + 2 {
                        assert(w[i] == group_text(after)[i - a - 2]);
                    }
                }
            } else {
                lemma_group_text_word(gs);
            }
        },
    }
}

/// Reads an address.
pub fn parse_bare(cs: &[char]) -> (r: Option<IpAddr>)
    ensures
        r == bare_parsed(cs@),
{
    match parse_v4(cs) {
        Some(x) => Some(IpAddr::V4(x)),
        None => match parse_v6(cs) {
            Some(x) => Some(IpAddr::V6(x)),
            None => None,
        },
    }
}

} // verus!
