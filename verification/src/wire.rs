//! Big-endian integers on byte sequences.
use vstd::prelude::*;

verus! {

/// The 16-bit integer that starts at `at`.
pub open spec fn be16(s: Seq<u8>, at: int) -> u16 {
    (s[at] * 256 + s[at + 1]) as u16
}

/// The 24-bit integer that starts at `at`.
pub open spec fn be24(s: Seq<u8>, at: int) -> u32 {
    (s[at] * 0x1_0000 + s[at + 1] * 0x100 + s[at + 2]) as u32
}

/// The 32-bit integer that starts at `at`.
pub open spec fn be32(s: Seq<u8>, at: int) -> u32 {
    (s[at] * 0x100_0000 + s[at + 1] * 0x1_0000 + s[at + 2] * 0x100 + s[at + 3]) as u32
}

/// The 64-bit integer that starts at `at`.
pub open spec fn be64(s: Seq<u8>, at: int) -> u64 {
    (be32(s, at) * 0x1_0000_0000 + be32(s, at + 4)) as u64
}

/// The two bytes of `x`.
pub open spec fn enc16(x: u16) -> Seq<u8> {
    seq![(x / 256) as u8, (x % 256) as u8]
}

/// The low three bytes of `x`.
pub open spec fn enc24(x: u32) -> Seq<u8> {
    seq![((x / 0x1_0000) % 256) as u8, ((x / 0x100) % 256) as u8, (x % 256) as u8]
}

/// The four bytes of `x`.
pub open spec fn enc32(x: u32) -> Seq<u8> {
    seq![
        (x / 0x100_0000) as u8,
        ((x / 0x1_0000) % 256) as u8,
        ((x / 0x100) % 256) as u8,
        (x % 256) as u8,
    ]
}

/// The eight bytes of `x`.
pub open spec fn enc64(x: u64) -> Seq<u8> {
    enc32((x / 0x1_0000_0000) as u32) + enc32((x % 0x1_0000_0000) as u32)
}

/// The 32-bit integers `xs`, one after the other.
pub open spec fn enc32s(xs: Seq<u32>) -> Seq<u8>
    decreases xs.len(),
{
    if xs.len() == 0 {
        seq![]
    } else {
        enc32s(xs.drop_last()) + enc32(xs.last())
    }
}

/// `n` consecutive 32-bit integers, of which the first starts at `at`.
pub open spec fn be32s(s: Seq<u8>, at: int, n: nat) -> Seq<u32> {
    Seq::new(n, |i: int| be32(s, at + 4 * i))
}

/// `n` copies of the byte `b`.
pub open spec fn repeated(b: u8, n: nat) -> Seq<u8> {
    Seq::new(n, |i: int| b)
}

/// Reading back a written 16-bit integer.
pub proof fn lemma_be16_enc16(s: Seq<u8>, at: int, x: u16)
    requires
        0 <= at,
        at + 2 <= s.len(),
        s.subrange(at, at + 2) == enc16(x),
    ensures
        be16(s, at) == x,
{
    assert(s[at] == s.subrange(at, at + 2)[0]);
    assert(s[at + 1] == s.subrange(at, at + 2)[1]);
}

/// Reading back a written 24-bit integer.
pub proof fn lemma_be24_enc24(s: Seq<u8>, at: int, x: u32)
    requires
        0 <= at,
        at + 3 <= s.len(),
        x < 0x100_0000,
        s.subrange(at, at + 3) == enc24(x),
    ensures
        be24(s, at) == x,
{
    let w = s.subrange(at, at + 3);
    assert(s[at] == w[0]);
    assert(s[at + 1] == w[1]);
    assert(s[at + 2] == w[2]);
}

/// Reading back a written 32-bit integer.
pub proof fn lemma_be32_enc32(s: Seq<u8>, at: int, x: u32)
    requires
        0 <= at,
        at + 4 <= s.len(),
        s.subrange(at, at + 4) == enc32(x),
    ensures
        be32(s, at) == x,
{
    let w = s.subrange(at, at + 4);
    assert(s[at] == w[0]);
    assert(s[at + 1] == w[1]);
    assert(s[at + 2] == w[2]);
    assert(s[at + 3] == w[3]);
}

/// Reading back a written 64-bit integer.
pub proof fn lemma_be64_enc64(s: Seq<u8>, at: int, x: u64)
    requires
        0 <= at,
        at + 8 <= s.len(),
        s.subrange(at, at + 8) == enc64(x),
    ensures
        be64(s, at) == x,
{
    let w = s.subrange(at, at + 8);
    let high = (x / 0x1_0000_0000) as u32;
    let low = (x % 0x1_0000_0000) as u32;
    assert(s.subrange(at, at + 4) =~= w.subrange(0, 4));
    assert(w.subrange(0, 4) =~= enc32(high));
    assert(s.subrange(at + 4, at + 8) =~= w.subrange(4, 8));
    assert(w.subrange(4, 8) =~= enc32(low));
    lemma_be32_enc32(s, at, high);
    lemma_be32_enc32(s, at + 4, low);
}

/// Writing back the 16-bit integer that was read.
pub proof fn lemma_enc16_be16(s: Seq<u8>, at: int)
    requires
        0 <= at,
        at + 2 <= s.len(),
    ensures
        enc16(be16(s, at)) == s.subrange(at, at + 2),
{
    assert(enc16(be16(s, at)) =~= s.subrange(at, at + 2));
}

/// Writing back the 32-bit integer that was read.
pub proof fn lemma_enc32_be32(s: Seq<u8>, at: int)
    requires
        0 <= at,
        at + 4 <= s.len(),
    ensures
        enc32(be32(s, at)) == s.subrange(at, at + 4),
{
    lemma_digits(s[at], s[at + 1], s[at + 2], s[at + 3]);
    assert(enc32(be32(s, at)) =~= s.subrange(at, at + 4));
}

proof fn lemma_digits(a: u8, b: u8, c: u8, d: u8)
    ensures
        ({
            let x = (a * 0x100_0000 + b * 0x1_0000 + c * 0x100 + d) as u32;
            &&& x / 0x100_0000 == a
            &&& (x / 0x1_0000) % 256 == b
            &&& (x / 0x100) % 256 == c
            &&& x % 256 == d
        }),
{
    let x = (a * 0x100_0000 + b * 0x1_0000 + c * 0x100 + d) as u32;
    assert(x / 0x100_0000 == a);
    assert(x / 0x1_0000 == a * 256 + b);
    assert(x / 0x100 == a * 0x1_0000 + b * 256 + c);
    assert(x % 256 == d);
}

/// Reading back a list of written 32-bit integers.
pub proof fn lemma_be32s_enc32s(s: Seq<u8>, at: int, xs: Seq<u32>)
    requires
        0 <= at,
        at + 4 * xs.len() <= s.len(),
        s.subrange(at, at + 4 * xs.len()) == enc32s(xs),
    ensures
        be32s(s, at, xs.len()) == xs,
    decreases xs.len(),
{
    lemma_enc32s_len(xs);
    if xs.len() > 0 {
        let n = xs.len() - 1;
        let head = xs.drop_last();
        lemma_enc32s_len(head);
        let w = s.subrange(at, at + 4 * xs.len());
        assert(s.subrange(at, at + 4 * n) =~= w.subrange(0, 4 * n));
        assert(w.subrange(0, 4 * n) =~= enc32s(head));
        assert(s.subrange(at + 4 * n, at + 4 * n + 4) =~= w.subrange(4 * n, 4 * n + 4));
        assert(w.subrange(4 * n, 4 * n + 4) =~= enc32(xs.last()));
        lemma_be32s_enc32s(s, at, head);
        lemma_be32_enc32(s, at + 4 * n, xs.last());
        assert forall|i: int| 0 <= i < xs.len() implies be32s(s, at, xs.len())[i] == xs[i] by {
            if i < n {
                assert(be32s(s, at, head.len())[i] == head[i]);
            }
        }
    }
    assert(be32s(s, at, xs.len()) =~= xs);
}

/// Writing back the list of 32-bit integers that was read.
pub proof fn lemma_enc32s_be32s(s: Seq<u8>, at: int, n: nat)
    requires
        0 <= at,
        at + 4 * n <= s.len(),
    ensures
        enc32s(be32s(s, at, n)) == s.subrange(at, at + 4 * n),
    decreases n,
{
    if n == 0 {
        assert(enc32s(be32s(s, at, n)) =~= s.subrange(at, at + 4 * n));
    } else {
        let m = (n - 1) as nat;
        lemma_enc32s_be32s(s, at, m);
        lemma_enc32_be32(s, at + 4 * m);
        assert(be32s(s, at, n).drop_last() =~= be32s(s, at, m));
        assert(enc32s(be32s(s, at, n)) =~= s.subrange(at, at + 4 * n));
    }
}

/// A list of `n` 32-bit integers takes `4 * n` bytes.
pub proof fn lemma_enc32s_len(xs: Seq<u32>)
    ensures
        enc32s(xs).len() == 4 * xs.len(),
    decreases xs.len(),
{
    if xs.len() > 0 {
        lemma_enc32s_len(xs.drop_last());
    }
}

/// Two adjacent ranges make up the range that spans both.
pub proof fn lemma_glue(s: Seq<u8>, a: int, b: int, c: int)
    requires
        0 <= a <= b <= c <= s.len(),
    ensures
        s.subrange(a, b) + s.subrange(b, c) == s.subrange(a, c),
{
    assert(s.subrange(a, b) + s.subrange(b, c) =~= s.subrange(a, c));
}

/// Reads the 16-bit integer at `at`.
pub fn get_u16(buf: &[u8], at: usize) -> (x: u16)
    requires
        at + 2 <= buf@.len(),
    ensures
        x == be16(buf@, at as int),
{
    (buf[at] as u16) * 256 + buf[at + 1] as u16
}

/// Reads the 24-bit integer at `at`.
pub fn get_u24(buf: &[u8], at: usize) -> (x: u32)
    requires
        at + 3 <= buf@.len(),
    ensures
        x == be24(buf@, at as int),
{
    (buf[at] as u32) * 0x1_0000 + (buf[at + 1] as u32) * 0x100 + buf[at + 2] as u32
}

/// Reads the 32-bit integer at `at`.
pub fn get_u32(buf: &[u8], at: usize) -> (x: u32)
    requires
        at + 4 <= buf@.len(),
    ensures
        x == be32(buf@, at as int),
{
    (buf[at] as u32) * 0x100_0000 + (buf[at + 1] as u32) * 0x1_0000 + (buf[at + 2] as u32) * 0x100
        + buf[at + 3] as u32
}

/// Reads the 64-bit integer at `at`.
pub fn get_u64(buf: &[u8], at: usize) -> (x: u64)
    requires
        at + 8 <= buf@.len(),
    ensures
        x == be64(buf@, at as int),
{
    let n: usize = buf.len();
    assert(at + 4 <= n);
    (get_u32(buf, at) as u64) * 0x1_0000_0000 + get_u32(buf, at + 4) as u64
}

/// Reads `count` consecutive 32-bit integers from `at` on.
pub fn get_u32s(buf: &[u8], at: usize, count: usize) -> (xs: Vec<u32>)
    requires
        at + 4 * count <= buf@.len(),
    ensures
        xs@ == be32s(buf@, at as int, count as nat),
{
    let n: usize = buf.len();
    let mut xs: Vec<u32> = Vec::new();
    let mut i: usize = 0;
    let mut pos: usize = at;
    while i < count
        invariant
            n == buf@.len(),
            i <= count,
            pos == at + 4 * i,
            at + 4 * count <= n,
            xs@ == be32s(buf@, at as int, i as nat),
        decreases count - i,
    {
        xs.push(get_u32(buf, pos));
        pos += 4;
        i += 1;
        assert(xs@ =~= be32s(buf@, at as int, i as nat));
    }
    assert(xs@ =~= be32s(buf@, at as int, count as nat));
    xs
}

/// Appends a 16-bit integer.
pub fn put_u16(out: &mut Vec<u8>, x: u16)
    ensures
        final(out)@ == old(out)@ + enc16(x),
{
    out.push((x / 256) as u8);
    out.push((x % 256) as u8);
    assert(out@ =~= old(out)@ + enc16(x));
}

/// Appends the low three bytes of an integer.
pub fn put_u24(out: &mut Vec<u8>, x: u32)
    ensures
        final(out)@ == old(out)@ + enc24(x),
{
    out.push(((x / 0x1_0000) % 256) as u8);
    out.push(((x / 0x100) % 256) as u8);
    out.push((x % 256) as u8);
    assert(out@ =~= old(out)@ + enc24(x));
}

/// Appends a 32-bit integer.
pub fn put_u32(out: &mut Vec<u8>, x: u32)
    ensures
        final(out)@ == old(out)@ + enc32(x),
{
    out.push((x / 0x100_0000) as u8);
    out.push(((x / 0x1_0000) % 256) as u8);
    out.push(((x / 0x100) % 256) as u8);
    out.push((x % 256) as u8);
    assert(out@ =~= old(out)@ + enc32(x));
}

/// Appends a list of 32-bit integers.
pub fn put_u32s(out: &mut Vec<u8>, xs: &[u32])
    ensures
        final(out)@ == old(out)@ + enc32s(xs@),
{
    let n: usize = xs.len();
    let mut i: usize = 0;
    assert(out@ =~= old(out)@ + enc32s(xs@.subrange(0, 0)));
    while i < n
        invariant
            n == xs@.len(),
            i <= n,
            out@ == old(out)@ + enc32s(xs@.subrange(0, i as int)),
        decreases n - i,
    {
        put_u32(out, xs[i]);
        i += 1;
        let ghost head = xs@.subrange(0, i as int);
        assert(head.drop_last() =~= xs@.subrange(0, i - 1));
        assert(out@ =~= old(out)@ + enc32s(head));
    }
    assert(xs@.subrange(0, n as int) =~= xs@);
}

/// Appends a 64-bit integer.
pub fn put_u64(out: &mut Vec<u8>, x: u64)
    ensures
        final(out)@ == old(out)@ + enc64(x),
{
    put_u32(out, (x / 0x1_0000_0000) as u32);
    put_u32(out, (x % 0x1_0000_0000) as u32);
    assert(out@ =~= old(out)@ + enc64(x));
}

/// Appends a byte string.
pub fn put_bytes(out: &mut Vec<u8>, bytes: &[u8])
    ensures
        final(out)@ == old(out)@ + bytes@,
{
    let n: usize = bytes.len();
    let mut i: usize = 0;
    while i < n
        invariant
            n == bytes@.len(),
            i <= n,
            out@ == old(out)@ + bytes@.subrange(0, i as int),
        decreases n - i,
    {
        out.push(bytes[i]);
        i += 1;
        assert(out@ =~= old(out)@ + bytes@.subrange(0, i as int));
    }
    assert(bytes@.subrange(0, n as int) =~= bytes@);
}

/// Appends `count` copies of a byte.
pub fn put_repeated(out: &mut Vec<u8>, byte: u8, count: usize)
    ensures
        final(out)@ == old(out)@ + repeated(byte, count as nat),
{
    let mut i: usize = 0;
    while i < count
        invariant
            i <= count,
            out@ == old(out)@ + repeated(byte, i as nat),
        decreases count - i,
    {
        out.push(byte);
        i += 1;
        assert(out@ =~= old(out)@ + repeated(byte, i as nat));
    }
}

/// Copies the bytes from `start` up to `end`.
pub fn copy_range(buf: &[u8], start: usize, end: usize) -> (out: Vec<u8>)
    requires
        start <= end <= buf@.len(),
    ensures
        out@ == buf@.subrange(start as int, end as int),
{
    let mut out: Vec<u8> = Vec::new();
    let mut i: usize = start;
    while i < end
        invariant
            start <= i <= end <= buf@.len(),
            out@ == buf@.subrange(start as int, i as int),
        decreases end - i,
    {
        out.push(buf[i]);
        i += 1;
        assert(out@ =~= buf@.subrange(start as int, i as int));
    }
    out
}

/// Whether two byte strings are equal.
pub fn bytes_eq(a: &[u8], b: &[u8]) -> (r: bool)
    ensures
        r == (a@ == b@),
{
    if a.len() != b.len() {
        return false;
    }
    let mut i: usize = 0;
    while i < a.len()
        invariant
            i <= a@.len() == b@.len(),
            forall|j: int| 0 <= j < i ==> a@[j] == b@[j],
        decreases a@.len() - i,
    {
        if a[i] != b[i] {
            return false;
        }
        i += 1;
    }
    assert(a@ =~= b@);
    true
}

} // verus!
