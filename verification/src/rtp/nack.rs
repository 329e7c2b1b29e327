//! The lost packets of a generic NACK (RFC 4585), as packet identifiers with bitmasks.
use vstd::prelude::*;

verus! {

/// Whether bit `k` of `x` is set.
pub open spec fn bit16(x: u16, k: u16) -> bool {
    (x >> k) & 1 == 1
}

/// Every 16-bit number, in order.
pub open spec fn all_u16() -> Seq<u16> {
    Seq::new(0x1_0000, |i: int| i as u16)
}

/// The numbers that occur in `xs`, each once, in ascending order.
pub open spec fn ascending(xs: Seq<u16>) -> Seq<u16> {
    all_u16().filter(|x: u16| xs.contains(x))
}

/// Whether each number is greater than the one before.
pub open spec fn increasing(xs: Seq<u16>) -> bool {
    forall|i: int, j: int| 0 <= i < j < xs.len() ==> xs[i] < xs[j]
}

/// How many numbers at the front of `xs` one pair covers: the first, and those at most sixteen
/// above it.
pub open spec fn chunk_len(xs: Seq<u16>) -> nat
    decreases xs.len(),
{
    if xs.len() <= 1 {
        xs.len()
    } else if xs.last() - xs[0] <= 16 {
        xs.len()
    } else {
        chunk_len(xs.drop_last())
    }
}

/// The bitmask for `xs` above `pid`: bit `k` is set when `pid + k + 1` occurs in `xs`.
pub open spec fn is_mask(pid: u16, xs: Seq<u16>, blp: u16) -> bool {
    forall|k: u16| #![trigger bit16(blp, k)]
        k < 16 ==> (bit16(blp, k) <==> pid + k + 1 <= 0xFFFF && xs.contains((pid + k + 1) as u16))
}

/// The bitmask with bit `k` set for each `k` below `n` such that `pid + k + 1` occurs in `xs`.
pub open spec fn mask_of(pid: u16, xs: Seq<u16>, n: nat) -> u16
    decreases n,
{
    if n == 0 {
        0
    } else {
        let low = mask_of(pid, xs, (n - 1) as nat);
        if pid + n <= 0xFFFF && xs.contains((pid + n) as u16) {
            low | (1u16 << ((n - 1) as u16))
        } else {
            low
        }
    }
}

/// The pairs for the ascending numbers `xs`: every pair starts at the first number that is not
/// covered yet and takes in every number at most sixteen above it.
pub open spec fn nack_pairs(xs: Seq<u16>) -> Seq<(u16, u16)>
    decreases xs.len(),
{
    if xs.len() == 0 {
        seq![]
    } else {
        proof {
            lemma_chunk_bounds(xs);
        }
        let n = chunk_len(xs) as int;
        seq![(xs[0], mask_of(xs[0], xs.subrange(1, n), 16))] + nack_pairs(
            xs.subrange(n, xs.len() as int),
        )
    }
}

/// A pair covers at least one number, and no more than there are.
pub proof fn lemma_chunk_bounds(xs: Seq<u16>)
    requires
        xs.len() > 0,
    ensures
        1 <= chunk_len(xs) <= xs.len(),
    decreases xs.len(),
{
    if xs.len() > 1 {
        lemma_chunk_bounds(xs.drop_last());
    }
}

/// Whether `pairs` covers the ascending numbers `xs` greedily: every pair starts at the first
/// number that is not covered yet and takes in every number at most sixteen above it.
pub open spec fn covers(pairs: Seq<(u16, u16)>, xs: Seq<u16>) -> bool
    decreases pairs.len(),
{
    if pairs.len() == 0 {
        xs.len() == 0
    } else {
        let n = chunk_len(xs) as int;
        &&& xs.len() > 0
        &&& pairs[0].0 == xs[0]
        &&& is_mask(xs[0], xs.subrange(1, n), pairs[0].1)
        &&& covers(pairs.drop_first(), xs.subrange(n, xs.len() as int))
    }
}

/// The numbers that the low `n` bits of `blp` add to `pid`.
pub open spec fn mask_list(pid: u16, blp: u16, n: nat) -> Seq<u16>
    decreases n,
{
    if n == 0 {
        seq![]
    } else {
        let head = mask_list(pid, blp, (n - 1) as nat);
        if bit16(blp, (n - 1) as u16) {
            head.push(((pid + n) % 0x1_0000) as u16)
        } else {
            head
        }
    }
}

/// The numbers that the pairs stand for, in the order of the pairs.
pub open spec fn pair_numbers(pairs: Seq<(u16, u16)>) -> Seq<u16>
    decreases pairs.len(),
{
    if pairs.len() == 0 {
        seq![]
    } else {
        seq![pairs[0].0] + mask_list(pairs[0].0, pairs[0].1, 16) + pair_numbers(
            pairs.drop_first(),
        )
    }
}

proof fn lemma_or_bit(x: u16, k: u16, j: u16)
    by (bit_vector)
    requires
        k < 16,
        j < 16,
    ensures
        ((x | (1u16 << k)) >> j) & 1 == 1 <==> (j == k || (x >> j) & 1 == 1),
{
}

proof fn lemma_zero_bit(j: u16)
    by (bit_vector)
    requires
        j < 16,
    ensures
        (0u16 >> j) & 1 != 1,
{
}

proof fn lemma_same_bits(x: u16, y: u16)
    by (bit_vector)
    requires
        (x >> 0u16) & 1 == (y >> 0u16) & 1,
        (x >> 1u16) & 1 == (y >> 1u16) & 1,
        (x >> 2u16) & 1 == (y >> 2u16) & 1,
        (x >> 3u16) & 1 == (y >> 3u16) & 1,
        (x >> 4u16) & 1 == (y >> 4u16) & 1,
        (x >> 5u16) & 1 == (y >> 5u16) & 1,
        (x >> 6u16) & 1 == (y >> 6u16) & 1,
        (x >> 7u16) & 1 == (y >> 7u16) & 1,
        (x >> 8u16) & 1 == (y >> 8u16) & 1,
        (x >> 9u16) & 1 == (y >> 9u16) & 1,
        (x >> 10u16) & 1 == (y >> 10u16) & 1,
        (x >> 11u16) & 1 == (y >> 11u16) & 1,
        (x >> 12u16) & 1 == (y >> 12u16) & 1,
        (x >> 13u16) & 1 == (y >> 13u16) & 1,
        (x >> 14u16) & 1 == (y >> 14u16) & 1,
        (x >> 15u16) & 1 == (y >> 15u16) & 1,
    ensures
        x == y,
{
}

proof fn lemma_one_bit(x: u16, k: u16)
    by (bit_vector)
    ensures
        (x >> k) & 1 == 1 || (x >> k) & 1 == 0,
{
}

proof fn lemma_mask_of(pid: u16, xs: Seq<u16>, n: nat)
    requires
        n <= 16,
    ensures
        forall|k: u16| #![trigger bit16(mask_of(pid, xs, n), k)]
            k < 16 ==> (bit16(mask_of(pid, xs, n), k) <==> k < n && pid + k + 1 <= 0xFFFF
                && xs.contains((pid + k + 1) as u16)),
    decreases n,
{
    if n == 0 {
        assert forall|k: u16| #![trigger bit16(mask_of(pid, xs, n), k)] k < 16 implies !bit16(
            mask_of(pid, xs, n),
            k,
        ) by {
            lemma_zero_bit(k);
        }
    } else {
        let m = (n - 1) as nat;
        let low = mask_of(pid, xs, m);
        lemma_mask_of(pid, xs, m);
        assert forall|k: u16| #![trigger bit16(mask_of(pid, xs, n), k)] k < 16 implies (bit16(
            mask_of(pid, xs, n),
            k,
        ) <==> k < n && pid + k + 1 <= 0xFFFF && xs.contains((pid + k + 1) as u16)) by {
            assert(bit16(low, k) <==> k < m && pid + k + 1 <= 0xFFFF && xs.contains(
                (pid + k + 1) as u16,
            ));
            lemma_or_bit(low, m as u16, k);
        }
    }
}

proof fn lemma_mask_unique(pid: u16, xs: Seq<u16>, blp: u16)
    requires
        is_mask(pid, xs, blp),
    ensures
        blp == mask_of(pid, xs, 16),
{
    let m = mask_of(pid, xs, 16);
    lemma_mask_of(pid, xs, 16);
    assert forall|k: u16| k < 16 implies (#[trigger] (blp >> k)) & 1 == (m >> k) & 1 by {
        assert(bit16(blp, k) <==> bit16(m, k));
        lemma_one_bit(blp, k);
        lemma_one_bit(m, k);
    }
    lemma_same_bits(blp, m);
}

proof fn lemma_covers_unique(pairs: Seq<(u16, u16)>, xs: Seq<u16>)
    requires
        covers(pairs, xs),
    ensures
        pairs == nack_pairs(xs),
    decreases pairs.len(),
{
    if pairs.len() > 0 {
        let n = chunk_len(xs) as int;
        lemma_covers_unique(pairs.drop_first(), xs.subrange(n, xs.len() as int));
        lemma_mask_unique(xs[0], xs.subrange(1, n), pairs[0].1);
        assert(pairs =~= seq![pairs[0]] + pairs.drop_first());
    }
}

proof fn lemma_pairs_cover(xs: Seq<u16>)
    ensures
        covers(nack_pairs(xs), xs),
    decreases xs.len(),
{
    if xs.len() > 0 {
        lemma_chunk_bounds(xs);
        let n = chunk_len(xs) as int;
        let rest = xs.subrange(n, xs.len() as int);
        lemma_pairs_cover(rest);
        lemma_mask_of(xs[0], xs.subrange(1, n), 16);
        assert(nack_pairs(xs).drop_first() =~= nack_pairs(rest));
    }
}

/// Two ascending lists of the same numbers are the same list.
pub proof fn lemma_increasing_unique(a: Seq<u16>, b: Seq<u16>)
    requires
        increasing(a),
        increasing(b),
        forall|x: u16| a.contains(x) <==> b.contains(x),
    ensures
        a == b,
    decreases a.len(),
{
    if a.len() == 0 {
        if b.len() > 0 {
            assert(b.contains(b[0]));
        }
        assert(a =~= b);
    } else {
        assert(a.contains(a.last()));
        assert(b.len() > 0);
        assert(b.contains(b.last()));
        let i = choose|i: int| 0 <= i < b.len() && b[i] == a.last();
        let j = choose|j: int| 0 <= j < a.len() && a[j] == b.last();
        assert(a.last() <= b.last());
        assert(b.last() <= a.last());
        let p = a.drop_last();
        let q = b.drop_last();
        assert forall|x: u16| p.contains(x) <==> q.contains(x) by {
            if p.contains(x) {
                let k = choose|k: int| 0 <= k < p.len() && p[k] == x;
                assert(a[k] == x);
                assert(a.contains(x));
                let m = choose|m: int| 0 <= m < b.len() && b[m] == x;
                assert(x < a.last());
                assert(q[m] == x);
            }
            if q.contains(x) {
                let k = choose|k: int| 0 <= k < q.len() && q[k] == x;
                assert(b[k] == x);
                assert(b.contains(x));
                let m = choose|m: int| 0 <= m < a.len() && a[m] == x;
                assert(x < b.last());
                assert(p[m] == x);
            }
        }
        lemma_increasing_unique(p, q);
        assert(a =~= p.push(a.last()));
        assert(b =~= q.push(b.last()));
    }
}

proof fn lemma_filter_increasing(s: Seq<u16>, f: spec_fn(u16) -> bool)
    requires
        increasing(s),
    ensures
        increasing(s.filter(f)),
        forall|x: u16| s.filter(f).contains(x) <==> s.contains(x) && f(x),
    decreases s.len(),
{
    reveal(Seq::filter);
    if s.len() > 0 {
        let t = s.drop_last();
        lemma_filter_increasing(t, f);
        let g = t.filter(f);
        assert(s.filter(f) =~= if f(s.last()) {
            g.push(s.last())
        } else {
            g
        });
        assert forall|x: u16| s.filter(f).contains(x) <==> s.contains(x) && f(x) by {
            if s.contains(x) && f(x) {
                let i = choose|i: int| 0 <= i < s.len() && s[i] == x;
                if i < s.len() - 1 {
                    assert(t[i] == x);
                    assert(g.contains(x));
                    let k = choose|k: int| 0 <= k < g.len() && g[k] == x;
                    assert(s.filter(f)[k] == x);
                } else {
                    assert(s.filter(f).last() == x);
                }
            }
            if s.filter(f).contains(x) {
                let k = choose|k: int| 0 <= k < s.filter(f).len() && s.filter(f)[k] == x;
                if k < g.len() {
                    assert(g[k] == x);
                    assert(g.contains(x));
                    assert(t.contains(x));
                    let i = choose|i: int| 0 <= i < t.len() && t[i] == x;
                    assert(s[i] == x);
                } else {
                    assert(s[s.len() - 1] == x);
                }
            }
        }
        assert forall|i: int, j: int| 0 <= i < j < s.filter(f).len() implies s.filter(f)[i]
            < s.filter(f)[j] by {
            if j == g.len() {
                assert(g[i] == s.filter(f)[i]);
                assert(g.contains(g[i]));
                assert(t.contains(g[i]));
                let k = choose|k: int| 0 <= k < t.len() && t[k] == g[i];
                assert(s[k] == g[i]);
            }
        }
    }
}

/// The ascending list holds each number that occurs, and no other, in ascending order.
pub proof fn lemma_ascending(xs: Seq<u16>)
    ensures
        increasing(ascending(xs)),
        forall|x: u16| ascending(xs).contains(x) <==> xs.contains(x),
{
    let f = |x: u16| xs.contains(x);
    lemma_filter_increasing(all_u16(), f);
    assert forall|x: u16| ascending(xs).contains(x) <==> xs.contains(x) by {
        assert(all_u16()[x as int] == x);
    }
}

pub proof fn lemma_chunk(xs: Seq<u16>)
    requires
        xs.len() > 0,
        increasing(xs),
    ensures
        1 <= chunk_len(xs) <= xs.len(),
        forall|i: int| 0 <= i < chunk_len(xs) ==> #[trigger] xs[i] - xs[0] <= 16,
        chunk_len(xs) < xs.len() ==> xs[chunk_len(xs) as int] - xs[0] > 16,
    decreases xs.len(),
{
    if xs.len() > 1 {
        if xs.last() - xs[0] <= 16 {
            assert forall|i: int| 0 <= i < xs.len() implies #[trigger] xs[i] - xs[0] <= 16 by {
                assert(xs[i] <= xs.last());
            }
        } else {
            let t = xs.drop_last();
            lemma_chunk(t);
            assert forall|i: int| 0 <= i < chunk_len(xs) implies #[trigger] xs[i] - xs[0] <= 16 by {
                assert(t[i] == xs[i]);
            }
            if chunk_len(xs) < t.len() {
                assert(t[chunk_len(xs) as int] == xs[chunk_len(xs) as int]);
            }
        }
    }
}

proof fn lemma_chunk_is(xs: Seq<u16>, n: int)
    requires
        increasing(xs),
        1 <= n <= xs.len(),
        forall|i: int| 0 <= i < n ==> #[trigger] xs[i] - xs[0] <= 16,
        n < xs.len() ==> xs[n] - xs[0] > 16,
    ensures
        chunk_len(xs) == n,
{
    lemma_chunk(xs);
}

proof fn lemma_push_contains(s: Seq<u16>, v: u16)
    ensures
        forall|x: u16| #[trigger] s.push(v).contains(x) <==> (x == v || s.contains(x)),
{
    assert forall|x: u16| #[trigger] s.push(v).contains(x) <==> (x == v || s.contains(x)) by {
        lemma_insert_at(s, s.len() as int, v, x);
        assert(s.insert(s.len() as int, v) =~= s.push(v));
    }
}

proof fn lemma_insert_at(s: Seq<u16>, at: int, v: u16, x: u16)
    requires
        0 <= at <= s.len(),
    ensures
        s.insert(at, v).contains(x) <==> (x == v || s.contains(x)),
{
    let t = s.insert(at, v);
    assert(t[at] == v);
    if s.contains(x) {
        let k = choose|k: int| 0 <= k < s.len() && s[k] == x;
        assert(t[if k < at {
            k
        } else {
            k + 1
        }] == x);
    }
    if t.contains(x) && x != v {
        let k = choose|k: int| 0 <= k < t.len() && t[k] == x;
        assert(s[if k < at {
            k
        } else {
            k - 1
        }] == x);
    }
}

proof fn lemma_mask_list(pid: u16, xs: Seq<u16>, blp: u16, n: nat)
    requires
        n <= 16,
        is_mask(pid, xs, blp),
    ensures
        increasing(mask_list(pid, blp, n)),
        forall|x: u16| #[trigger]
            mask_list(pid, blp, n).contains(x) <==> (pid < x <= pid + n && xs.contains(x)),
    decreases n,
{
    if n > 0 {
        let m = (n - 1) as nat;
        let k = m as u16;
        lemma_mask_list(pid, xs, blp, m);
        let head = mask_list(pid, blp, m);
        let list = mask_list(pid, blp, n);
        let next = ((pid + n) % 0x1_0000) as u16;
        assert(bit16(blp, k) <==> pid + n <= 0xFFFF && xs.contains((pid + n) as u16));
        lemma_push_contains(head, next);
        assert forall|x: u16| #[trigger] list.contains(x) <==> (pid < x <= pid + n && xs.contains(x)) by {
            assert(head.contains(x) <==> (pid < x <= pid + m && xs.contains(x)));
            assert(head.push(next).contains(x) <==> (x == next || head.contains(x)));
        }
        assert forall|i: int, j: int| 0 <= i < j < list.len() implies list[i] < list[j] by {
            if j == head.len() {
                assert(head.contains(head[i]));
            }
        }
    }
}

/// The pairs that cover an ascending list stand for just the numbers of the list, in order.
pub proof fn lemma_pair_numbers(pairs: Seq<(u16, u16)>, xs: Seq<u16>)
    requires
        increasing(xs),
        covers(pairs, xs),
    ensures
        pair_numbers(pairs) == xs,
    decreases pairs.len(),
{
    if pairs.len() == 0 {
        assert(pair_numbers(pairs) =~= xs);
    } else {
        let n = chunk_len(xs) as int;
        lemma_chunk(xs);
        let pid = xs[0];
        let chunk = xs.subrange(1, n);
        let rest = xs.subrange(n, xs.len() as int);
        lemma_pair_numbers(pairs.drop_first(), rest);
        lemma_mask_list(pid, chunk, pairs[0].1, 16);
        let list = mask_list(pid, pairs[0].1, 16);
        assert forall|x: u16| list.contains(x) <==> chunk.contains(x) by {
            if chunk.contains(x) {
                let i = choose|i: int| 0 <= i < chunk.len() && chunk[i] == x;
                assert(xs[i + 1] == x);
            }
            assert(chunk.contains(x) || !chunk.contains(x));
        }
        lemma_increasing_unique(list, chunk);
        assert(seq![pid] + chunk + rest =~= xs);
    }
}

/// Inserts `x` into an ascending list, unless it is there.
fn insert_ascending(xs: &mut Vec<u16>, x: u16)
    requires
        increasing(old(xs)@),
    ensures
        increasing(final(xs)@),
        forall|y: u16| final(xs)@.contains(y) <==> (y == x || old(xs)@.contains(y)),
{
    let n: usize = xs.len();
    let mut i: usize = 0;
    while i < n && xs[i] < x
        invariant
            xs@ == old(xs)@,
            n == xs@.len(),
            i <= n,
            forall|j: int| 0 <= j < i ==> xs@[j] < x,
        decreases n - i,
    {
        i += 1;
    }
    if i < n && xs[i] == x {
        assert(xs@.contains(x));
        return;
    }
    let ghost before = xs@;
    xs.insert(i, x);
    proof {
        assert forall|y: u16| #[trigger] xs@.contains(y) <==> (y == x || before.contains(y)) by {
            lemma_insert_at(before, i as int, x, y);
        }
    }
}

/// The numbers that occur in `packets`, each once, in ascending order.
pub fn sorted_unique(packets: &[u16]) -> (r: Vec<u16>)
    ensures
        r@ == ascending(packets@),
{
    let n: usize = packets.len();
    let mut seqs: Vec<u16> = Vec::new();
    let mut i: usize = 0;
    while i < n
        invariant
            n == packets@.len(),
            i <= n,
            increasing(seqs@),
            forall|y: u16| seqs@.contains(y) <==> packets@.subrange(0, i as int).contains(y),
        decreases n - i,
    {
        let ghost head = packets@.subrange(0, i as int);
        let x: u16 = packets[i];
        insert_ascending(&mut seqs, x);
        i += 1;
        let ghost longer = packets@.subrange(0, i as int);
        assert(longer =~= head.push(x));
        assert forall|y: u16| longer.contains(y) <==> (y == x || head.contains(y)) by {
            if longer.contains(y) {
                let k = choose|k: int| 0 <= k < longer.len() && longer[k] == y;
                if k < head.len() {
                    assert(head[k] == y);
                }
            }
            if head.contains(y) {
                let k = choose|k: int| 0 <= k < head.len() && head[k] == y;
                assert(longer[k] == y);
            }
            assert(longer.last() == x);
        }
    }
    proof {
        assert(packets@.subrange(0, n as int) =~= packets@);
        lemma_ascending(packets@);
        lemma_increasing_unique(seqs@, ascending(packets@));
    }
    seqs
}

proof fn lemma_covers_append(pairs: Seq<(u16, u16)>, xs: Seq<u16>, at: int, pair: (u16, u16))
    requires
        increasing(xs),
        0 <= at < xs.len(),
        covers(pairs, xs.subrange(0, at)),
        pairs.len() > 0 ==> xs[at] - pairs.last().0 > 16,
        forall|i: int| at <= i < xs.len() ==> #[trigger] xs[i] - xs[at] <= 16,
        pair.0 == xs[at],
        is_mask(xs[at], xs.subrange(at + 1, xs.len() as int), pair.1),
    ensures
        covers(pairs.push(pair), xs),
    decreases pairs.len(),
{
    let all = pairs.push(pair);
    if pairs.len() == 0 {
        assert(at == 0);
        lemma_chunk_is(xs, xs.len() as int);
        assert(all.drop_first() =~= seq![]);
        assert(xs.subrange(xs.len() as int, xs.len() as int) =~= seq![]);
        assert(covers(all.drop_first(), xs.subrange(xs.len() as int, xs.len() as int)));
    } else {
        let head = xs.subrange(0, at);
        let n = chunk_len(head) as int;
        lemma_chunk(head);
        assert(pairs.len() == 1 ==> n == at) by {
            if pairs.len() == 1 {
                assert(covers(pairs.drop_first(), head.subrange(n, at)));
                assert(head.subrange(n, at).len() == 0);
            }
        }
        assert(n < at ==> head[n] == xs[n]);
        assert(n == at ==> pairs.len() == 1) by {
            if n == at && pairs.len() > 1 {
                assert(head.subrange(n, at).len() == 0);
                assert(covers(pairs.drop_first(), head.subrange(n, at)));
            }
        }
        assert(xs[n] - xs[0] > 16);
        assert forall|i: int| 0 <= i < n implies #[trigger] xs[i] - xs[0] <= 16 by {
            assert(head[i] == xs[i]);
        }
        lemma_chunk_is(xs, n);
        assert(xs.subrange(1, n) =~= head.subrange(1, n));
        let rest = xs.subrange(n, xs.len() as int);
        assert(rest.subrange(0, at - n) =~= head.subrange(n, at));
        assert(rest.subrange(at - n + 1, rest.len() as int) =~= xs.subrange(
            at + 1,
            xs.len() as int,
        ));
        lemma_covers_append(pairs.drop_first(), rest, at - n, pair);
        assert(all.drop_first() =~= pairs.drop_first().push(pair));
    }
}

/// Packs the lost packets into pairs of a packet identifier and a bitmask of the sixteen
/// packets that follow it.
pub fn pack_nack_pairs(packets: &[u16]) -> (pairs: Vec<(u16, u16)>)
    ensures
        pairs@ == nack_pairs(ascending(packets@)),
{
    let seqs: Vec<u16> = sorted_unique(packets);
    proof {
        lemma_ascending(packets@);
    }
    let n: usize = seqs.len();
    let mut pairs: Vec<(u16, u16)> = Vec::new();
    let mut idx: usize = 0;
    assert(covers(pairs@, seqs@.subrange(0, 0)));
    while idx < n
        invariant
            n == seqs@.len(),
            idx <= n,
            increasing(seqs@),
            covers(pairs@, seqs@.subrange(0, idx as int)),
            idx < n && pairs@.len() > 0 ==> seqs@[idx as int] - pairs@.last().0 > 16,
        decreases n - idx,
    {
        let start: usize = idx;
        let pid: u16 = seqs[idx];
        idx += 1;
        let mut blp: u16 = 0;
        proof {
            assert forall|k: u16| #![trigger bit16(blp, k)] k < 16 implies !bit16(blp, k) by {
                lemma_zero_bit(k);
            }
            assert(seqs@.subrange(start + 1, idx as int) =~= seq![]);
        }
        while idx < n && seqs[idx] - pid <= 16
            invariant
                n == seqs@.len(),
                start < idx <= n,
                increasing(seqs@),
                pid == seqs@[start as int],
                forall|i: int| start <= i < idx ==> seqs@[i] - pid <= 16,
                is_mask(pid, seqs@.subrange(start + 1, idx as int), blp),
            decreases n - idx,
        {
            let diff: u16 = seqs[idx] - pid;
            let ghost before = blp;
            let ghost head = seqs@.subrange(start + 1, idx as int);
            let k: u16 = diff - 1;
            blp = blp | (1u16 << k);
            idx += 1;
            proof {
                let longer = seqs@.subrange(start + 1, idx as int);
                let x = seqs@[idx - 1];
                assert(longer =~= head.push(x));
                assert forall|j: u16| #![trigger bit16(blp, j)] j < 16 implies (bit16(blp, j)
                    <==> pid + j + 1 <= 0xFFFF && longer.contains((pid + j + 1) as u16)) by {
                    lemma_or_bit(before, k, j);
                    assert(bit16(before, j) <==> pid + j + 1 <= 0xFFFF && head.contains(
                        (pid + j + 1) as u16,
                    ));
                    let y = (pid + j + 1) as u16;
                    if pid + j + 1 <= 0xFFFF {
                        if longer.contains(y) {
                            let m = choose|m: int| 0 <= m < longer.len() && longer[m] == y;
                            if m < head.len() {
                                assert(head[m] == y);
                            }
                        }
                        if head.contains(y) {
                            let m = choose|m: int| 0 <= m < head.len() && head[m] == y;
                            assert(longer[m] == y);
                        }
                        assert(longer.last() == x);
                    }
                }
            }
        }
        proof {
            let done = seqs@.subrange(0, idx as int);
            assert(done.subrange(0, start as int) =~= seqs@.subrange(0, start as int));
            assert(done.subrange(start + 1, done.len() as int) =~= seqs@.subrange(
                start + 1,
                idx as int,
            ));
            lemma_covers_append(pairs@, done, start as int, (pid, blp));
        }
        pairs.push((pid, blp));
    }
    proof {
        assert(seqs@.subrange(0, n as int) =~= seqs@);
        lemma_covers_unique(pairs@, seqs@);
    }
    pairs
}

/// Reading the numbers back from the packed pairs gives each lost packet once, in ascending
/// order.
pub proof fn law_numbers_of_packed(packets: Seq<u16>)
    ensures
        pair_numbers(nack_pairs(ascending(packets))) == ascending(packets),
{
    lemma_ascending(packets);
    lemma_pairs_cover(ascending(packets));
    lemma_pair_numbers(nack_pairs(ascending(packets)), ascending(packets));
}

/// Appends the numbers that the pair `(pid, blp)` stands for.
pub fn push_pair_numbers(out: &mut Vec<u16>, pid: u16, blp: u16)
    ensures
        final(out)@ == old(out)@ + (seq![pid] + mask_list(pid, blp, 16)),
{
    out.push(pid);
    let mut bit: u16 = 0;
    assert(out@ =~= old(out)@ + (seq![pid] + mask_list(pid, blp, 0)));
    while bit < 16
        invariant
            bit <= 16,
            out@ == old(out)@ + (seq![pid] + mask_list(pid, blp, bit as nat)),
        decreases 16 - bit,
    {
        let ghost head = mask_list(pid, blp, bit as nat);
        if (blp >> bit) & 1 == 1 {
            out.push(pid.wrapping_add(bit + 1));
        }
        bit += 1;
        assert(out@ =~= old(out)@ + (seq![pid] + mask_list(pid, blp, bit as nat)));
    }
}

} // verus!
