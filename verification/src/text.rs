//! Decimal and hexadecimal numbers in text, and the pieces that text is cut into.
use vstd::prelude::*;
use vstd::string::*;

verus! {

/// `String::push` of std appends one character.
pub assume_specification[ String::push ](s: &mut String, c: char)
    ensures
        final(s)@ == old(s)@.push(c),
;

/// The text that bytes stand for in UTF-8, with a replacement character for each part that is
/// not valid.
pub uninterp spec fn utf8_lossy(bytes: Seq<u8>) -> Seq<char>;

/// `String::from_utf8_lossy` of std. Valid UTF-8 is taken as it is.
#[verifier::external_body]
pub(crate) fn lossy_string(bytes: &[u8]) -> (r: String)
    ensures
        r@ == utf8_lossy(bytes@),
        vstd::utf8::valid_utf8(bytes@) ==> r@ == vstd::utf8::decode_utf8(bytes@),
{
    String::from_utf8_lossy(bytes).into_owned()
}

/// The characters of `s`.
pub fn chars_of(s: &str) -> (r: Vec<char>)
    ensures
        r@ == s@,
{
    let mut out: Vec<char> = Vec::new();
    for c in iter: s.chars()
        invariant
            iter.seq() == s@,
            out@ == s@.subrange(0, iter.index() as int),
    {
        out.push(c);
        assert(out@ =~= s@.subrange(0, iter.index() + 1));
    }
    assert(out@ =~= s@);
    out
}

/// The string of the characters `cs`.
pub fn string_of(cs: &[char]) -> (r: String)
    ensures
        r@ == cs@,
{
    let n: usize = cs.len();
    let mut out = String::new();
    let mut i: usize = 0;
    assert(out@ =~= cs@.subrange(0, 0));
    while i < n
        invariant
            n == cs@.len(),
            i <= n,
            out@ == cs@.subrange(0, i as int),
        decreases n - i,
    {
        out.push(cs[i]);
        i += 1;
        assert(out@ =~= cs@.subrange(0, i as int));
    }
    assert(out@ =~= cs@);
    out
}

/// The characters from `start` up to `end`.
pub fn copy_chars(cs: &[char], start: usize, end: usize) -> (r: Vec<char>)
    requires
        start <= end <= cs@.len(),
    ensures
        r@ == cs@.subrange(start as int, end as int),
{
    let mut out: Vec<char> = Vec::new();
    let mut i: usize = start;
    while i < end
        invariant
            start <= i <= end <= cs@.len(),
            out@ == cs@.subrange(start as int, i as int),
        decreases end - i,
    {
        out.push(cs[i]);
        i += 1;
        assert(out@ =~= cs@.subrange(start as int, i as int));
    }
    out
}

/// The decimal digit `d`.
pub open spec fn digit_char(d: nat) -> char {
    (48 + d) as u8 as char
}

/// The decimal number `n`, without leading zeros.
pub open spec fn decimal(n: nat) -> Seq<char>
    decreases n,
{
    if n < 10 {
        seq![digit_char(n)]
    } else {
        decimal(n / 10).push(digit_char(n % 10))
    }
}

/// Appends the decimal number `n`.
pub fn push_decimal(out: &mut String, n: u64)
    ensures
        final(out)@ == old(out)@ + decimal(n as nat),
    decreases n,
{
    if n >= 10 {
        push_decimal(out, n / 10);
    }
    let d: u8 = (n % 10) as u8;
    out.push((48 + d) as char);
    assert(out@ =~= old(out)@ + decimal(n as nat));
}

/// The decimal number `n` as a string.
pub fn decimal_string(n: u64) -> (r: String)
    ensures
        r@ == decimal(n as nat),
{
    let mut out = String::new();
    push_decimal(&mut out, n);
    assert(out@ =~= decimal(n as nat));
    out
}

/// Whether `c` is a decimal digit.
pub open spec fn is_digit(c: char) -> bool {
    '0' <= c && c <= '9'
}

/// Whether `cs` is made of digits alone, at least one.
pub open spec fn all_digits(cs: Seq<char>) -> bool {
    cs.len() > 0 && forall|i: int| 0 <= i < cs.len() ==> is_digit(#[trigger] cs[i])
}

/// The number that digits stand for.
pub open spec fn digits_value(cs: Seq<char>) -> nat
    decreases cs.len(),
{
    if cs.len() == 0 {
        0
    } else {
        digits_value(cs.drop_last()) * 10 + (cs.last() as nat - 48) as nat
    }
}

/// The digits of a number that may have a plus sign before it.
pub open spec fn unsigned_digits(cs: Seq<char>) -> Seq<char> {
    if cs.len() > 0 && cs[0] == '+' {
        cs.subrange(1, cs.len() as int)
    } else {
        cs
    }
}

/// The unsigned number that `cs` stands for, of at most `max`.
pub open spec fn parsed_number(cs: Seq<char>, max: nat) -> Option<nat> {
    let ds = unsigned_digits(cs);
    if all_digits(ds) && digits_value(ds) <= max {
        Some(digits_value(ds))
    } else {
        None
    }
}

proof fn lemma_digits_prefix(cs: Seq<char>, i: int)
    requires
        0 <= i <= cs.len(),
        forall|k: int| 0 <= k < cs.len() ==> is_digit(#[trigger] cs[k]),
    ensures
        digits_value(cs.subrange(0, i)) <= digits_value(cs),
    decreases cs.len(),
{
    if i < cs.len() {
        let head = cs.drop_last();
        assert forall|k: int| 0 <= k < head.len() implies is_digit(#[trigger] head[k]) by {
            assert(is_digit(cs[k]));
        }
        lemma_digits_prefix(head, i);
        assert(head.subrange(0, i) =~= cs.subrange(0, i));
        assert(is_digit(cs[cs.len() - 1]));
    } else {
        assert(cs.subrange(0, i) =~= cs);
    }
}

/// Reads an unsigned decimal number of at most `max`, as `str::parse` does: digits alone, with
/// or without a plus sign before them.
pub fn parse_number(cs: &[char], max: u64) -> (r: Option<u64>)
    ensures
        match r {
            Some(x) => parsed_number(cs@, max as nat) == Some(x as nat),
            None => parsed_number(cs@, max as nat) is None,
        },
{
    let n: usize = cs.len();
    let start: usize = if n > 0 && cs[0] == '+' {
        1
    } else {
        0
    };
    let ghost ds = unsigned_digits(cs@);
    assert(ds =~= cs@.subrange(start as int, n as int));
    if start == n {
        return None;
    }
    let mut value: u64 = 0;
    let mut i: usize = start;
    assert(ds.subrange(0, 0) =~= seq![]);
    while i < n
        invariant
            n == cs@.len(),
            start <= i <= n,
            ds == cs@.subrange(start as int, n as int),
            ds == unsigned_digits(cs@),
            forall|k: int| 0 <= k < i - start ==> is_digit(#[trigger] ds[k]),
            value == digits_value(ds.subrange(0, i - start)),
            value <= max,
        decreases n - i,
    {
        let c: char = cs[i];
        let ghost k = i - start;
        assert(ds[k] == c);
        if c < '0' || c > '9' {
            assert(!is_digit(ds[k]));
            return None;
        }
        let d: u64 = c as u64 - 48;
        proof {
            let longer = ds.subrange(0, k + 1);
            assert(longer.drop_last() =~= ds.subrange(0, k));
            assert(longer.last() == c);
            assert(digits_value(longer) == value * 10 + d);
            if value * 10 + d > max && all_digits(ds) {
                lemma_digits_prefix(ds, k + 1);
            }
        }
        if value > max / 10 || d > max - value * 10 {
            return None;
        }
        value = value * 10 + d;
        i += 1;
    }
    assert(ds.subrange(0, n - start) =~= ds);
    Some(value)
}

/// The lower case hexadecimal digit `d`.
pub open spec fn hex_char(d: nat) -> char {
    if d < 10 {
        (48 + d) as u8 as char
    } else {
        (87 + d) as u8 as char
    }
}

/// The bytes as pairs of lower case hexadecimal digits.
pub open spec fn hex(bytes: Seq<u8>) -> Seq<char>
    decreases bytes.len(),
{
    if bytes.len() == 0 {
        seq![]
    } else {
        hex(bytes.drop_last()).push(hex_char((bytes.last() / 16) as nat)).push(
            hex_char((bytes.last() % 16) as nat),
        )
    }
}

pub fn hex_digit(d: u8) -> (c: char)
    requires
        d < 16,
    ensures
        c == hex_char(d as nat),
{
    if d < 10 {
        (48 + d) as char
    } else {
        (87 + d) as char
    }
}

/// The bytes as lower case hexadecimal digits.
pub fn hex_encode(bytes: &[u8]) -> (r: String)
    ensures
        r@ == hex(bytes@),
{
    let n: usize = bytes.len();
    let mut out = String::new();
    let mut i: usize = 0;
    assert(out@ =~= hex(bytes@.subrange(0, 0)));
    while i < n
        invariant
            n == bytes@.len(),
            i <= n,
            out@ == hex(bytes@.subrange(0, i as int)),
        decreases n - i,
    {
        let b: u8 = bytes[i];
        out.push(hex_digit(b / 16));
        out.push(hex_digit(b % 16));
        i += 1;
        assert(bytes@.subrange(0, i as int).drop_last() =~= bytes@.subrange(0, i - 1));
    }
    assert(bytes@.subrange(0, n as int) =~= bytes@);
    out
}

/// Each byte takes two hexadecimal digits.
pub proof fn lemma_hex_len(bytes: Seq<u8>)
    ensures
        hex(bytes).len() == 2 * bytes.len(),
    decreases bytes.len(),
{
    if bytes.len() > 0 {
        lemma_hex_len(bytes.drop_last());
    }
}

/// The position of the first `c` in `cs` from `from` on, or the length where there is none.
pub open spec fn first_at(cs: Seq<char>, from: int, c: char) -> int
    decreases cs.len() - from,
{
    if 0 <= from < cs.len() && cs[from] != c {
        first_at(cs, from + 1, c)
    } else if from < cs.len() {
        from
    } else {
        cs.len() as int
    }
}

/// Finds the first `c` from `from` on, or the length where there is none.
pub fn find_char(cs: &[char], from: usize, c: char) -> (r: usize)
    requires
        from <= cs@.len(),
    ensures
        r == first_at(cs@, from as int, c),
        from <= r <= cs@.len(),
        r < cs@.len() ==> cs@[r as int] == c,
        forall|k: int| from <= k < r ==> cs@[k] != c,
{
    let n: usize = cs.len();
    let mut i: usize = from;
    while i < n && cs[i] != c
        invariant
            n == cs@.len(),
            from <= i <= n,
            first_at(cs@, from as int, c) == first_at(cs@, i as int, c),
            forall|k: int| from <= k < i ==> cs@[k] != c,
        decreases n - i,
    {
        i += 1;
    }
    i
}

/// Whether two lists of characters are the same.
pub fn chars_eq(a: &[char], b: &[char]) -> (r: bool)
    ensures
        r == (a@ == b@),
{
    let n: usize = a.len();
    if n != b.len() {
        return false;
    }
    let mut i: usize = 0;
    while i < n
        invariant
            n == a@.len(),
            n == b@.len(),
            i <= n,
            forall|k: int| 0 <= k < i ==> a@[k] == b@[k],
        decreases n - i,
    {
        if a[i] != b[i] {
            return false;
        }
        i += 1;
    }
    assert(a@ =~= b@);
    true
}

/// Whether the characters are those of `s`.
pub fn chars_are(a: &[char], s: &str) -> (r: bool)
    ensures
        r == (a@ == s@),
{
    let b = chars_of(s);
    chars_eq(a, b.as_slice())
}

/// Whether two strings are the same.
pub fn str_eq(a: &str, b: &str) -> (r: bool)
    ensures
        r == (a@ == b@),
{
    let x = chars_of(a);
    chars_are(x.as_slice(), b)
}

/// `prefix` followed by `rest`.
pub fn joined(prefix: &str, rest: &str) -> (r: String)
    ensures
        r@ == prefix@ + rest@,
{
    let mut out = String::from_str(prefix);
    out.append(rest);
    out
}

/// Whether `c` is white space.
pub open spec fn is_space(c: char) -> bool {
    let n = c as u32;
    9 <= n <= 13 || n == 32 || n == 0x85 || n == 0xA0 || n == 0x1680 || 0x2000 <= n <= 0x200A || n
        == 0x2028 || n == 0x2029 || n == 0x202F || n == 0x205F || n == 0x3000
}

fn is_whitespace(c: char) -> (r: bool)
    ensures
        r == is_space(c),
{
    let n: u32 = c as u32;
    (n >= 9 && n <= 13) || n == 32 || n == 0x85 || n == 0xA0 || n == 0x1680 || (n >= 0x2000 && n
        <= 0x200A) || n == 0x2028 || n == 0x2029 || n == 0x202F || n == 0x205F || n == 0x3000
}

/// Where the run of characters that are space, or are not, ends that starts at `from`.
pub open spec fn run_end(cs: Seq<char>, from: int, space: bool) -> int
    decreases cs.len() - from,
{
    if 0 <= from < cs.len() && is_space(cs[from]) == space {
        run_end(cs, from + 1, space)
    } else {
        from
    }
}

/// The pieces of `cs` between white space.
pub open spec fn words(cs: Seq<char>) -> Seq<Seq<char>>
    decreases cs.len(),
{
    let a = run_end(cs, 0, true);
    let b = run_end(cs, a, false);
    if a < 0 || b <= a || b > cs.len() {
        seq![]
    } else {
        seq![cs.subrange(a, b)] + words(cs.subrange(b, cs.len() as int))
    }
}

fn find_run_end(cs: &[char], from: usize, space: bool) -> (r: usize)
    requires
        from <= cs@.len(),
    ensures
        r == run_end(cs@, from as int, space),
        from <= r <= cs@.len(),
{
    let n: usize = cs.len();
    let mut i: usize = from;
    while i < n && is_whitespace(cs[i]) == space
        invariant
            n == cs@.len(),
            from <= i <= n,
            run_end(cs@, from as int, space) == run_end(cs@, i as int, space),
        decreases n - i,
    {
        i += 1;
    }
    i
}

/// The contents of a list of words.
pub open spec fn word_views(ws: Seq<Vec<char>>) -> Seq<Seq<char>> {
    ws.map_values(|w: Vec<char>| w@)
}

proof fn lemma_run_end_shift(cs: Seq<char>, at: int, from: int, space: bool)
    requires
        0 <= at <= cs.len(),
        0 <= from,
    ensures
        run_end(cs.subrange(at, cs.len() as int), from, space) == run_end(cs, at + from, space)
            - at,
    decreases cs.len() - at - from,
{
    let t = cs.subrange(at, cs.len() as int);
    if from < t.len() && is_space(t[from]) == space {
        lemma_run_end_shift(cs, at, from + 1, space);
    }
}

/// Splits text at white space.
pub fn split_words(cs: &[char]) -> (r: Vec<Vec<char>>)
    ensures
        word_views(r@) == words(cs@),
{
    let n: usize = cs.len();
    let mut out: Vec<Vec<char>> = Vec::new();
    let mut at: usize = 0;
    proof {
        assert(cs@.subrange(0, n as int) =~= cs@);
        assert(word_views(out@) + words(cs@) =~= words(cs@));
    }
    loop
        invariant
            n == cs@.len(),
            at <= n,
            words(cs@) == word_views(out@) + words(cs@.subrange(at as int, n as int)),
        decreases n - at,
    {
        let ghost rest = cs@.subrange(at as int, n as int);
        let a: usize = find_run_end(cs, at, true);
        let b: usize = find_run_end(cs, a, false);
        proof {
            lemma_run_end_shift(cs@, at as int, 0, true);
            lemma_run_end_shift(cs@, at as int, a - at, false);
        }
        if b == a {
            assert(word_views(out@) + seq![] =~= word_views(out@));
            return out;
        }
        let word = copy_chars(cs, a, b);
        let ghost before = word_views(out@);
        proof {
            assert(rest.subrange(a - at, b - at) =~= word@);
            assert(rest.subrange(b - at, rest.len() as int) =~= cs@.subrange(b as int, n as int));
            assert(word_views(out@.push(word)) =~= before.push(word@));
            assert(before + (seq![word@] + words(cs@.subrange(b as int, n as int)))
                =~= before.push(word@) + words(cs@.subrange(b as int, n as int)));
        }
        out.push(word);
        at = b;
    }
}

/// Words with one space between them.
pub open spec fn spaced(ws: Seq<Seq<char>>) -> Seq<char>
    decreases ws.len(),
{
    if ws.len() == 0 {
        seq![]
    } else if ws.len() == 1 {
        ws[0]
    } else {
        ws[0].push(' ') + spaced(ws.drop_first())
    }
}

/// Whether `w` has characters and none of them is white space.
pub open spec fn is_word(w: Seq<char>) -> bool {
    w.len() > 0 && forall|i: int| 0 <= i < w.len() ==> !is_space(#[trigger] w[i])
}

proof fn lemma_run_of_word(w: Seq<char>, rest: Seq<char>, i: int)
    requires
        is_word(w),
        0 <= i <= w.len(),
        rest.len() == 0 || is_space(rest[0]),
    ensures
        run_end(w + rest, i, false) == w.len(),
    decreases w.len() - i,
{
    let cs = w + rest;
    if i < w.len() {
        assert(cs[i] == w[i]);
        assert(!is_space(w[i]));
        lemma_run_of_word(w, rest, i + 1);
    } else if rest.len() > 0 {
        assert(cs[i] == rest[0]);
    }
}

proof fn lemma_words_step(w: Seq<char>, rest: Seq<char>)
    requires
        is_word(w),
        rest.len() == 0 || is_space(rest[0]),
    ensures
        words(w + rest) == seq![w] + words(rest),
{
    let cs = w + rest;
    assert(cs[0] == w[0]);
    assert(!is_space(w[0]));
    assert(run_end(cs, 0, true) == 0);
    lemma_run_of_word(w, rest, 0);
    assert(cs.subrange(0, w.len() as int) =~= w);
    assert(cs.subrange(w.len() as int, cs.len() as int) =~= rest);
}

proof fn lemma_words_after_space(cs: Seq<char>)
    ensures
        words(seq![' '] + cs) == words(cs),
{
    let s = seq![' '] + cs;
    assert(s.subrange(1, s.len() as int) =~= cs);
    lemma_run_end_shift(s, 1, 0, true);
    let a = run_end(cs, 0, true);
    lemma_run_end_bounds(cs, 0, true);
    lemma_run_end_bounds(cs, a, false);
    lemma_run_end_shift(s, 1, a, false);
    let b = run_end(cs, a, false);
    assert(run_end(s, 0, true) == run_end(s, 1, true));
    assert(run_end(s, 0, true) == a + 1);
    assert(run_end(s, a + 1, false) == b + 1);
    if b > a {
        assert(s.subrange(a + 1, b + 1) =~= cs.subrange(a, b));
        assert(s.subrange(b + 1, s.len() as int) =~= cs.subrange(b, cs.len() as int));
    }
}

proof fn lemma_run_end_bounds(cs: Seq<char>, from: int, space: bool)
    requires
        0 <= from <= cs.len(),
    ensures
        from <= run_end(cs, from, space) <= cs.len(),
    decreases cs.len() - from,
{
    if from < cs.len() && is_space(cs[from]) == space {
        lemma_run_end_bounds(cs, from + 1, space);
    }
}

/// Text made of words with one space between them is split into those words again.
pub proof fn lemma_words_of_spaced(ws: Seq<Seq<char>>)
    requires
        forall|i: int| 0 <= i < ws.len() ==> is_word(#[trigger] ws[i]),
    ensures
        words(spaced(ws)) == ws,
    decreases ws.len(),
{
    if ws.len() == 0 {
        assert(words(spaced(ws)) =~= ws);
    } else if ws.len() == 1 {
        let none: Seq<char> = seq![];
        assert(is_word(ws[0]));
        lemma_words_step(ws[0], none);
        assert(ws[0] + none =~= ws[0]);
        assert(words(none) =~= seq![]);
        assert(seq![ws[0]] + words(none) =~= ws);
    } else {
        let rest = ws.drop_first();
        assert forall|i: int| 0 <= i < rest.len() implies is_word(#[trigger] rest[i]) by {
            assert(is_word(ws[i + 1]));
        }
        lemma_words_of_spaced(rest);
        let tail = seq![' '] + spaced(rest);
        assert(is_word(ws[0]));
        assert(is_space(' '));
        lemma_words_step(ws[0], tail);
        lemma_words_after_space(spaced(rest));
        assert(ws[0].push(' ') + spaced(rest) =~= ws[0] + tail);
        assert(seq![ws[0]] + rest =~= ws);
    }
}

/// A decimal number is made of digits and stands for itself.
pub proof fn lemma_decimal(n: nat)
    ensures
        all_digits(decimal(n)),
        digits_value(decimal(n)) == n,
        is_word(decimal(n)),
        decimal(n)[0] != '+',
    decreases n,
{
    let d = digit_char(n % 10);
    assert(is_digit(d) && d as nat == 48 + n % 10);
    if n < 10 {
        let cs = seq![d];
        assert(decimal(n) =~= cs);
        assert(cs.drop_last() =~= seq![]);
        assert(cs.last() == d);
        assert(digits_value(cs.drop_last()) == 0);
    } else {
        lemma_decimal(n / 10);
        let head = decimal(n / 10);
        let cs = decimal(n);
        assert(cs == head.push(d));
        assert(cs.drop_last() =~= head);
        assert forall|i: int| 0 <= i < cs.len() implies is_digit(#[trigger] cs[i]) by {
            if i < head.len() {
                assert(is_digit(head[i]));
            }
        }
    }
    let cs = decimal(n);
    assert forall|i: int| 0 <= i < cs.len() implies !is_space(#[trigger] cs[i]) by {
        assert(is_digit(cs[i]));
    }
    assert(is_digit(cs[0]));
}

/// A decimal number is read back as it was written, where it is not too great.
pub proof fn lemma_parsed_decimal(n: nat, max: nat)
    requires
        n <= max,
    ensures
        parsed_number(decimal(n), max) == Some(n),
{
    lemma_decimal(n);
}

/// The character with an upper case letter of ASCII replaced by its lower case letter.
pub open spec fn lower_char(c: char) -> char {
    if 'A' <= c && c <= 'Z' {
        (c as u8 + 32) as u8 as char
    } else {
        c
    }
}

/// The text with upper case letters of ASCII replaced by their lower case letters.
pub open spec fn lower(cs: Seq<char>) -> Seq<char> {
    cs.map_values(|c: char| lower_char(c))
}

/// Replaces upper case letters of ASCII by their lower case letters.
pub fn to_lower(cs: &[char]) -> (r: Vec<char>)
    ensures
        r@ == lower(cs@),
{
    let n: usize = cs.len();
    let mut out: Vec<char> = Vec::new();
    let mut i: usize = 0;
    while i < n
        invariant
            n == cs@.len(),
            i <= n,
            out@ == lower(cs@.subrange(0, i as int)),
        decreases n - i,
    {
        let c: char = cs[i];
        let d: char = if c >= 'A' && c <= 'Z' {
            (c as u8 + 32) as char
        } else {
            c
        };
        out.push(d);
        i += 1;
        assert(out@ =~= lower(cs@.subrange(0, i as int)));
    }
    assert(cs@.subrange(0, n as int) =~= cs@);
    out
}

/// Whether `cs` starts with `prefix`.
pub open spec fn starts_with(cs: Seq<char>, prefix: Seq<char>) -> bool {
    prefix.len() <= cs.len() && cs.subrange(0, prefix.len() as int) == prefix
}

/// Tells whether text starts with `prefix`.
pub fn has_prefix(cs: &[char], prefix: &[char]) -> (r: bool)
    ensures
        r == starts_with(cs@, prefix@),
{
    if prefix.len() > cs.len() {
        return false;
    }
    let head = copy_chars(cs, 0, prefix.len());
    chars_eq(head.as_slice(), prefix)
}

/// The text without the prefix, as often as the text starts with it.
pub open spec fn without_prefix(cs: Seq<char>, prefix: Seq<char>) -> Seq<char>
    decreases cs.len(),
{
    if prefix.len() > 0 && starts_with(cs, prefix) {
        without_prefix(cs.subrange(prefix.len() as int, cs.len() as int), prefix)
    } else {
        cs
    }
}

/// Removes the prefix, as often as the text starts with it.
pub fn trim_prefix(cs: &[char], prefix: &str) -> (r: Vec<char>)
    ensures
        r@ == without_prefix(cs@, prefix@),
{
    let p = chars_of(prefix);
    let n: usize = cs.len();
    let m: usize = p.len();
    let mut at: usize = 0;
    assert(cs@.subrange(0, n as int) =~= cs@);
    while m > 0 && n - at >= m
        invariant
            n == cs@.len(),
            m == p@.len(),
            p@ == prefix@,
            at <= n,
            without_prefix(cs@, prefix@) == without_prefix(
                cs@.subrange(at as int, n as int),
                prefix@,
            ),
        decreases n - at,
    {
        let rest = copy_chars(cs, at, n);
        if !has_prefix(rest.as_slice(), p.as_slice()) {
            return rest;
        }
        at = at + m;
        assert(rest@.subrange(m as int, rest@.len() as int) =~= cs@.subrange(at as int, n as int));
    }
    copy_chars(cs, at, n)
}

/// The contents of a list of strings.
pub open spec fn string_views(ws: Seq<String>) -> Seq<Seq<char>> {
    ws.map_values(|w: String| w@)
}

/// Joins strings with one space between them.
pub fn join_spaced(ws: &[String]) -> (r: String)
    ensures
        r@ == spaced(string_views(ws@)),
{
    let n: usize = ws.len();
    let ghost all = string_views(ws@);
    let mut out = String::new();
    let mut i: usize = 0;
    assert(all.subrange(0, n as int) =~= all);
    assert(out@ + spaced(all) =~= spaced(all));
    while i < n
        invariant
            n == ws@.len(),
            all == string_views(ws@),
            i <= n,
            spaced(all) == out@ + spaced(all.subrange(i as int, n as int)),
        decreases n - i,
    {
        let ghost rest = all.subrange(i as int, n as int);
        let ghost before = out@;
        out.append(ws[i].as_str());
        if n - i > 1 {
            out.push(' ');
        }
        i += 1;
        proof {
            let after = all.subrange(i as int, n as int);
            assert(rest.drop_first() =~= after);
            assert(rest[0] == ws@[i - 1]@);
            if after.len() > 0 {
                assert(before + (rest[0].push(' ') + spaced(after)) =~= out@ + spaced(after));
            } else {
                assert(out@ + spaced(after) =~= out@);
            }
        }
    }
    assert(out@ + spaced(all.subrange(n as int, n as int)) =~= out@);
    out
}

} // verus!
